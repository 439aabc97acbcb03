# video2gd

Turns the frames of a video into colour-change animations for Geometry Dash.

- `src/` is the verified library: colour quantisation (`util`), the video model
  and its settings (`data`, `settings`), per-frame processing and frame
  differencing (`process`, `scale`), the `txt`, `anmt` and `json` encodings
  (`output`, `text`, `json_doc`, the last built with the `json` crate), report figures (`stats`), and the playback laws of the
  differencing modes (`playback`).
- `app/` is the command-line program: argument parsing, running `ffmpeg` and
  `ffprobe`, decoding frame images, the floating-point frame-rate and sizing
  arithmetic, logging and file output.
- `tests/` exercises the library on concrete inputs.
