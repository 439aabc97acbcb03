//! Turns decoded video frames into the colour-change streams that a
//! Geometry Dash level replays: colour quantisation, frame differencing
//! and the `txt`, `anmt` and `json` encodings of the result.

pub mod util;
pub mod data;
pub mod process;
pub mod playback;
pub mod text;
pub mod output;
pub mod scale;
pub mod settings;
pub mod stats;
pub mod json_doc;
