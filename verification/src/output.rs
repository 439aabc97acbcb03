use vstd::prelude::*;

use crate::data::{PixelUpdate, Video};
use crate::process::frames_view;
use crate::json_doc::{
    json_dump, json_insert, json_integer, json_integer_value, json_model, json_new_array,
    json_new_object, json_push, json_text, JsonModel,
};
use crate::text::{decimal, join, lemma_join_take, push_bytes, push_decimal};
use json::JsonValue;

verus! {

/// `x,y,r,g,b` in decimal.
pub open spec fn update_text(u: PixelUpdate) -> Seq<u8> {
    decimal(u.position.0 as nat) + seq![44u8] + decimal(u.position.1 as nat) + seq![44u8] + decimal(
        u.color.r as nat,
    ) + seq![44u8] + decimal(u.color.g as nat) + seq![44u8] + decimal(u.color.b as nat)
}

/// The updates of a frame as text, separated by `:`.
pub open spec fn frame_text(frame: Seq<PixelUpdate>) -> Seq<u8> {
    join(frame.map_values(|u: PixelUpdate| update_text(u)), seq![58u8])
}

/// The `txt` animation: a `width,height,fps` header line, then one line
/// per frame.
pub open spec fn spec_txt(width: nat, height: nat, fps_text: Seq<u8>, frames: Seq<Seq<PixelUpdate>>) -> Seq<u8> {
    decimal(width) + seq![44u8] + decimal(height) + seq![44u8] + fps_text + seq![10u8] + join(
        frames.map_values(|f: Seq<PixelUpdate>| frame_text(f)),
        seq![10u8],
    )
}

/// The parts one after the other.
pub open spec fn concat(parts: Seq<Seq<u8>>) -> Seq<u8>
    decreases parts.len(),
{
    if parts.len() == 0 {
        seq![]
    } else {
        concat(parts.drop_last()) + parts.last()
    }
}

/// Five bytes per update: column and row, each plus one so that no
/// position byte is zero, then red, green and blue.
pub open spec fn update_bytes(u: PixelUpdate) -> Seq<u8> {
    seq![
        (u.position.0 % 256 + 1) as u8,
        (u.position.1 % 256 + 1) as u8,
        u.color.r,
        u.color.g,
        u.color.b,
    ]
}

/// A zero byte that opens the frame, then its updates.
pub open spec fn frame_bytes(frame: Seq<PixelUpdate>) -> Seq<u8> {
    seq![0u8] + concat(frame.map_values(|u: PixelUpdate| update_bytes(u)))
}

/// The binary `anmt` animation: width and height (low byte each), the
/// whole and fractional parts of the frame rate, then the frames.
pub open spec fn spec_anmt(
    width: nat,
    height: nat,
    fps_whole: u8,
    fps_fraction: u8,
    frames: Seq<Seq<PixelUpdate>>,
) -> Seq<u8> {
    seq![(width % 256) as u8, (height % 256) as u8, fps_whole, fps_fraction] + concat(
        frames.map_values(|f: Seq<PixelUpdate>| frame_bytes(f)),
    )
}

/// Every position of every update has low bytes below 255, so that one
/// more still fits in a byte.
pub open spec fn positions_fit_byte(frames: Seq<Seq<PixelUpdate>>) -> bool {
    forall|k: int, i: int|
        0 <= k < frames.len() && 0 <= i < frames[k].len() ==> {
            &&& (#[trigger] frames[k][i]).position.0 % 256 < 255
            &&& frames[k][i].position.1 % 256 < 255
        }
}

/// `[x,y,r,g,b]` as a JSON array of numbers.
pub open spec fn update_model(u: PixelUpdate) -> JsonModel {
    JsonModel::Array(
        seq![
            json_integer(u.position.0 as u64),
            json_integer(u.position.1 as u64),
            json_integer(u.color.r as u64),
            json_integer(u.color.g as u64),
            json_integer(u.color.b as u64),
        ],
    )
}

/// A frame as a JSON array of its updates.
pub open spec fn frame_model(frame: Seq<PixelUpdate>) -> JsonModel {
    JsonModel::Array(frame.map_values(|u: PixelUpdate| update_model(u)))
}

/// The JSON animation: an object with `width`, `height`, `fps` and
/// `frames`, in that order.
pub open spec fn video_model(width: u64, height: u64, fps: JsonModel, frames: Seq<Seq<PixelUpdate>>) -> JsonModel {
    JsonModel::Object(
        seq![
            ("width"@, json_integer(width)),
            ("height"@, json_integer(height)),
            ("fps"@, fps),
            ("frames"@, JsonModel::Array(frames.map_values(|f: Seq<PixelUpdate>| frame_model(f)))),
        ],
    )
}

fn push_update_text(out: &mut Vec<u8>, u: &PixelUpdate)
    ensures
        final(out)@ == old(out)@ + update_text(*u),
{
    push_decimal(out, u.position.0);
    out.push(44);
    push_decimal(out, u.position.1);
    out.push(44);
    push_decimal(out, u.color.r as usize);
    out.push(44);
    push_decimal(out, u.color.g as usize);
    out.push(44);
    push_decimal(out, u.color.b as usize);
    assert(final(out)@ =~= old(out)@ + update_text(*u));
}

fn push_frame_text(out: &mut Vec<u8>, frame: &Vec<PixelUpdate>)
    ensures
        final(out)@ == old(out)@ + frame_text(frame@),
{
    let ghost start = out@;
    let ghost parts = frame@.map_values(|u: PixelUpdate| update_text(u));
    let mut i: usize = 0;
    while i < frame.len()
        invariant
            i <= frame@.len(),
            parts == frame@.map_values(|u: PixelUpdate| update_text(u)),
            out@ == start + join(parts.take(i as int), seq![58u8]),
        decreases frame@.len() - i,
    {
        proof {
            lemma_join_take(parts, seq![58u8], i as int);
        }
        if i > 0 {
            out.push(58);
        }
        push_update_text(out, &frame[i]);
        i = i + 1;
        assert(out@ =~= start + join(parts.take(i as int), seq![58u8]));
    }
    assert(parts.take(frame@.len() as int) =~= parts);
}

fn push_frame_bytes(out: &mut Vec<u8>, frame: &Vec<PixelUpdate>)
    requires
        forall|i: int|
            0 <= i < frame@.len() ==> (#[trigger] frame@[i]).position.0 % 256 < 255
                && frame@[i].position.1 % 256 < 255,
    ensures
        final(out)@ == old(out)@ + frame_bytes(frame@),
{
    let ghost parts = frame@.map_values(|u: PixelUpdate| update_bytes(u));
    out.push(0);
    let ghost start = out@;
    let mut i: usize = 0;
    while i < frame.len()
        invariant
            i <= frame@.len(),
            parts == frame@.map_values(|u: PixelUpdate| update_bytes(u)),
            forall|j: int|
                0 <= j < frame@.len() ==> (#[trigger] frame@[j]).position.0 % 256 < 255
                    && frame@[j].position.1 % 256 < 255,
            out@ == start + concat(parts.take(i as int)),
        decreases frame@.len() - i,
    {
        let u = &frame[i];
        let x: u8 = (u.position.0 % 256) as u8;
        let y: u8 = (u.position.1 % 256) as u8;
        out.push(x + 1);
        out.push(y + 1);
        out.push(u.color.r);
        out.push(u.color.g);
        out.push(u.color.b);
        proof {
            assert(parts.take(i + 1).drop_last() =~= parts.take(i as int));
            assert(parts[i as int] == update_bytes(*u));
        }
        i = i + 1;
        assert(out@ =~= start + concat(parts.take(i as int)));
    }
    assert(parts.take(frame@.len() as int) =~= parts);
    assert(final(out)@ =~= old(out)@ + frame_bytes(frame@));
}

fn update_value(u: &PixelUpdate) -> (value: JsonValue)
    ensures
        json_model(value) == update_model(*u),
{
    let mut value = json_new_array();
    json_push(&mut value, json_integer_value(u.position.0));
    json_push(&mut value, json_integer_value(u.position.1));
    json_push(&mut value, json_integer_value(u.color.r as usize));
    json_push(&mut value, json_integer_value(u.color.g as usize));
    json_push(&mut value, json_integer_value(u.color.b as usize));
    assert(json_model(value)->Array_0 =~= update_model(*u)->Array_0);
    value
}

fn frame_value(frame: &Vec<PixelUpdate>) -> (value: JsonValue)
    ensures
        json_model(value) == frame_model(frame@),
{
    let ghost items = frame@.map_values(|u: PixelUpdate| update_model(u));
    let mut value = json_new_array();
    assert(items.take(0) =~= Seq::<JsonModel>::empty());
    let mut i: usize = 0;
    while i < frame.len()
        invariant
            i <= frame@.len(),
            items == frame@.map_values(|u: PixelUpdate| update_model(u)),
            json_model(value) == JsonModel::Array(items.take(i as int)),
        decreases frame@.len() - i,
    {
        let item = update_value(&frame[i]);
        json_push(&mut value, item);
        i = i + 1;
        assert(items.take(i - 1).push(items[i - 1]) =~= items.take(i as int));
    }
    assert(items.take(frame@.len() as int) =~= items);
    value
}

proof fn lemma_keys_distinct()
    ensures
        "width"@ != "height"@,
        "width"@ != "fps"@,
        "height"@ != "fps"@,
        "width"@ != "frames"@,
        "height"@ != "frames"@,
        "fps"@ != "frames"@,
{
    reveal_strlit("width");
    reveal_strlit("height");
    reveal_strlit("fps");
    reveal_strlit("frames");
    assert("width"@.len() != "height"@.len());
    assert("width"@.len() != "fps"@.len());
    assert("height"@.len() != "fps"@.len());
    assert("width"@[0] != "frames"@[0]);
    assert("height"@[0] != "frames"@[0]);
    assert("fps"@.len() != "frames"@.len());
}

impl Video {
    /// The `txt` file: `width,height,fps` on the first line (the frame rate
    /// as the caller printed it), then for each frame its updates as
    /// `x,y,r,g,b` joined by `:`, frames separated by newlines.
    pub fn encode_txt(&self, fps_text: &[u8]) -> (txt: Vec<u8>)
        ensures
            txt@ == spec_txt(self.width as nat, self.height as nat, fps_text@, frames_view(self.frames@)),
    {
        let mut out: Vec<u8> = Vec::new();
        push_decimal(&mut out, self.width);
        out.push(44);
        push_decimal(&mut out, self.height);
        out.push(44);
        push_bytes(&mut out, fps_text);
        out.push(10);
        let ghost start = out@;
        let ghost fv = frames_view(self.frames@);
        let ghost parts = fv.map_values(|f: Seq<PixelUpdate>| frame_text(f));
        let mut k: usize = 0;
        while k < self.frames.len()
            invariant
                k <= self.frames@.len(),
                fv == frames_view(self.frames@),
                parts == fv.map_values(|f: Seq<PixelUpdate>| frame_text(f)),
                out@ == start + join(parts.take(k as int), seq![10u8]),
            decreases self.frames@.len() - k,
        {
            proof {
                lemma_join_take(parts, seq![10u8], k as int);
                assert(parts[k as int] == frame_text(self.frames@[k as int]@));
            }
            if k > 0 {
                out.push(10);
            }
            push_frame_text(&mut out, &self.frames[k]);
            k = k + 1;
            assert(out@ =~= start + join(parts.take(k as int), seq![10u8]));
        }
        assert(parts.take(self.frames@.len() as int) =~= parts);
        assert(out@ =~= spec_txt(self.width as nat, self.height as nat, fps_text@, fv));
        out
    }

    /// The binary `anmt` file: the low bytes of width and height, the
    /// frame rate's whole part and fraction in 256ths (as the caller
    /// rounded them), then each frame as a zero byte followed by five
    /// bytes per update.
    pub fn encode_anmt(&self, fps_whole: u8, fps_fraction: u8) -> (anmt: Vec<u8>)
        requires
            positions_fit_byte(frames_view(self.frames@)),
        ensures
            anmt@ == spec_anmt(
                self.width as nat,
                self.height as nat,
                fps_whole,
                fps_fraction,
                frames_view(self.frames@),
            ),
    {
        let mut out: Vec<u8> = Vec::new();
        out.push((self.width % 256) as u8);
        out.push((self.height % 256) as u8);
        out.push(fps_whole);
        out.push(fps_fraction);
        let ghost start = out@;
        let ghost fv = frames_view(self.frames@);
        let ghost parts = fv.map_values(|f: Seq<PixelUpdate>| frame_bytes(f));
        let mut k: usize = 0;
        while k < self.frames.len()
            invariant
                k <= self.frames@.len(),
                fv == frames_view(self.frames@),
                positions_fit_byte(fv),
                parts == fv.map_values(|f: Seq<PixelUpdate>| frame_bytes(f)),
                out@ == start + concat(parts.take(k as int)),
            decreases self.frames@.len() - k,
        {
            proof {
                assert(fv[k as int] == self.frames@[k as int]@);
                assert forall|i: int| 0 <= i < self.frames@[k as int]@.len() implies (
                #[trigger] self.frames@[k as int]@[i]).position.0 % 256 < 255
                    && self.frames@[k as int]@[i].position.1 % 256 < 255 by {
                    assert(fv[k as int][i] == self.frames@[k as int]@[i]);
                }
                assert(parts.take(k + 1).drop_last() =~= parts.take(k as int));
            }
            push_frame_bytes(&mut out, &self.frames[k]);
            k = k + 1;
            assert(out@ =~= start + concat(parts.take(k as int)));
        }
        assert(parts.take(self.frames@.len() as int) =~= parts);
        assert(out@ =~= spec_anmt(self.width as nat, self.height as nat, fps_whole, fps_fraction, fv));
        out
    }

    /// The JSON file: `json` serialises an object holding `width`,
    /// `height`, the frame rate `fps` (a value the caller built) and
    /// `frames`, each frame an array of `[x, y, r, g, b]` arrays.
    pub fn encode_json(&self, fps: JsonValue) -> (text: String)
        ensures
            text@ == json_text(
                video_model(self.width as u64, self.height as u64, json_model(fps), frames_view(self.frames@)),
            ),
    {
        proof {
            lemma_keys_distinct();
        }
        let ghost fv = frames_view(self.frames@);
        let ghost items = fv.map_values(|f: Seq<PixelUpdate>| frame_model(f));
        let mut frames = json_new_array();
        assert(items.take(0) =~= Seq::<JsonModel>::empty());
        let mut k: usize = 0;
        while k < self.frames.len()
            invariant
                k <= self.frames@.len(),
                fv == frames_view(self.frames@),
                items == fv.map_values(|f: Seq<PixelUpdate>| frame_model(f)),
                json_model(frames) == JsonModel::Array(items.take(k as int)),
            decreases self.frames@.len() - k,
        {
            let item = frame_value(&self.frames[k]);
            assert(items[k as int] == frame_model(self.frames@[k as int]@));
            json_push(&mut frames, item);
            k = k + 1;
            assert(items.take(k - 1).push(items[k - 1]) =~= items.take(k as int));
        }
        assert(items.take(self.frames@.len() as int) =~= items);
        let ghost fps_model = json_model(fps);
        let mut object = json_new_object();
        json_insert(&mut object, "width", json_integer_value(self.width));
        json_insert(&mut object, "height", json_integer_value(self.height));
        json_insert(&mut object, "fps", fps);
        json_insert(&mut object, "frames", frames);
        assert(json_model(object)->Object_0 =~= video_model(
            self.width as u64,
            self.height as u64,
            fps_model,
            fv,
        )->Object_0);
        json_dump(&object)
    }
}

} // verus!
