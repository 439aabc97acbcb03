use vstd::prelude::*;

use crate::text::str_eq;
use crate::util::{index_to_position, spec_position};
use vstd::string::StringExecFns;

verus! {

/// An 8-bit RGB colour.
#[derive(Debug, PartialEq, Eq, Structural, Copy, Clone)]
pub struct Color {
    pub r: u8,
    pub g: u8,
    pub b: u8,
}

/// One instruction of the animation: paint the pixel at `position`
/// (column, row) with `color`.
#[derive(Debug, Copy, Clone)]
pub struct PixelUpdate {
    pub position: (usize, usize),
    pub color: Color,
}

impl PartialEq for PixelUpdate {
    fn eq(&self, other: &Self) -> (r: bool) {
        self.position.0 == other.position.0 && self.position.1 == other.position.1 && self.color
            == other.color
    }
}

impl vstd::std_specs::cmp::PartialEqSpecImpl for PixelUpdate {
    open spec fn obeys_eq_spec() -> bool {
        true
    }

    open spec fn eq_spec(&self, other: &Self) -> bool {
        self.position.0 == other.position.0 && self.position.1 == other.position.1 && self.color
            == other.color
    }
}

impl Eq for PixelUpdate {

}

impl Color {
    /// The update that paints the `index`-th pixel of a row-major frame
    /// `width` pixels wide with this colour.
    pub fn to_pixel_update(&self, index: usize, width: usize) -> (u: PixelUpdate)
        requires
            width > 0,
        ensures
            u == (PixelUpdate { position: spec_position(index as int, width as int), color: *self }),
    {
        let (x, y) = index_to_position(index, width);
        PixelUpdate { position: (x, y), color: *self }
    }
}

/// How consecutive frames are differenced before output.
#[derive(Debug, PartialEq, Eq, Structural, Copy, Clone)]
pub enum Optimization {
    /// Every pixel of every frame is emitted (named "none").
    Off,
    /// A pixel is dropped when it equals the same pixel of the previous frame.
    Forward,
    /// A pixel is dropped when it equals the same pixel of the next frame.
    Backward,
    /// A pixel is dropped only when it equals the same pixel of both the
    /// previous and the next frame; this keeps more updates than either
    /// one-sided mode.
    Both,
}

/// Resampling filter used when frames are scaled down.
#[derive(Debug, PartialEq, Eq, Structural, Copy, Clone)]
pub enum Filter {
    Nearest,
    Linear,
    Cubic,
    Gaussian,
    Lanczos3,
}

/// A video being turned into an animation: its settings, its size after
/// scaling and the per-frame lists of pixel updates.
pub struct Video {
    /// File stem of the video, used to name every file derived from it.
    pub name: String,
    pub frames: Vec<Vec<PixelUpdate>>,
    pub frame_count: usize,
    pub width: usize,
    pub height: usize,
    pub quiet: bool,
    pub skip_extract: bool,
    pub optimization: Optimization,
    pub filter: Filter,
    pub color_precision: u8,
    pub max_pixels: u32,
}

impl Optimization {
    /// The mode's name on the command line and in reports.
    pub open spec fn name(self) -> Seq<char> {
        match self {
            Optimization::Off => "none"@,
            Optimization::Forward => "forward"@,
            Optimization::Backward => "backward"@,
            Optimization::Both => "both"@,
        }
    }

    /// The mode's name.
    pub fn to_str(&self) -> (s: &str)
        ensures
            s@ == self.name(),
    {
        match self {
            Optimization::Off => "none",
            Optimization::Forward => "forward",
            Optimization::Backward => "backward",
            Optimization::Both => "both",
        }
    }

    /// The mode called `name`, if there is one.
    pub fn from_name(name: &str) -> (o: Option<Optimization>)
        ensures
            match o {
                Some(o) => o.name() == name@,
                None => forall|m: Optimization| m.name() != name@,
            },
    {
        if str_eq(name, "none") {
            Some(Optimization::Off)
        } else if str_eq(name, "forward") {
            Some(Optimization::Forward)
        } else if str_eq(name, "backward") {
            Some(Optimization::Backward)
        } else if str_eq(name, "both") {
            Some(Optimization::Both)
        } else {
            None
        }
    }
}

/// Distinct modes have distinct names, so reading back the name that
/// `to_str` gives yields the same mode.
pub proof fn lemma_optimization_names_distinct(a: Optimization, b: Optimization)
    requires
        a.name() == b.name(),
    ensures
        a == b,
{
    reveal_strlit("none");
    reveal_strlit("forward");
    reveal_strlit("backward");
    reveal_strlit("both");
    assert("none"@ =~= seq!['n', 'o', 'n', 'e']);
    assert("forward"@ =~= seq!['f', 'o', 'r', 'w', 'a', 'r', 'd']);
    assert("backward"@ =~= seq!['b', 'a', 'c', 'k', 'w', 'a', 'r', 'd']);
    assert("both"@ =~= seq!['b', 'o', 't', 'h']);
    if a != b {
        assert(a.name()[0] != b.name()[0] || a.name().len() != b.name().len());
    }
}

/// Distinct filters have distinct names, so reading back the name that
/// `to_str` gives yields the same filter.
pub proof fn lemma_filter_names_distinct(a: Filter, b: Filter)
    requires
        a.name() == b.name(),
    ensures
        a == b,
{
    reveal_strlit("nearest");
    reveal_strlit("linear");
    reveal_strlit("cubic");
    reveal_strlit("gaussian");
    reveal_strlit("lanczos3");
    assert("nearest"@ =~= seq!['n', 'e', 'a', 'r', 'e', 's', 't']);
    assert("linear"@ =~= seq!['l', 'i', 'n', 'e', 'a', 'r']);
    assert("cubic"@ =~= seq!['c', 'u', 'b', 'i', 'c']);
    assert("gaussian"@ =~= seq!['g', 'a', 'u', 's', 's', 'i', 'a', 'n']);
    assert("lanczos3"@ =~= seq!['l', 'a', 'n', 'c', 'z', 'o', 's', '3']);
    if a != b {
        assert(a.name()[0] != b.name()[0] || a.name().len() != b.name().len());
    }
}

impl Filter {
    /// The filter's name on the command line and in reports.
    pub open spec fn name(self) -> Seq<char> {
        match self {
            Filter::Nearest => "nearest"@,
            Filter::Linear => "linear"@,
            Filter::Cubic => "cubic"@,
            Filter::Gaussian => "gaussian"@,
            Filter::Lanczos3 => "lanczos3"@,
        }
    }

    /// The filter's name.
    pub fn to_str(&self) -> (s: &str)
        ensures
            s@ == self.name(),
    {
        match self {
            Filter::Nearest => "nearest",
            Filter::Linear => "linear",
            Filter::Cubic => "cubic",
            Filter::Gaussian => "gaussian",
            Filter::Lanczos3 => "lanczos3",
        }
    }

    /// The filter called `name`, if there is one.
    pub fn from_name(name: &str) -> (f: Option<Filter>)
        ensures
            match f {
                Some(f) => f.name() == name@,
                None => forall|g: Filter| g.name() != name@,
            },
    {
        if str_eq(name, "nearest") {
            Some(Filter::Nearest)
        } else if str_eq(name, "linear") {
            Some(Filter::Linear)
        } else if str_eq(name, "cubic") {
            Some(Filter::Cubic)
        } else if str_eq(name, "gaussian") {
            Some(Filter::Gaussian)
        } else if str_eq(name, "lanczos3") {
            Some(Filter::Lanczos3)
        } else {
            None
        }
    }
}

impl Video {
    /// A video with no frames loaded yet and a size of zero.
    pub fn new(
        name: String,
        quiet: bool,
        skip_extract: bool,
        optimization: Optimization,
        filter: Filter,
        color_precision: u8,
        max_pixels: u32,
    ) -> (v: Video)
        ensures
            v.name@ == name@,
            v.frames@.len() == 0,
            v.frame_count == 0,
            v.width == 0,
            v.height == 0,
            v.quiet == quiet,
            v.skip_extract == skip_extract,
            v.optimization == optimization,
            v.filter == filter,
            v.color_precision == color_precision,
            v.max_pixels == max_pixels,
    {
        Video {
            name,
            frames: Vec::new(),
            frame_count: 0,
            width: 0,
            height: 0,
            quiet,
            skip_extract,
            optimization,
            filter,
            color_precision,
            max_pixels,
        }
    }

    /// The name of a file derived from the video: its stem, then
    /// `.extension` unless the extension is empty.
    pub fn file_name(&self, extension: &str) -> (f: String)
        ensures
            f@ == if extension@.len() == 0 {
                self.name@
            } else {
                self.name@ + "."@ + extension@
            },
    {
        let mut name = self.name.as_str().to_owned();
        if !extension.is_empty() {
            name.append(".");
            name.append(extension);
        }
        name
    }

    /// The `ffmpeg` output pattern for the extracted frames: the stem
    /// followed by a six-digit frame number and `.png`.
    pub fn frame_pattern(&self) -> (p: String)
        ensures
            p@ == self.name@ + ".%6d.png"@,
    {
        let mut pattern = self.name.as_str().to_owned();
        pattern.append(".%6d.png");
        pattern
    }
}

} // verus!
