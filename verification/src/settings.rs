use vstd::prelude::*;

use crate::data::{Filter, Optimization};

verus! {

/// Optimisation used when none is asked for.
pub const DEFAULT_OPTIMIZATION: Optimization = Optimization::Forward;

/// Filter used when none is asked for.
pub const DEFAULT_FILTER: Filter = Filter::Linear;

/// Colour precision used when none, or one outside `1..=8`, is asked for.
pub const DEFAULT_COLOR_PRECISION: u8 = 6;

/// Pixel budget of a scaled frame when none is asked for.
pub const DEFAULT_PIXELS: u32 = 999;

/// The optimisation asked for by name, the default when none is asked
/// for, and `None` for a name that no mode has.
pub fn choose_optimization(arg: Option<&str>) -> (o: Option<Optimization>)
    ensures
        match arg {
            None => o == Some(DEFAULT_OPTIMIZATION),
            Some(name) => match o {
                Some(m) => m.name() == name@,
                None => forall|m: Optimization| m.name() != name@,
            },
        },
{
    match arg {
        None => Some(DEFAULT_OPTIMIZATION),
        Some(name) => Optimization::from_name(name),
    }
}

/// The filter asked for by name, the default when none is asked for, and
/// `None` for a name that no filter has.
pub fn choose_filter(arg: Option<&str>) -> (f: Option<Filter>)
    ensures
        match arg {
            None => f == Some(DEFAULT_FILTER),
            Some(name) => match f {
                Some(g) => g.name() == name@,
                None => forall|g: Filter| g.name() != name@,
            },
        },
{
    match arg {
        None => Some(DEFAULT_FILTER),
        Some(name) => Filter::from_name(name),
    }
}

/// The colour precision asked for if it lies in `1..=8`, else the default.
pub fn choose_color_precision(bits: Option<u8>) -> (b: u8)
    ensures
        b == match bits {
            Some(v) => if 1 <= v <= 8 {
                v
            } else {
                DEFAULT_COLOR_PRECISION
            },
            None => DEFAULT_COLOR_PRECISION,
        },
        1 <= b <= 8,
{
    match bits {
        Some(v) => if 1 <= v && v <= 8 {
            v
        } else {
            DEFAULT_COLOR_PRECISION
        },
        None => DEFAULT_COLOR_PRECISION,
    }
}

/// The pixel budget asked for, else the default.
pub fn choose_max_pixels(pixels: Option<u32>) -> (p: u32)
    ensures
        p == match pixels {
            Some(v) => v,
            None => DEFAULT_PIXELS,
        },
{
    match pixels {
        Some(v) => v,
        None => DEFAULT_PIXELS,
    }
}

} // verus!
