use vstd::prelude::*;

use image::imageops::FilterType;
use image::{ImageBuffer, Rgb};

use crate::data::{lemma_filter_names_distinct, Filter, PixelUpdate, Video};
use crate::process::spec_frame_updates;

verus! {

#[verifier::external_type_specification]
#[verifier::external_body]
pub struct ExFilterType(FilterType);

/// The packed RGB bytes that `image::imageops::resize` produces when it
/// resamples a `width` x `height` RGB image to `new_width` x `new_height`
/// with the `FilterType` variant numbered `filter` (see
/// `filter_type_variant`). Only `Nearest` (0) and `Triangle` (1) are named
/// by it: their kernels use plain IEEE arithmetic, while the others call
/// `powi`, `exp` or `sin`, whose precision std leaves unspecified.
pub uninterp spec fn resized_rgb(
    pixels: Seq<u8>,
    width: u32,
    height: u32,
    new_width: u32,
    new_height: u32,
    filter: u8,
) -> Seq<u8>;

/// Holds when `resized` is a result that `image::imageops::resize` gives
/// when it resamples the `width` x `height` RGB image `pixels` to
/// `new_width` x `new_height` with the `FilterType` variant numbered
/// `filter`. It is a relation: for filters whose kernels call `powi`, `exp`
/// or `sin` it claims no single outcome, only which call made the bytes.
pub uninterp spec fn resized_with(
    pixels: Seq<u8>,
    width: u32,
    height: u32,
    new_width: u32,
    new_height: u32,
    filter: u8,
    resized: Seq<u8>,
) -> bool;

/// Which variant of `image::imageops::FilterType` a value is, by its
/// position in the enum's declaration: `Nearest` 0, `Triangle` 1,
/// `CatmullRom` 2, `Gaussian` 3, `Lanczos3` 4.
pub uninterp spec fn filter_type_variant(filter: FilterType) -> u8;

/// `FilterType::Nearest` of `image`: claimed to be the variant declared first.
#[verifier::external_body]
fn nearest_filter_type() -> (filter: FilterType)
    ensures
        filter_type_variant(filter) == 0,
{
    FilterType::Nearest
}

/// `FilterType::Triangle` of `image`: claimed to be the variant declared second.
#[verifier::external_body]
fn triangle_filter_type() -> (filter: FilterType)
    ensures
        filter_type_variant(filter) == 1,
{
    FilterType::Triangle
}

/// `FilterType::CatmullRom` of `image`: claimed to be the variant declared third.
#[verifier::external_body]
fn catmull_rom_filter_type() -> (filter: FilterType)
    ensures
        filter_type_variant(filter) == 2,
{
    FilterType::CatmullRom
}

/// `FilterType::Gaussian` of `image`: claimed to be the variant declared fourth.
#[verifier::external_body]
fn gaussian_filter_type() -> (filter: FilterType)
    ensures
        filter_type_variant(filter) == 3,
{
    FilterType::Gaussian
}

/// `FilterType::Lanczos3` of `image`: claimed to be the variant declared fifth.
#[verifier::external_body]
fn lanczos3_filter_type() -> (filter: FilterType)
    ensures
        filter_type_variant(filter) == 4,
{
    FilterType::Lanczos3
}

/// Resamples packed RGB bytes with `image::imageops::resize`.
///
/// Claimed of the outside function: its result is one that the call makes
/// with that filter (`resized_with`), it holds `new_width * new_height`
/// pixels, it is an exact copy when the size does not change (the source
/// takes that path before any sampling), and with the `Nearest` or
/// `Triangle` filter it is a function of the arguments (named by
/// `resized_rgb`). With the other filters the sampled colours depend on
/// transcendental `f32` functions whose precision may differ between
/// platforms and builds, so no single outcome is named for them. The
/// `requires` rule out the inputs on which the outside code panics: a
/// buffer that does not match the size, an empty source, and buffer sizes
/// that overflow `usize` (the intermediate image holds four `f32`
/// channels).
#[verifier::external_body]
fn resize_rgb(
    pixels: Vec<u8>,
    width: u32,
    height: u32,
    new_width: u32,
    new_height: u32,
    filter: FilterType,
) -> (resized: Vec<u8>)
    requires
        pixels@.len() == width * height * 3,
        width > 0,
        height > 0,
        (new_width != width || new_height != height) ==> width * new_height * 4 <= usize::MAX,
        new_width * new_height * 3 <= usize::MAX,
    ensures
        resized_with(
            pixels@,
            width,
            height,
            new_width,
            new_height,
            filter_type_variant(filter),
            resized@,
        ),
        filter_type_variant(filter) <= 1 ==> resized@ == resized_rgb(
            pixels@,
            width,
            height,
            new_width,
            new_height,
            filter_type_variant(filter),
        ),
        resized@.len() == new_width * new_height * 3,
        (new_width == width && new_height == height) ==> resized@ == pixels@,
{
    let source: ImageBuffer<Rgb<u8>, Vec<u8>> = ImageBuffer::from_raw(width, height, pixels).unwrap();
    image::imageops::resize(&source, new_width, new_height, filter).into_raw()
}

impl Filter {
    /// The variant of `image`'s `FilterType` that this setting selects:
    /// nearest is `Nearest`, linear is `Triangle`, cubic is `CatmullRom`,
    /// gaussian is `Gaussian` and lanczos3 is `Lanczos3`.
    pub open spec fn image_filter_variant(self) -> u8 {
        match self {
            Filter::Nearest => 0,
            Filter::Linear => 1,
            Filter::Cubic => 2,
            Filter::Gaussian => 3,
            Filter::Lanczos3 => 4,
        }
    }

    /// The `image` resampling filter of this setting.
    pub fn to_filter_type(&self) -> (filter: FilterType)
        ensures
            filter_type_variant(filter) == self.image_filter_variant(),
    {
        match self {
            Filter::Nearest => nearest_filter_type(),
            Filter::Linear => triangle_filter_type(),
            Filter::Cubic => catmull_rom_filter_type(),
            Filter::Gaussian => gaussian_filter_type(),
            Filter::Lanczos3 => lanczos3_filter_type(),
        }
    }
}

/// Each filter name on the command line selects the `image` filter of the
/// same kind: `nearest` gives `Nearest`, `linear` `Triangle`, `cubic`
/// `CatmullRom`, `gaussian` `Gaussian` and `lanczos3` `Lanczos3` (by their
/// position in `FilterType`, as `filter_type_variant` numbers them).
pub proof fn lemma_filter_names_select_image_filters(f: Filter)
    ensures
        f.name() == "nearest"@ ==> f.image_filter_variant() == 0,
        f.name() == "linear"@ ==> f.image_filter_variant() == 1,
        f.name() == "cubic"@ ==> f.image_filter_variant() == 2,
        f.name() == "gaussian"@ ==> f.image_filter_variant() == 3,
        f.name() == "lanczos3"@ ==> f.image_filter_variant() == 4,
{
    if f.name() == "nearest"@ {
        lemma_filter_names_distinct(f, Filter::Nearest);
    }
    if f.name() == "linear"@ {
        lemma_filter_names_distinct(f, Filter::Linear);
    }
    if f.name() == "cubic"@ {
        lemma_filter_names_distinct(f, Filter::Cubic);
    }
    if f.name() == "gaussian"@ {
        lemma_filter_names_distinct(f, Filter::Gaussian);
    }
    if f.name() == "lanczos3"@ {
        lemma_filter_names_distinct(f, Filter::Lanczos3);
    }
}

impl Video {
    /// Scales one decoded frame (packed RGB bytes, `source_width` x
    /// `source_height`) to the video's size with its filter (handed to the
    /// scaler as `self.filter.to_filter_type()`), then turns it
    /// into pixel updates: one per pixel of the scaled frame, in row-major
    /// order, quantised to the video's precision. The size handed to the
    /// scaler is the video's size cut to 32 bits.
    pub fn process_frame(&self, rgb: Vec<u8>, source_width: u32, source_height: u32) -> (updates: Vec<
        PixelUpdate,
    >)
        requires
            self.color_precision <= 8,
            rgb@.len() == source_width * source_height * 3,
            source_width > 0,
            source_height > 0,
            (self.width as u32 != source_width || self.height as u32 != source_height)
                ==> source_width * (self.height as u32) * 4 <= usize::MAX,
            (self.width as u32) * (self.height as u32) * 3 <= usize::MAX,
        ensures
            exists|resized: Seq<u8>|
                #![trigger spec_frame_updates(resized, self.width as int, self.color_precision)]
                {
                    &&& resized.len() == (self.width as u32) * (self.height as u32) * 3
                    &&& resized_with(
                        rgb@,
                        source_width,
                        source_height,
                        self.width as u32,
                        self.height as u32,
                        self.filter.image_filter_variant(),
                        resized,
                    )
                    &&& updates@ == spec_frame_updates(
                        resized,
                        self.width as int,
                        self.color_precision,
                    )
                    &&& self.filter.image_filter_variant() <= 1 ==> resized == resized_rgb(
                        rgb@,
                        source_width,
                        source_height,
                        self.width as u32,
                        self.height as u32,
                        self.filter.image_filter_variant(),
                    )
                },
            updates@.len() == (self.width as u32) * (self.height as u32),
            (self.width as u32 == source_width && self.height as u32 == source_height) ==> updates@
                == spec_frame_updates(rgb@, self.width as int, self.color_precision),
    {
        let target_width = self.width as u32;
        let target_height = self.height as u32;
        let filter = self.filter.to_filter_type();
        let resized = resize_rgb(rgb, source_width, source_height, target_width, target_height, filter);
        assert(resized@.len() % 3 == 0 && resized@.len() / 3 == target_width * target_height)
            by (nonlinear_arith)
            requires
                resized@.len() == target_width * target_height * 3,
        ;
        if resized.len() > 0 {
            assert(target_width > 0) by (nonlinear_arith)
                requires
                    resized@.len() == target_width * target_height * 3,
                    resized@.len() > 0,
            ;
            let w = self.width;
            assert(w == 0 ==> w as u32 == 0) by (bit_vector);
        }
        let updates = self.frame_updates(&resized);
        assert(updates@ == spec_frame_updates(resized@, self.width as int, self.color_precision));
        updates
    }
}

} // verus!
