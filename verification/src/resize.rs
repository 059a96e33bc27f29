//! Bringing an image to a given height or width.
//!
//! An image that has the wanted side already is handed back as it is. Any
//! other is resampled with a Lanczos filter of window 3 to the wanted side
//! and the side that the aspect ratio gives (see [`crate::scale`]).

use vstd::prelude::*;
use crate::raster::{byte_count, byte_len, max_buffer_bytes, Raster, RasterData};
use crate::scale::{scaled_dimension, scaled_side};

verus! {

/// The bytes that resampling with the Lanczos filter of window 3 gives: those
/// of a raster of `new_width` by `new_height` pixels, made from the raster of
/// `width` by `height` pixels that holds `pixels`.
pub uninterp spec fn lanczos3_pixels(
    pixels: Seq<u8>,
    width: nat,
    height: nat,
    new_width: nat,
    new_height: nat,
) -> Seq<u8>;

/// Whether the buffers that resampling needs can be had: one of four floats to
/// the pixel, as wide as the source and as high as the result, and the result.
pub open spec fn resample_fits(width: nat, new_width: nat, new_height: nat) -> bool {
    &&& 4 * byte_count(width, new_height) <= max_buffer_bytes()
    &&& byte_count(new_width, new_height) <= max_buffer_bytes()
}

/// Calls `image::imageops::resize` with `FilterType::Lanczos3` on the raster,
/// seen as an `ImageBuffer` of `Rgba<u8>` over its bytes. The result has the
/// size that was asked for, whatever the source's size, and four bytes to the
/// pixel; which bytes they are is a matter of the filter, and is named, not
/// stated. The function allocates a buffer of floats as wide as the source and
/// as high as the result, and the result: `requires` keeps both within what a
/// buffer can hold, beyond which the allocation panics.
#[verifier::external_body]
fn resample(image: &Raster, new_width: u32, new_height: u32) -> (r: Raster)
    requires
        image@.wf(),
        resample_fits(image@.width, new_width as nat, new_height as nat),
    ensures
        r@.wf(),
        r@.width == new_width,
        r@.height == new_height,
        r@.pixels == lanczos3_pixels(
            image@.pixels,
            image@.width,
            image@.height,
            new_width as nat,
            new_height as nat,
        ),
{
    let source = image::ImageBuffer::<image::Rgba<u8>, &[u8]>::from_raw(
        image.width,
        image.height,
        image.data.as_slice(),
    ).unwrap();
    let resized = image::imageops::resize(
        &source,
        new_width,
        new_height,
        image::imageops::FilterType::Lanczos3,
    );
    Raster { width: resized.width(), height: resized.height(), data: resized.into_raw() }
}

/// What resampling `image` to the given size gives.
pub open spec fn resampled(image: RasterData, new_width: nat, new_height: nat) -> RasterData {
    RasterData {
        width: new_width,
        height: new_height,
        pixels: lanczos3_pixels(image.pixels, image.width, image.height, new_width, new_height),
    }
}

/// The width that `image` has once it is brought to the height `target`.
pub open spec fn width_at_height(image: RasterData, target: u32) -> u32 {
    if image.height == target {
        image.width as u32
    } else {
        scaled_side(target, image.width as u32, image.height as u32)
    }
}

/// The height that `image` has once it is brought to the width `target`.
pub open spec fn height_at_width(image: RasterData, target: u32) -> u32 {
    if image.width == target {
        image.height as u32
    } else {
        scaled_side(target, image.height as u32, image.width as u32)
    }
}

/// `image` brought to the height `target`.
pub open spec fn resized_to_height(image: RasterData, target: u32) -> RasterData {
    if image.height == target {
        image
    } else {
        resampled(image, width_at_height(image, target) as nat, target as nat)
    }
}

/// `image` brought to the width `target`.
pub open spec fn resized_to_width(image: RasterData, target: u32) -> RasterData {
    if image.width == target {
        image
    } else {
        resampled(image, target as nat, height_at_width(image, target) as nat)
    }
}

/// Whether `image` can be brought to the height `target`: it has that height,
/// or the buffers for resampling can be had.
pub open spec fn fits_at_height(image: RasterData, target: u32) -> bool {
    image.height == target || resample_fits(
        image.width,
        width_at_height(image, target) as nat,
        target as nat,
    )
}

/// Whether `image` can be brought to the width `target`.
pub open spec fn fits_at_width(image: RasterData, target: u32) -> bool {
    image.width == target || resample_fits(
        image.width,
        target as nat,
        height_at_width(image, target) as nat,
    )
}

/// Whether the buffers for resampling a raster that is `width` pixels wide to
/// the given size can be had.
pub fn can_resample(width: u32, new_width: u32, new_height: u32) -> (r: bool)
    ensures
        r == resample_fits(width as nat, new_width as nat, new_height as nat),
{
    assert(width * new_height <= 0xffff_ffff * 0xffff_ffff) by (nonlinear_arith)
        requires
            0 <= width <= 0xffff_ffff,
            0 <= new_height <= 0xffff_ffff,
    ;
    let floats: u128 = (width as u128) * (new_height as u128) * 4 * 4;
    floats <= isize::MAX as u128 && byte_len(new_width, new_height).is_some()
}

/// Brings `image` to the height `target_height`, the width following the
/// aspect ratio. An image of that height comes back unchanged.
pub fn resize_to_height(image: &Raster, target_height: u32) -> (r: Raster)
    requires
        image@.wf(),
        fits_at_height(image@, target_height),
    ensures
        r@ == resized_to_height(image@, target_height),
        image@.height == target_height ==> r@ == image@,
        r@.wf(),
        r@.height == target_height,
        r@.width == width_at_height(image@, target_height),
{
    if image.height() == target_height {
        return image.clone();
    }
    let target_width = scaled_dimension(target_height, image.width(), image.height());
    resample(image, target_width, target_height)
}

/// Brings `image` to the width `target_width`, the height following the
/// aspect ratio. An image of that width comes back unchanged.
pub fn resize_to_width(image: &Raster, target_width: u32) -> (r: Raster)
    requires
        image@.wf(),
        fits_at_width(image@, target_width),
    ensures
        r@ == resized_to_width(image@, target_width),
        image@.width == target_width ==> r@ == image@,
        r@.wf(),
        r@.width == target_width,
        r@.height == height_at_width(image@, target_width),
{
    if image.width() == target_width {
        return image.clone();
    }
    let target_height = scaled_dimension(target_width, image.height(), image.width());
    resample(image, target_width, target_height)
}

} // verus!
