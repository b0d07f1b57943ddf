//! Bringing a page to the resolution that was asked for.

use crate::codec::resample;
use crate::config::Config;
use crate::error::Error;
use crate::raster::Raster;
use crate::raster::RasterView;
use vstd::prelude::*;

verus! {

/// The dimension that keeps the proportions of a page: `other` times
/// `target / source`, rounded toward zero and never above `u32::MAX`. Of a
/// page without extent along `source` it is the largest value, or zero when
/// `other` is zero as well.
pub open spec fn scaled(other: nat, target: nat, source: nat) -> nat {
    if source == 0 {
        if other == 0 {
            0
        } else {
            u32::MAX as nat
        }
    } else if other * target / source <= u32::MAX {
        other * target / source
    } else {
        u32::MAX as nat
    }
}

/// The size `(width, height)` that a page of `width` by `height` pixels is
/// brought to. No resolution, or one of two zeros, leaves the page alone. A
/// single zero stands for the dimension that keeps the proportions.
pub open spec fn target_size(width: nat, height: nat, resolution: Option<[u32; 2]>) -> Option<
    (nat, nat),
> {
    match resolution {
        None => None,
        Some(wanted) => if wanted[0] == 0 && wanted[1] == 0 {
            None
        } else if wanted[0] == 0 {
            Some((scaled(width, wanted[1] as nat, height), wanted[1] as nat))
        } else if wanted[1] == 0 {
            Some((wanted[0] as nat, scaled(height, wanted[0] as nat, width)))
        } else {
            Some((wanted[0] as nat, wanted[1] as nat))
        },
    }
}

/// The buffers that resampling fills can be addressed: the one of
/// `image.width` by `height` pixels and the one of `width` by `height`
/// pixels, four samples to the pixel, and a single row of `width` pixels.
pub open spec fn fits(image: RasterView, resolution: Option<[u32; 2]>) -> bool {
    match target_size(image.width, image.height, resolution) {
        None => true,
        Some((width, height)) => 4 * width <= usize::MAX && 4 * image.width * height
            <= usize::MAX && 4 * width * height <= usize::MAX,
    }
}

/// What resizing makes of a page: the page itself where no size is asked
/// for, else a page of exactly the size asked for.
pub open spec fn is_resized(
    before: RasterView,
    resolution: Option<[u32; 2]>,
    after: RasterView,
) -> bool {
    match target_size(before.width, before.height, resolution) {
        None => after == before,
        Some((width, height)) => after.width == width && after.height == height
            && after.well_formed(),
    }
}

/// The dimension that keeps the proportions of a page.
pub fn scale(other: u32, target: u32, source: u32) -> (dimension: u32)
    ensures
        dimension == scaled(other as nat, target as nat, source as nat),
{
    if source == 0 {
        if other == 0 {
            0
        } else {
            u32::MAX
        }
    } else {
        assert(other * target <= 0xffff_ffff * 0xffff_ffff) by (nonlinear_arith)
            requires
                0 <= other <= 0xffff_ffff,
                0 <= target <= 0xffff_ffff,
        ;
        let exact: u64 = (other as u64) * (target as u64) / (source as u64);
        if exact <= u32::MAX as u64 {
            exact as u32
        } else {
            u32::MAX
        }
    }
}

/// The size that an image of `width` by `height` pixels is brought to.
pub fn wanted_size(width: u32, height: u32, resolution: Option<[u32; 2]>) -> (size: Option<
    (u32, u32),
>)
    ensures
        match size {
            None => target_size(width as nat, height as nat, resolution) is None,
            Some((w, h)) => target_size(width as nat, height as nat, resolution) == Some(
                (w as nat, h as nat),
            ),
        },
{
    match resolution {
        None => None,
        Some(wanted) => {
            let w = wanted[0];
            let h = wanted[1];
            if w == 0 && h == 0 {
                None
            } else if w == 0 {
                Some((scale(width, h, height), h))
            } else if h == 0 {
                Some((w, scale(height, w, width)))
            } else {
                Some((w, h))
            }
        },
    }
}

/// Whether a buffer of `width` by `height` pixels can be addressed.
fn addressable(width: u32, height: u32) -> (can: bool)
    ensures
        can == (4 * (width as nat) * (height as nat) <= usize::MAX),
{
    assert(width as nat * height as nat <= 0xffff_ffff * 0xffff_ffff) by (nonlinear_arith)
        requires
            width as nat <= 0xffff_ffff,
            height as nat <= 0xffff_ffff,
    ;
    assert(4 * (width as nat) * (height as nat) == 4 * (width as nat * height as nat))
        by (nonlinear_arith);
    let pixels: u64 = (width as u64) * (height as u64);
    4 * (pixels as u128) <= usize::MAX as u128
}

/// Brings `image` to the resolution of `config`, resampling it with a
/// Lanczos filter of three lobes.
pub fn resize(image: &mut Raster, config: &Config)
    requires
        fits(old(image)@, config.resolution),
    ensures
        is_resized(old(image)@, config.resolution, final(image)@),
{
    if let Some((w, h)) = wanted_size(image.width(), image.height(), config.resolution) {
        proof {
            use_type_invariant(&*image);
        }
        *image = resample(image, w, h);
    }
}

/// Brings `image` to the resolution of `config` where the machine can
/// address the samples that this takes, and leaves it alone where not.
pub fn resize_checked(image: &mut Raster, config: &Config) -> (done: Result<(), Error>)
    ensures
        fits(old(image)@, config.resolution) ==> done is Ok && is_resized(
            old(image)@,
            config.resolution,
            final(image)@,
        ),
        !fits(old(image)@, config.resolution) ==> done == Err::<(), Error>(
            Error::ResolutionTooLarge,
        ) && final(image)@ == old(image)@,
{
    match wanted_size(image.width(), image.height(), config.resolution) {
        None => Ok(()),
        Some((w, h)) => {
            if addressable(w, 1) && addressable(image.width(), h) && addressable(w, h) {
                resize(image, config);
                Ok(())
            } else {
                Err(Error::ResolutionTooLarge)
            }
        },
    }
}

/// With a height alone asked for, the page gets exactly that height. Its
/// width is the one that keeps its proportions, rounded toward zero, where
/// the page has a height and that width fits in a `u32`.
pub proof fn lemma_height_alone(before: RasterView, height: u32, after: RasterView)
    requires
        height > 0,
        is_resized(before, Some([0u32, height]), after),
    ensures
        after.height == height,
        before.height > 0 && before.width * (height as nat) / before.height <= u32::MAX
            ==> after.width == before.width * (height as nat) / before.height,
{
}

/// With a width alone asked for, the page gets exactly that width. Its
/// height is the one that keeps its proportions, rounded toward zero, where
/// the page has a width and that height fits in a `u32`.
pub proof fn lemma_width_alone(before: RasterView, width: u32, after: RasterView)
    requires
        width > 0,
        is_resized(before, Some([width, 0u32]), after),
    ensures
        after.width == width,
        before.width > 0 && before.height * (width as nat) / before.width <= u32::MAX
            ==> after.height == before.height * (width as nat) / before.width,
{
}

/// With no resolution, or one of two zeros, the page stays as it is, pixel
/// for pixel.
pub proof fn lemma_nothing_asked(before: RasterView, after: RasterView)
    ensures
        is_resized(before, None, after) ==> after == before,
        is_resized(before, Some([0u32, 0u32]), after) ==> after == before,
{
}

} // verus!
