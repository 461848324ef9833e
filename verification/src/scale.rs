//! Downscaling of the target image before optimisation.
//!
//! The dimensions of the scaled image are computed here; the resampling
//! itself is `image::imageops::resize` with the Lanczos3 filter.
use vstd::prelude::*;

use image::imageops::{resize, FilterType};
use image::{ImageBuffer, Rgb};

verus! {

/// Resamples a packed RGB buffer with `image::imageops::resize` and the
/// Lanczos3 filter.  The result holds `3 * new_width * new_height` bytes:
/// `resize` builds its output with `ImageBuffer::new(new_width, new_height)`,
/// or with `buffer_with_dimensions` when the input is empty.  Its bytes are
/// left unsaid: the filter's kernel calls `f32::sin`, whose precision std
/// does not fix, so they need not be the same on every machine.  The requirements keep
/// `ImageBuffer::from_raw` from refusing the buffer and the allocations of
/// the intermediate `Rgba32FImage` (`width` x `new_height`, four `f32` each)
/// and of the output within `isize::MAX` bytes.
#[verifier::external_body]
fn lanczos3_resize(
    pixels: Vec<u8>,
    width: u32,
    height: u32,
    new_width: u32,
    new_height: u32,
) -> (out: Vec<u8>)
    requires
        pixels.len() >= 3 * width * height,
        16 * width * new_height <= isize::MAX,
        3 * new_width * new_height <= isize::MAX,
    ensures
        out.len() == 3 * new_width * new_height,
{
    let img = ImageBuffer::<Rgb<u8>, Vec<u8>>::from_raw(width, height, pixels).unwrap();
    resize(&img, new_width, new_height, FilterType::Lanczos3).into_raw()
}

/// Whether an image of `width` x `height` must be scaled down to fit within
/// `max_dim` on its longer side.
pub open spec fn needs_scaling(width: u32, height: u32, max_dim: u32) -> bool {
    width > max_dim || height > max_dim
}

/// The size an image is scaled to: the longer side becomes `max_dim`, the
/// shorter one keeps the aspect ratio, rounded down but at least one pixel.
pub open spec fn scaled_dimensions(width: u32, height: u32, max_dim: u32) -> (u32, u32) {
    if width >= height {
        let h = height * max_dim / (width as int);
        (max_dim, if h >= 1 { h as u32 } else { 1u32 })
    } else {
        let w = width * max_dim / (height as int);
        (if w >= 1 { w as u32 } else { 1u32 }, max_dim)
    }
}

proof fn lemma_scaled_side_fits(short: u32, long: u32, max_dim: u32)
    by (nonlinear_arith)
    requires
        short <= long,
        max_dim < long,
    ensures
        short * max_dim / (long as int) <= max_dim,
        short * max_dim / (long as int) <= short,
        0 <= short * max_dim / (long as int),
        short * max_dim <= u64::MAX,
{
}

/// The size `scale_image` gives an image of `width` x `height` that does not
/// fit within `max_dim`.
pub fn scaled_size(width: u32, height: u32, max_dim: u32) -> (r: (u32, u32))
    requires
        needs_scaling(width, height, max_dim),
    ensures
        r == scaled_dimensions(width, height, max_dim),
{
    if width >= height {
        proof {
            lemma_scaled_side_fits(height, width, max_dim);
        }
        let h: u64 = (height as u64) * (max_dim as u64) / (width as u64);
        let h: u64 = if h >= 1 { h } else { 1 };
        (max_dim, h as u32)
    } else {
        proof {
            lemma_scaled_side_fits(width, height, max_dim);
        }
        let w: u64 = (width as u64) * (max_dim as u64) / (height as u64);
        let w: u64 = if w >= 1 { w } else { 1 };
        (w as u32, max_dim)
    }
}

proof fn lemma_scaled_allocations_fit(width: u32, height: u32, max_dim: u32)
    requires
        needs_scaling(width, height, max_dim),
        16 * (width + 1) * (height + 1) <= isize::MAX,
    ensures
        ({
            let (nw, nh) = scaled_dimensions(width, height, max_dim);
            &&& 16 * width * nh <= isize::MAX
            &&& 3 * nw * nh <= isize::MAX
        }),
{
    let (nw, nh) = scaled_dimensions(width, height, max_dim);
    if width >= height {
        lemma_scaled_side_fits(height, width, max_dim);
        assert(nw <= width && nh <= height + 1);
    } else {
        lemma_scaled_side_fits(width, height, max_dim);
        assert(nh <= height && nw <= width + 1);
    }
    assert(16 * width * nh <= 16 * (width + 1) * (height + 1)) by (nonlinear_arith)
        requires
            nh <= height + 1,
    ;
    assert(3 * nw * nh <= 16 * (width + 1) * (height + 1)) by (nonlinear_arith)
        requires
            nw <= width + 1,
            nh <= height + 1,
    ;
}

/// Scales a packed RGB image down so that its longer side is at most
/// `max_dim`, keeping the aspect ratio; an image that already fits comes back
/// unchanged.  Returns the pixels and the new width and height.
///
/// An image to be scaled must hold at least `3 * width * height` bytes, and
/// its resampling buffers must be allocatable.  The resampled bytes are
/// those of the image crate's Lanczos3 filter and are not stated here.
pub fn scale_image(pixels: Vec<u8>, width: u32, height: u32, max_dim: u32) -> (r: (
    Vec<u8>,
    u32,
    u32,
))
    requires
        needs_scaling(width, height, max_dim) ==> pixels.len() >= 3 * width * height,
        needs_scaling(width, height, max_dim) ==> 16 * (width + 1) * (height + 1) <= isize::MAX,
    ensures
        !needs_scaling(width, height, max_dim) ==> r.0@ == pixels@ && r.1 == width && r.2
            == height,
        needs_scaling(width, height, max_dim) ==> {
            &&& (r.1, r.2) == scaled_dimensions(width, height, max_dim)
            &&& r.0.len() == 3 * r.1 * r.2
        },
{
    if width <= max_dim && height <= max_dim {
        return (pixels, width, height);
    }
    let (new_w, new_h) = scaled_size(width, height, max_dim);
    proof {
        lemma_scaled_allocations_fit(width, height, max_dim);
    }
    let out = lanczos3_resize(pixels, width, height, new_w, new_h);
    (out, new_w, new_h)
}

} // verus!
