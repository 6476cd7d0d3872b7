//! The layout of an image that is written out.

use vstd::prelude::*;

verus! {

/// The number of rows of an image of the given width that a buffer of
/// `pixels` pixels fills.
pub fn image_height(pixels: usize, image_width: u32) -> (r: u32)
    requires
        image_width > 0,
        pixels / (image_width as usize) <= u32::MAX,
    ensures
        r == pixels / (image_width as usize),
{
    (pixels / (image_width as usize)) as u32
}

/// The place in the buffer of the pixel in column `x` of row `y`, the rows
/// counted from the top.
pub fn pixel_index(x: u32, y: u32, image_width: u32) -> (r: usize)
    requires
        y * image_width + x <= usize::MAX,
    ensures
        r == y * image_width + x,
{
    assert(y * image_width >= 0) by (nonlinear_arith);
    y as usize * image_width as usize + x as usize
}

} // verus!
