use vstd::prelude::*;
use crossterm::style::Color;
use crate::color::rgb_color;

verus! {

/// A decoded bitmap image.
#[verifier::external_type_specification]
#[verifier::external_body]
pub struct ExImage(bmp::Image);

/// The width and height of a decoded bitmap, in pixels.
pub uninterp spec fn bmp_size(img: bmp::Image) -> (u32, u32);

/// The pixels of a decoded bitmap: the `(r, g, b)` value at each `(x, y)`,
/// with `(0, 0)` the upper left corner.
pub uninterp spec fn bmp_pixels(img: bmp::Image) -> Map<(int, int), (u8, u8, u8)>;

/// The color of the image pixel at offset `(dx, dy)`.
pub open spec fn image_paint(img: bmp::Image) -> spec_fn(int, int) -> Color {
    |dx: int, dy: int| rgb_color(bmp_pixels(img)[(dx, dy)])
}

/// Relies on `bmp::Image::get_width`: the image's width.
#[verifier::external_body]
pub(crate) fn image_width(img: &bmp::Image) -> (w: u32)
    ensures
        w == bmp_size(*img).0,
{
    img.get_width()
}

/// Relies on `bmp::Image::get_height`: the image's height.
#[verifier::external_body]
pub(crate) fn image_height(img: &bmp::Image) -> (h: u32)
    ensures
        h == bmp_size(*img).1,
{
    img.get_height()
}

/// Relies on `bmp::Image::get_pixel`: the pixel at `(x, y)`, which lies
/// inside the image.
#[verifier::external_body]
pub(crate) fn image_pixel(img: &bmp::Image, x: u32, y: u32) -> (p: (u8, u8, u8))
    requires
        x < bmp_size(*img).0,
        y < bmp_size(*img).1,
    ensures
        p == bmp_pixels(*img)[(x as int, y as int)],
{
    let px = img.get_pixel(x, y);
    (px.r, px.g, px.b)
}

} // verus!
