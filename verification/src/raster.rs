//! The raster images of the `image` crate, as this library sees them.
//!
//! An image is a collection of pixels: `rgba_pixels` names what an
//! `RgbaImage` holds (one RGBA quadruple per coordinate) and `rgba_dims` the
//! width and height it was made with. `dynamic_pixels` and `dynamic_dims` do
//! the same for a decoded `DynamicImage`, whose pixels are read as 8-bit RGBA,
//! as `GenericImageView::get_pixel` hands them out.

use vstd::prelude::*;
use image::{DynamicImage, RgbaImage};

verus! {

/// An RGBA image of the `image` crate (`RgbaImage`), carried whole: its
/// pixels are named by `rgba_pixels` and its dimensions by `rgba_dims`.
#[verifier::external_body]
#[derive(Debug)]
pub struct RgbaRaster(pub RgbaImage);

#[verifier::external_type_specification]
#[verifier::external_body]
pub struct ExDynamicImage(DynamicImage);

/// The pixels of an RGBA image, keyed by `(x, y)`.
pub uninterp spec fn rgba_pixels(img: RgbaRaster) -> Map<(int, int), (u8, u8, u8, u8)>;

/// The width and height of an RGBA image.
pub uninterp spec fn rgba_dims(img: RgbaRaster) -> (u32, u32);

/// The pixels of a decoded image, read as 8-bit RGBA and keyed by `(x, y)`.
pub uninterp spec fn dynamic_pixels(img: DynamicImage) -> Map<(int, int), (u8, u8, u8, u8)>;

/// The width and height of a decoded image.
pub uninterp spec fn dynamic_dims(img: DynamicImage) -> (u32, u32);

/// Whether `p` is a coordinate of a `width` x `height` grid.
pub open spec fn in_grid(p: (int, int), width: int, height: int) -> bool {
    0 <= p.0 < width && 0 <= p.1 < height
}

/// The coordinates of a `width` x `height` grid.
pub open spec fn grid(width: int, height: int) -> Set<(int, int)> {
    Set::new(|p: (int, int)| in_grid(p, width, height))
}

/// `ImageBuffer::new`: a `width` x `height` image whose pixels are all
/// zero (transparent black). It computes its byte length as `4 * width`,
/// then times `height`, and panics when either product overflows `usize`,
/// which `requires` leaves out.
#[verifier::external_body]
pub(crate) fn new_rgba_image(width: u32, height: u32) -> (img: RgbaRaster)
    requires
        4 * (width as int) <= usize::MAX,
        4 * (width as int) * (height as int) <= usize::MAX,
    ensures
        rgba_dims(img) == (width, height),
        rgba_pixels(img).dom() == grid(width as int, height as int),
        forall|p: (int, int)| #[trigger] rgba_pixels(img).contains_key(p) ==> rgba_pixels(img)[p] == (0u8, 0u8, 0u8, 0u8),
{
    RgbaRaster(RgbaImage::new(width, height))
}

/// `ImageBuffer::dimensions`: the width and height of the image.
#[verifier::external_body]
pub(crate) fn rgba_dimensions(img: &RgbaRaster) -> (d: (u32, u32))
    ensures
        d == rgba_dims(*img),
{
    img.0.dimensions()
}

/// `imageops::replace` at a non-negative offset: each pixel of `bottom` that
/// lies under the `top` image placed with its top-left corner at `(x, y)`
/// takes the pixel of `top` above it; every other pixel of `bottom` is left
/// as it was, and so are its dimensions. The pixels of `top` that fall outside
/// `bottom` are dropped.
#[verifier::external_body]
pub(crate) fn replace_rgba(bottom: &mut RgbaRaster, top: &RgbaRaster, x: u32, y: u32)
    ensures
        rgba_dims(*final(bottom)) == rgba_dims(*old(bottom)),
        rgba_pixels(*final(bottom)).dom() == grid(rgba_dims(*old(bottom)).0 as int, rgba_dims(*old(bottom)).1 as int),
        forall|p: (int, int)|
            #[trigger] rgba_pixels(*final(bottom)).contains_key(p) ==> rgba_pixels(*final(bottom))[p] == (
            if in_grid((p.0 - x, p.1 - y), rgba_dims(*top).0 as int, rgba_dims(*top).1 as int) {
                rgba_pixels(*top)[(p.0 - x, p.1 - y)]
            } else {
                rgba_pixels(*old(bottom))[p]
            }),
{
    image::imageops::replace(&mut bottom.0, &top.0, x as i64, y as i64)
}

/// The smaller of two numbers.
pub open spec fn min_u32(a: u32, b: u32) -> u32 {
    if a <= b { a } else { b }
}

/// The rectangle that `imageops::crop_imm` keeps of an `iw` x `ih` image
/// when asked for `w` x `h` pixels at `(x, y)`: the corner is clamped into
/// the image and the size is cut at its right and bottom edges.
pub open spec fn crop_rect(iw: u32, ih: u32, x: u32, y: u32, w: u32, h: u32) -> (u32, u32, u32, u32) {
    let cx = min_u32(x, iw);
    let cy = min_u32(y, ih);
    (cx, cy, min_u32(w, (iw - cx) as u32), min_u32(h, (ih - cy) as u32))
}

/// The pixels that `crop_dynamic` copies out of `img`, keyed by their offset
/// in the cropped rectangle.
pub open spec fn crop_view(img: DynamicImage, x: u32, y: u32, w: u32, h: u32) -> Map<(int, int), (u8, u8, u8, u8)> {
    let r = crop_rect(dynamic_dims(img).0, dynamic_dims(img).1, x, y, w, h);
    Map::new(|p: (int, int)| in_grid(p, r.2 as int, r.3 as int), |p: (int, int)| dynamic_pixels(img)[(r.0 + p.0, r.1 + p.1)])
}

/// `imageops::crop_imm`, copied out with `SubImage::to_image`: an RGBA image
/// of the clamped rectangle `crop_rect`, whose pixel `(i, j)` is the pixel
/// `(cx + i, cy + j)` of `img` as `get_pixel` reads it. The copy is a new
/// buffer made by `ImageBuffer::new`; `requires` keeps `4 * w` and its byte
/// length within `usize`, as that function needs for any clamped size.
#[verifier::external_body]
pub(crate) fn crop_dynamic(img: &DynamicImage, x: u32, y: u32, w: u32, h: u32) -> (tile: RgbaRaster)
    requires
        4 * (w as int) <= usize::MAX,
        4 * (w as int) * (h as int) <= usize::MAX,
    ensures
        rgba_dims(tile) == (crop_rect(dynamic_dims(*img).0, dynamic_dims(*img).1, x, y, w, h).2, crop_rect(dynamic_dims(*img).0, dynamic_dims(*img).1, x, y, w, h).3),
        rgba_pixels(tile).dom() == grid(crop_rect(dynamic_dims(*img).0, dynamic_dims(*img).1, x, y, w, h).2 as int, crop_rect(dynamic_dims(*img).0, dynamic_dims(*img).1, x, y, w, h).3 as int),
        forall|p: (int, int)|
            #[trigger] rgba_pixels(tile).contains_key(p) ==> rgba_pixels(tile)[p]
                == dynamic_pixels(*img)[(crop_rect(dynamic_dims(*img).0, dynamic_dims(*img).1, x, y, w, h).0 + p.0, crop_rect(dynamic_dims(*img).0, dynamic_dims(*img).1, x, y, w, h).1 + p.1)],
{
    RgbaRaster(image::imageops::crop_imm(img, x, y, w, h).to_image())
}

} // verus!
