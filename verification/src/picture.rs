//! The finished picture as the `image` crate handles it: cut out of the
//! screenshot, and encoded as PNG. A picture is its RGBA bytes, row after row,
//! with its width and height.

use vstd::prelude::*;

verus! {

/// The PNG file that `image`'s encoder writes for these RGBA pixels.
pub uninterp spec fn png_bytes(rgba: Seq<u8>, width: u32, height: u32) -> Seq<u8>;

/// Encodes a picture as PNG through `image::ImageBuffer::write_to` with
/// `ImageFormat::Png` into memory. What comes back on success is that
/// encoder's output for these pixels and size; a failure comes back as the
/// encoder's message, and when one happens is left unsaid.
#[verifier::external_body]
pub fn encode_png(rgba: &Vec<u8>, width: u32, height: u32) -> (r: Result<Vec<u8>, String>)
    requires
        rgba@.len() == 4 * width * height,
    ensures
        r is Ok ==> r->Ok_0@ == png_bytes(rgba@, width, height),
{
    let img = image::RgbaImage::from_raw(width, height, rgba.clone()).expect("buffer of the picture's size");
    let mut buf = std::io::Cursor::new(Vec::new());
    match img.write_to(&mut buf, image::ImageFormat::Png) {
        Ok(()) => Ok(buf.into_inner()),
        Err(e) => Err(e.to_string()),
    }
}

/// Channel `c` of the pixel at column `i`, row `j` of a picture `width` pixels wide.
pub open spec fn channel(rgba: Seq<u8>, width: int, i: int, j: int, c: int) -> u8 {
    rgba[4 * (j * width + i) + c]
}

/// `a` or `b`, the smaller.
pub open spec fn min_u32(a: u32, b: u32) -> u32 {
    if a <= b {
        a
    } else {
        b
    }
}

/// The width of the region `x, w` once cut down to a picture `width` wide.
pub open spec fn kept(x: u32, w: u32, width: u32) -> u32 {
    min_u32(w, (width - min_u32(x, width)) as u32)
}

/// Cuts the region at `(x, y)` of size `w` x `h` out of a picture, through
/// `image::imageops::crop_imm(..).to_image()`: as `image`'s source does, the
/// corner is first held inside the picture and the size cut down to its edges,
/// then each pixel of the region is copied. Gives the bytes, the width and the
/// height of the result.
#[verifier::external_body]
pub fn crop(rgba: &Vec<u8>, width: u32, height: u32, x: u32, y: u32, w: u32, h: u32) -> (r: (
    Vec<u8>,
    u32,
    u32,
))
    requires
        rgba@.len() == 4 * width * height,
    ensures
        r.1 == kept(x, w, width),
        r.2 == kept(y, h, height),
        r.0@.len() == 4 * r.1 * r.2,
        forall|i: int, j: int, c: int|
            0 <= i < r.1 && 0 <= j < r.2 && 0 <= c < 4 ==> #[trigger] channel(r.0@, r.1 as int, i, j, c)
                == channel(rgba@, width as int, min_u32(x, width) + i, min_u32(y, height) + j, c),
{
    let img = image::RgbaImage::from_raw(width, height, rgba.clone()).expect("buffer of the picture's size");
    let part = image::imageops::crop_imm(&img, x, y, w, h).to_image();
    let (cw, ch) = (part.width(), part.height());
    (part.into_raw(), cw, ch)
}

} // verus!
