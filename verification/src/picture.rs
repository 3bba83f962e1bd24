//! Pictures: which raw RGBA buffers can be stored as a picture, and
//! decoding stored PNG files back into pixels.
use vstd::prelude::*;

verus! {

/// Whether an RGBA buffer of `len` bytes holds a picture of `width` by
/// `height` pixels that can be stored: both sides are positive and the
/// buffer has at least four bytes per pixel (what `RgbaImage::from_raw`
/// asks of it).
pub fn picture_fits(width: u32, height: u32, len: usize) -> (b: bool)
    ensures
        b == (width > 0 && height > 0 && len as int >= width as int * height as int * 4),
{
    if width == 0 || height == 0 {
        return false;
    }
    let w = width as u128;
    let h = height as u128;
    assert(w * h <= 0xffff_ffffu128 * 0xffff_ffffu128) by (nonlinear_arith)
        requires
            w <= 0xffff_ffffu128,
            h <= 0xffff_ffffu128,
    ;
    let need: u128 = w * h * 4;
    (len as u128) >= need
}

/// The width, height and RGBA pixels (four bytes per pixel, row by row)
/// that decoding these PNG bytes gives, or `None` when they are not a
/// readable PNG picture.
pub uninterp spec fn png_rgba(bytes: Seq<u8>) -> Option<(u32, u32, Seq<u8>)>;

/// `image::load_from_memory_with_format(bytes, ImageFormat::Png)` followed
/// by `DynamicImage::to_rgba8`: the decoded picture in RGBA, a function of
/// the bytes alone. The pixel buffer holds exactly four bytes per pixel
/// (the decoder fills a buffer of the picture's total size, and a colour
/// conversion makes a new buffer of the same shape).
#[verifier::external_body]
fn png_decode(bytes: &[u8]) -> (r: Option<(u32, u32, Vec<u8>)>)
    ensures
        match r {
            Some((w, h, px)) => png_rgba(bytes@) == Some((w, h, px@)) && px@.len() == w as int
                * h as int * 4,
            None => png_rgba(bytes@) is None,
        },
{
    match image::load_from_memory_with_format(bytes, image::ImageFormat::Png) {
        Ok(img) => {
            let rgba = img.to_rgba8();
            Some((rgba.width(), rgba.height(), rgba.into_raw()))
        },
        Err(_) => None,
    }
}

/// Decodes the bytes of a stored picture file into its width, height and
/// RGBA pixels; `None` when they are not a readable PNG picture.
pub fn decode_picture(bytes: &[u8]) -> (r: Option<(u32, u32, Vec<u8>)>)
    ensures
        match r {
            Some((w, h, px)) => png_rgba(bytes@) == Some((w, h, px@)) && px@.len() == w as int
                * h as int * 4,
            None => png_rgba(bytes@) is None,
        },
{
    png_decode(bytes)
}

} // verus!
