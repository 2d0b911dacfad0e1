//! The backdrop: a screenshot out of a PNG file, blurred.

use vstd::prelude::*;

use crate::blur::blur_backdrop;
use crate::picture::{Image, Picture};

verus! {

/// What `image` decodes out of the bytes of a PNG file: width, height and the RGBA bytes.
pub uninterp spec fn png_pixels(file: Seq<u8>) -> Option<(u32, u32, Seq<u8>)>;

/// Calls `image::load_from_memory_with_format` for PNG and `to_rgba8` on what it returns.
///
/// The result depends on the bytes alone. Where there is one, its bytes are enough for its
/// pixels: every buffer of that crate is checked for it when it is made.
#[verifier::external_body]
fn decode_png(file: &[u8]) -> (decoded: Option<(u32, u32, Vec<u8>)>)
    ensures
        match decoded {
            None => png_pixels(file@) is None,
            Some((w, h, bytes)) => png_pixels(file@) == Some((w, h, bytes@)) && 4 * (w * h)
                <= bytes@.len(),
        },
{
    let image = image::load_from_memory_with_format(file, image::ImageFormat::Png).ok()?.to_rgba8();
    let (width, height) = image.dimensions();
    Some((width, height, image.into_raw()))
}

/// A picture whose pixels, and those that a blur reaches beyond its edges, have 32-bit signed
/// coordinates.
pub open spec fn blurrable(pic: Picture) -> bool {
    pic.width - 1 + 14 <= i32::MAX && pic.height - 1 + 14 <= i32::MAX
}

/// The backdrop made of a decoded screenshot: none if there is no screenshot, or if it is too
/// large to blur.
pub fn backdrop_from(shot: Option<Image>) -> (out: Option<Image>)
    requires
        shot matches Some(img) ==> img.wf(),
    ensures
        match shot {
            Some(img) if blurrable(img@) => out matches Some(b) && b.wf() && b@
                == crate::blur::backdrop(img@),
            _ => out is None,
        },
{
    match shot {
        None => None,
        Some(img) => {
            if img.width <= 0x7fff_ffff - 13 && img.height <= 0x7fff_ffff - 13 {
                Some(blur_backdrop(&img))
            } else {
                None
            }
        },
    }
}

/// The backdrop made of a decoded file: none if it does not decode, or is too large to blur.
pub open spec fn background_of(decoded: Option<(u32, u32, Seq<u8>)>) -> Option<Picture> {
    match decoded {
        Some((w, h, bytes)) if blurrable(crate::picture::picture_of(w, h, bytes)) => Some(
            crate::blur::backdrop(crate::picture::picture_of(w, h, bytes)),
        ),
        _ => None,
    }
}

/// The backdrop made of the bytes of a PNG file.
pub fn load_background(file: &[u8]) -> (out: Option<Image>)
    ensures
        out matches Some(b) ==> b.wf(),
        match out {
            Some(b) => Some(b@),
            None => None,
        } == background_of(png_pixels(file@)),
{
    match decode_png(file) {
        None => None,
        Some((width, height, data)) => backdrop_from(Some(Image { width, height, data })),
    }
}

/// A screenshot of less than 2147483635 pixels either way makes a backdrop, of the same size: that
/// of its pixels, blurred with the radii 14, 12 and 10 one after the other. Nothing else does.
pub proof fn lemma_screenshot_makes_a_backdrop(w: u32, h: u32, bytes: Seq<u8>)
    ensures
        background_of(None) is None,
        w <= 0x7fff_fff2 && h <= 0x7fff_fff2 <==> background_of(Some((w, h, bytes))) is Some,
        background_of(Some((w, h, bytes))) matches Some(pic) ==> {
            let shot = crate::picture::picture_of(w, h, bytes);
            &&& pic.width == w
            &&& pic.height == h
            &&& pic == crate::blur::blur(crate::blur::blur(crate::blur::blur(shot, 14), 12), 10)
        },
{
}

} // verus!
