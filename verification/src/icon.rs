//! Turning the pixels of an application icon into a PNG data URL.
use base64::{engine::general_purpose::STANDARD, Engine};
use image::{DynamicImage, ImageFormat, RgbaImage};
use std::io::Cursor;
use vstd::prelude::*;

use crate::text::owned;

verus! {

/// The message for an icon asked of an empty path.
pub open spec fn empty_path_error() -> Seq<char> {
    "Application path is empty"@
}

/// Checks that there is a path to read an icon from: an error where `path` is empty.
pub fn icon_path_checked(path: &str) -> (r: Result<(), String>)
    ensures
        r is Err <==> path@.len() == 0,
        r matches Err(e) ==> e@ == empty_path_error(),
{
    if path.unicode_len() == 0 {
        return Err(owned("Application path is empty"));
    }
    Ok(())
}

/// The side of an icon in pixels.
pub open spec fn icon_side() -> int {
    64
}

/// The bytes of an icon: four per pixel.
pub open spec fn icon_bytes() -> int {
    icon_side() * icon_side() * 4
}

/// The pixels with the first and third byte of every complete four-byte pixel swapped
/// (blue-green-red-alpha to red-green-blue-alpha); trailing bytes stay.
pub open spec fn swapped_channels(p: Seq<u8>) -> Seq<u8> {
    Seq::new(
        p.len(),
        |i: int|
            if i < p.len() - p.len() % 4 && i % 4 == 0 {
                p[i + 2]
            } else if i < p.len() - p.len() % 4 && i % 4 == 2 {
                p[i - 2]
            } else {
                p[i]
            },
    )
}

/// Swaps the first and third byte of every complete four-byte pixel.
pub fn bgra_to_rgba(pixels: &mut Vec<u8>)
    ensures
        final(pixels)@ == swapped_channels(old(pixels)@),
{
    let ghost orig = pixels@;
    let n = pixels.len();
    let full = n - n % 4;
    let mut i: usize = 0;
    while i < full
        invariant
            n == orig.len(),
            full == n - n % 4,
            pixels@.len() == n,
            i % 4 == 0,
            i <= full,
            forall|j: int| 0 <= j < i ==> #[trigger] pixels@[j] == swapped_channels(orig)[j],
            forall|j: int| i <= j < n ==> #[trigger] pixels@[j] == orig[j],
        decreases full - i,
    {
        let a = pixels[i];
        let c = pixels[i + 2];
        pixels.set(i, c);
        pixels.set(i + 2, a);
        i = i + 4;
    }
    assert(pixels@ =~= swapped_channels(orig));
}

/// Swapping the blue and red channels twice gives the pixels back.
pub proof fn law_swap_twice(pixels: Seq<u8>)
    ensures
        swapped_channels(swapped_channels(pixels)) == pixels,
{
    assert(swapped_channels(swapped_channels(pixels)) =~= pixels);
}

/// The name of the PNG that the `image` crate writes for a 64-by-64 RGBA image with these
/// pixels.
pub uninterp spec fn png_of_icon(pixels: Seq<u8>) -> Seq<u8>;

/// Calls `RgbaImage::from_raw` for a 64-by-64 image and `DynamicImage::write_to` with
/// `ImageFormat::Png` into an in-memory `Vec`. With exactly 64 * 64 * 4 bytes `from_raw`
/// accepts the buffer and the PNG encoder (which asserts that length and panics on any
/// other) writes the named encoding of the pixels; writing into a `Vec` does not fail. A
/// `Vec<u8>` holds at most `isize::MAX` bytes.
#[verifier::external_body]
fn encode_png(pixels: Vec<u8>) -> (r: Result<Vec<u8>, String>)
    requires
        pixels@.len() == icon_bytes(),
    ensures
        r is Ok,
        r->Ok_0@ == png_of_icon(pixels@),
        r->Ok_0@.len() <= isize::MAX,
{
    let image = match RgbaImage::from_raw(64, 64, pixels) {
        Some(i) => i,
        None => return Err(String::new()),
    };
    let mut png = Cursor::new(Vec::new());
    match DynamicImage::ImageRgba8(image).write_to(&mut png, ImageFormat::Png) {
        Ok(()) => Ok(png.into_inner()),
        Err(e) => Err(e.to_string()),
    }
}

/// The character of a six-bit value in the standard base64 alphabet.
pub open spec fn base64_char(v: int) -> char {
    if v < 26 {
        (65 + v) as char
    } else if v < 52 {
        (97 + v - 26) as char
    } else if v < 62 {
        (48 + v - 52) as char
    } else if v == 62 {
        '+'
    } else {
        '/'
    }
}

/// Standard base64 with `=` padding: every three bytes become four characters.
pub open spec fn base64_text(b: Seq<u8>) -> Seq<char>
    decreases b.len(),
{
    if b.len() == 0 {
        Seq::empty()
    } else if b.len() == 1 {
        seq![base64_char((b[0] / 4) as int), base64_char((b[0] % 4) * 16), '=', '=']
    } else if b.len() == 2 {
        seq![
            base64_char((b[0] / 4) as int),
            base64_char((b[0] % 4) * 16 + b[1] / 16),
            base64_char((b[1] % 16) * 4),
            '=',
        ]
    } else {
        seq![
            base64_char((b[0] / 4) as int),
            base64_char((b[0] % 4) * 16 + b[1] / 16),
            base64_char((b[1] % 16) * 4 + b[2] / 64),
            base64_char((b[2] % 64) as int),
        ] + base64_text(b.skip(3))
    }
}

/// Calls `Engine::encode` of `base64::engine::general_purpose::STANDARD`: standard base64
/// with padding. It panics where the encoded length overflows `usize`, which the bound
/// on the length excludes.
#[verifier::external_body]
fn encode_base64(bytes: &Vec<u8>) -> (r: String)
    requires
        bytes@.len() <= usize::MAX / 2,
    ensures
        r@ == base64_text(bytes@),
{
    STANDARD.encode(bytes)
}

/// The message for pixels that do not fill an icon.
pub open spec fn pixels_error() -> Seq<char> {
    "Unable to encode icon pixels"@
}

/// The data URL of an icon given its 64-by-64 pixels in blue-green-red-alpha order: the
/// PNG of the pixels in red-green-blue-alpha order, in base64. An error where there are
/// not exactly 64 * 64 * 4 bytes.
pub fn encode_icon(pixels: Vec<u8>) -> (r: Result<String, String>)
    ensures
        pixels@.len() != icon_bytes() ==> (r matches Err(e) && e@ == pixels_error()),
        pixels@.len() == icon_bytes() ==> (r matches Ok(s) && s@ == "data:image/png;base64,"@ + base64_text(
            png_of_icon(swapped_channels(pixels@)),
        )),
{
    if pixels.len() != 16384 {
        return Err(owned("Unable to encode icon pixels"));
    }
    let mut pixels = pixels;
    bgra_to_rgba(&mut pixels);
    let png = encode_png(pixels)?;
    png_data_url(&png)
}

/// The data URL of PNG bytes: `data:image/png;base64,` and the bytes in base64. An error
/// only where the bytes are too many for their base64 text to fit in memory.
pub fn png_data_url(png: &Vec<u8>) -> (r: Result<String, String>)
    ensures
        png@.len() > usize::MAX / 2 ==> (r matches Err(e) && e@ == pixels_error()),
        png@.len() <= usize::MAX / 2 ==> (r matches Ok(s) && s@ == "data:image/png;base64,"@ + base64_text(png@)),
{
    if png.len() > usize::MAX / 2 {
        return Err(owned("Unable to encode icon pixels"));
    }
    let text = encode_base64(png);
    let mut url = owned("data:image/png;base64,");
    url.append(text.as_str());
    Ok(url)
}

} // verus!
