//! Rendering: a scaled-down PNG of an image.

use vstd::prelude::*;

verus! {

/// What rendering `source` into a box of the given height and width
/// comes to: nothing where the bytes are no image that can be decoded,
/// else the PNG bytes of the scaled image with its height and width.
pub uninterp spec fn rendered(source: Seq<u8>, height: u32, width: u32) -> Option<
    (Seq<u8>, u32, u32),
>;

/// Decodes `source` with `image::load_from_memory`, scales it into the
/// box with `DynamicImage::thumbnail` and encodes it as PNG with
/// `DynamicImage::write_to`. Hands back the PNG bytes with the height
/// and width of the scaled image, or nothing where decoding or encoding
/// fails. The result is a function of the arguments alone.
#[verifier::external_body]
pub(crate) fn render_png(source: &Vec<u8>, height: u32, width: u32) -> (result: Option<
    (Vec<u8>, u32, u32),
>)
    ensures
        result.deep_view() == rendered(source@, height, width),
{
    let decoded = image::load_from_memory(source).ok()?;
    let scaled = decoded.thumbnail(width, height);
    let mut bytes: Vec<u8> = Vec::new();
    scaled.write_to(&mut std::io::Cursor::new(&mut bytes), image::ImageOutputFormat::Png).ok()?;
    Some((bytes, scaled.height(), scaled.width()))
}

} // verus!
