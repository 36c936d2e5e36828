//! Trusted boundary to the `image` crate.
//!
//! The two operations here — decoding a block-compressed texture stream and
//! high-quality resampling — are deterministic functions of their inputs
//! whose full definitions are far too large to restate, so each result is
//! given an uninterpreted name that the callers' contracts build on.

use vstd::prelude::*;
use crate::img::Image;

verus! {

/// What decoding a block-compressed (DDS) texture stream yields: `None` when
/// the stream is malformed, otherwise the image's width, height and RGBA
/// bytes (row-major, four bytes per pixel). The result depends on the bytes
/// alone.
pub uninterp spec fn dds_rgba_of(bytes: Seq<u8>) -> Option<(u32, u32, Seq<u8>)>;

/// What Lanczos-resampling an RGBA buffer of dimensions `sw` x `sh` down to
/// `dw` x `dh` yields: the resampled RGBA bytes, a function of the source
/// pixels and the four dimensions alone.
pub uninterp spec fn lanczos_rgba_of(src: Seq<u8>, sw: u32, sh: u32, dw: u32, dh: u32) -> Seq<u8>;

/// Relies on `image::codecs::dds::DdsDecoder::new` and
/// `image::DynamicImage::from_decoder`: decoding is a deterministic function
/// of the input bytes, and the RGBA conversion of a decoded image holds
/// exactly four bytes per pixel.
#[verifier::external_body]
pub fn decode_dds(bytes: &[u8]) -> (r: Option<Image>)
    ensures
        match r {
            Some(img) => {
                &&& img.wf()
                &&& dds_rgba_of(bytes@) == Some((img.width, img.height, img.data@))
            },
            None => dds_rgba_of(bytes@) is None,
        },
{
    let cursor = std::io::Cursor::new(bytes);
    match image::codecs::dds::DdsDecoder::new(cursor) {
        Ok(decoder) => match image::DynamicImage::from_decoder(decoder) {
            Ok(decoded) => {
                let rgba = decoded.into_rgba8();
                let (width, height) = rgba.dimensions();
                Some(Image { width, height, data: rgba.into_raw() })
            },
            Err(_) => None,
        },
        Err(_) => None,
    }
}

/// Relies on `image::imageops::resize` with `FilterType::Lanczos3`:
/// resampling is a deterministic function of the source pixels and the
/// target dimensions, and the returned buffer holds exactly four bytes per
/// target pixel. `image::RgbaImage::from_raw` succeeds because a well-formed
/// `Image` holds exactly `4 * width * height` bytes.
#[verifier::external_body]
pub fn resize_lanczos(src: &Image, dw: u32, dh: u32) -> (r: Image)
    requires
        src.wf(),
        src.width >= 1,
        src.height >= 1,
        dw >= 1,
        dh >= 1,
    ensures
        r.wf(),
        r.width == dw,
        r.height == dh,
        r.data@ == lanczos_rgba_of(src.data@, src.width, src.height, dw, dh),
{
    let buffer = image::RgbaImage::from_raw(src.width, src.height, src.data.clone()).unwrap();
    let resized = image::imageops::resize(&buffer, dw, dh, image::imageops::FilterType::Lanczos3);
    Image { width: dw, height: dh, data: resized.into_raw() }
}

} // verus!
