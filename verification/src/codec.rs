//! The calls into the compression and imaging crates, behind trusted
//! contracts. Everything else in the library is verified against these.

use vstd::prelude::*;

verus! {

/// What zlib inflation yields on a byte string: `None` where the stream
/// is rejected. Inflation is a function of the input bytes alone.
pub uninterp spec fn zlib_inflated(s: Seq<u8>) -> Option<Seq<u8>>;

/// The JPEG encoding of a packed gray buffer at a quality, a function of
/// its arguments alone (the encoder is fixed and single-threaded).
pub uninterp spec fn jpeg_gray(data: Seq<u8>, w: u32, h: u32, quality: u8) -> Seq<u8>;

/// The JPEG encoding of a packed RGB buffer at a quality, a function of
/// its arguments alone.
pub uninterp spec fn jpeg_rgb(data: Seq<u8>, w: u32, h: u32, quality: u8) -> Seq<u8>;

/// Relies on flate2::read::ZlibDecoder reading to the end: inflates a
/// zlib stream, or fails; the outcome depends on the bytes alone.
#[verifier::external_body]
pub(crate) fn zlib_inflate(data: &Vec<u8>) -> (r: Result<Vec<u8>, ()>)
    ensures
        r matches Ok(v) ==> zlib_inflated(data@) == Some(v@),
        r is Err ==> zlib_inflated(data@) is None,
{
    let mut dec = flate2::read::ZlibDecoder::new(data.as_slice());
    let mut buf = Vec::new();
    match std::io::Read::read_to_end(&mut dec, &mut buf) {
        Ok(_) => Ok(buf),
        Err(_) => Err(()),
    }
}

/// Relies on flate2::write::ZlibEncoder at best compression: deflating
/// into a byte vector cannot fail (the only error paths come from the
/// underlying writer, and writes to a vector are infallible); zlib is a
/// lossless codec, so inflating what it wrote yields the input again; an
/// allocation never exceeds the signed address-space bound.
#[verifier::external_body]
pub(crate) fn zlib_deflate(data: &Vec<u8>) -> (r: Result<Vec<u8>, ()>)
    ensures
        r is Ok,
        r matches Ok(v) ==> zlib_inflated(v@) == Some(data@) && v@.len()
            <= 0x7fff_ffff_ffff_ffff,
{
    let mut enc = flate2::write::ZlibEncoder::new(Vec::new(), flate2::Compression::best());
    match std::io::Write::write_all(&mut enc, data.as_slice()) {
        Ok(()) => match enc.finish() {
            Ok(v) => Ok(v),
            Err(_) => Err(()),
        },
        Err(_) => Err(()),
    }
}

/// Relies on image's JpegEncoder writing to a byte vector: it panics on
/// a buffer length mismatch, fails exactly on a dimension of zero or
/// above the JPEG bound, and otherwise writes the encoding; an
/// allocation never exceeds the signed address-space bound.
#[verifier::external_body]
pub(crate) fn jpeg_encode_gray(data: &Vec<u8>, w: u32, h: u32, quality: u8) -> (r: Result<Vec<u8>, ()>)
    requires
        data@.len() == w * h,
    ensures
        r is Ok <==> (1 <= w <= 65535 && 1 <= h <= 65535),
        r matches Ok(v) ==> v@ == jpeg_gray(data@, w, h, quality) && v@.len()
            <= 0x7fff_ffff_ffff_ffff,
{
    let mut buf = Vec::new();
    let mut enc = image::codecs::jpeg::JpegEncoder::new_with_quality(&mut buf, quality);
    match enc.encode(data.as_slice(), w, h, image::ExtendedColorType::L8) {
        Ok(()) => Ok(buf),
        Err(_) => Err(()),
    }
}

/// Relies on image's JpegEncoder writing to a byte vector: it panics on
/// a buffer length mismatch, fails exactly on a dimension of zero or
/// above the JPEG bound, and otherwise writes the encoding; an
/// allocation never exceeds the signed address-space bound.
#[verifier::external_body]
pub(crate) fn jpeg_encode_rgb(data: &Vec<u8>, w: u32, h: u32, quality: u8) -> (r: Result<Vec<u8>, ()>)
    requires
        data@.len() == w * h * 3,
    ensures
        r is Ok <==> (1 <= w <= 65535 && 1 <= h <= 65535),
        r matches Ok(v) ==> v@ == jpeg_rgb(data@, w, h, quality) && v@.len()
            <= 0x7fff_ffff_ffff_ffff,
{
    let mut buf = Vec::new();
    let mut enc = image::codecs::jpeg::JpegEncoder::new_with_quality(&mut buf, quality);
    match enc.encode(data.as_slice(), w, h, image::ExtendedColorType::Rgb8) {
        Ok(()) => Ok(buf),
        Err(_) => Err(()),
    }
}

/// Relies on image::load_from_memory and DynamicImage::to_rgb8: decoding
/// may use the machine's vector units, so only the shape of the result
/// is stated: three bytes per pixel of the decoded dimensions.
#[verifier::external_body]
pub(crate) fn decode_image_rgb(bytes: &Vec<u8>) -> (r: Option<(u32, u32, Vec<u8>)>)
    ensures
        r matches Some(t) ==> t.2@.len() == t.0 * t.1 * 3,
{
    match image::load_from_memory(bytes.as_slice()) {
        Ok(img) => {
            let rgb = img.to_rgb8();
            Some((rgb.width(), rgb.height(), rgb.into_raw()))
        }
        Err(_) => None,
    }
}

/// Relies on image::load_from_memory and DynamicImage::to_luma8: only
/// the shape of the result is stated, one byte per decoded pixel.
#[verifier::external_body]
pub(crate) fn decode_image_gray(bytes: &Vec<u8>) -> (r: Option<(u32, u32, Vec<u8>)>)
    ensures
        r matches Some(t) ==> t.2@.len() == t.0 * t.1,
{
    match image::load_from_memory(bytes.as_slice()) {
        Ok(img) => {
            let gray = img.to_luma8();
            Some((gray.width(), gray.height(), gray.into_raw()))
        }
        Err(_) => None,
    }
}

/// Relies on image::imageops::resize with the three-lobed Lanczos
/// filter on a gray buffer: the result has exactly the requested
/// dimensions; samples may differ between machines, so they are not
/// stated.
#[verifier::external_body]
pub(crate) fn lanczos_resize_gray(data: &Vec<u8>, w: u32, h: u32, nw: u32, nh: u32) -> (r: Vec<u8>)
    requires
        data@.len() == w * h,
    ensures
        r@.len() == nw * nh,
{
    let img: image::GrayImage = image::ImageBuffer::from_raw(w, h, data.clone()).unwrap();
    image::imageops::resize(&img, nw, nh, image::imageops::FilterType::Lanczos3).into_raw()
}

/// Relies on image::imageops::resize with the three-lobed Lanczos
/// filter on an RGB buffer; only the shape of the result is stated.
#[verifier::external_body]
pub(crate) fn lanczos_resize_rgb(data: &Vec<u8>, w: u32, h: u32, nw: u32, nh: u32) -> (r: Vec<u8>)
    requires
        data@.len() == w * h * 3,
    ensures
        r@.len() == nw * nh * 3,
{
    let img: image::RgbImage = image::ImageBuffer::from_raw(w, h, data.clone()).unwrap();
    image::imageops::resize(&img, nw, nh, image::imageops::FilterType::Lanczos3).into_raw()
}

/// Relies on image::imageops::resize with the three-lobed Lanczos
/// filter on an RGBA buffer; only the shape of the result is stated.
#[verifier::external_body]
pub(crate) fn lanczos_resize_rgba(data: &Vec<u8>, w: u32, h: u32, nw: u32, nh: u32) -> (r: Vec<u8>)
    requires
        data@.len() == w * h * 4,
    ensures
        r@.len() == nw * nh * 4,
{
    let img: image::RgbaImage = image::ImageBuffer::from_raw(w, h, data.clone()).unwrap();
    image::imageops::resize(&img, nw, nh, image::imageops::FilterType::Lanczos3).into_raw()
}

} // verus!
