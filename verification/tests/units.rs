use pdf_compressor::error::PdfError;
use pdf_compressor::interpret::interpret_samples;
use pdf_compressor::pixels::{cmyk_channel_exec, cmyk_to_rgb};
use pdf_compressor::resize::resize_dims;

#[test]
fn cmyk_full_key_is_black() {
    let rgb = cmyk_to_rgb(&vec![0, 0, 0, 255]);
    assert_eq!(rgb, vec![0, 0, 0]);
}

#[test]
fn cmyk_zero_key_is_white() {
    let rgb = cmyk_to_rgb(&vec![0, 0, 0, 0]);
    assert_eq!(rgb, vec![255, 255, 255]);
}

#[test]
fn cmyk_mixed_pixels() {
    // (C=255) kills the red channel; K=0 leaves the others at full.
    let rgb = cmyk_to_rgb(&vec![255, 0, 0, 0, 0, 255, 0, 0]);
    assert_eq!(rgb, vec![0, 255, 255, 255, 0, 255]);
}

#[test]
fn cmyk_partial_chunk_degrades_to_black() {
    let rgb = cmyk_to_rgb(&vec![10, 20]);
    assert_eq!(rgb, vec![0, 0, 0]);
}

#[test]
fn cmyk_channel_truncates() {
    // (255-0)*(255-128)/255 = 127.0 exactly? 255*127/255 = 127.
    assert_eq!(cmyk_channel_exec(0, 128), 127);
    // (255-1)*(255-1)/255 = 254*254/255 = 64516/255 = 253 (truncated).
    assert_eq!(cmyk_channel_exec(1, 1), 253);
}

#[test]
fn resize_dims_halves_wide_image() {
    assert_eq!(resize_dims(3000, 1500, 1500), (1500, 750));
}

#[test]
fn resize_dims_rounds_half_up() {
    // 2476 * 1500 / 4264 = 870.97..., rounds to 871.
    assert_eq!(resize_dims(4264, 2476, 1500), (1500, 871));
}

#[test]
fn resize_dims_tall_image() {
    assert_eq!(resize_dims(1000, 4000, 2000), (500, 2000));
}

#[test]
fn resize_dims_never_zero() {
    assert_eq!(resize_dims(10000, 1, 100), (100, 1));
}

#[test]
fn interpret_rejects_bad_component_count() {
    let r = interpret_samples(1, 1, 2, vec![0, 0]);
    match r {
        Err(e) => assert_eq!(e, PdfError::ColorConversion),
        Ok(_) => panic!("component count 2 must be rejected"),
    }
}

#[test]
fn error_descriptions() {
    assert_eq!(PdfError::StreamAccess.describe(), "object is not a stream");
    assert_eq!(PdfError::Decode.describe(), "stream decode failed");
}
