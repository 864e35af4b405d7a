//! The sample interpreter: materializes a canonical pixel buffer from
//! decoded bytes, the dictionary dimensions and the component count.

use vstd::prelude::*;
use crate::codec::{decode_image_gray, decode_image_rgb};
use crate::error::PdfError;
use crate::pixels::{cmyk_rgb, cmyk_to_rgb, PixelBuffer};

verus! {

/// How a pixel buffer was obtained.
#[derive(Clone, Copy, PartialEq, Eq, Structural, Debug)]
pub enum SampleOrigin {
    /// Raw gray samples, one byte per pixel, taken as they are.
    RawGray,
    /// Raw RGB samples, three bytes per pixel, taken as they are.
    RawRgb,
    /// Packed CMYK quadruplets converted by the naive formula.
    CmykConverted,
    /// The generic image-format decoder read the bytes.
    GenericDecode,
}

/// Materializes a pixel buffer. Raw interpretations and the CMYK
/// conversion are exact; the generic decoder contributes only a
/// well-formed buffer of its own dimensions.
pub fn interpret_samples(w: u32, h: u32, c: u8, content: Vec<u8>) -> (r: Result<
    (PixelBuffer, SampleOrigin),
    PdfError,
>)
    ensures
        ({
            let wh = (w * h) as nat;
            match r {
                Ok(p) => p.0.wf() && match p.1 {
                    SampleOrigin::RawGray => c == 1 && content@.len() >= wh && p.0.width == w
                        && p.0.height == h && p.0.channels == 1 && p.0.data@ == content@.take(
                        wh as int,
                    ),
                    SampleOrigin::RawRgb => c == 3 && content@.len() >= wh * 3 && p.0.width == w
                        && p.0.height == h && p.0.channels == 3 && p.0.data@ == content@.take(
                        (wh * 3) as int,
                    ),
                    SampleOrigin::CmykConverted => c == 4 && cmyk_rgb(content@).len() >= wh * 3
                        && p.0.width == w && p.0.height == h && p.0.channels == 3 && p.0.data@
                        == cmyk_rgb(content@).take((wh * 3) as int),
                    SampleOrigin::GenericDecode => (c == 0 || c == 1 || c == 3 || c == 4)
                        && p.0.channels == (if c == 1 {
                        1u8
                    } else {
                        3u8
                    }),
                },
                Err(e) => (e == PdfError::Decode || e == PdfError::ColorConversion) && (e
                    == PdfError::ColorConversion <==> (c != 0 && c != 1 && c != 3 && c != 4)),
            }
        }),
        c == 1 && content@.len() >= w * h ==> (r matches Ok(p) && p.1 == SampleOrigin::RawGray),
        c == 3 && content@.len() >= (w * h) * 3 ==> (r matches Ok(p) && p.1
            == SampleOrigin::RawRgb),
        c == 4 && cmyk_rgb(content@).len() >= (w * h) * 3 ==> r is Ok,
{
    let ghost wh = (w * h) as nat;
    proof {
        assert(wh * 3 <= 0xffff_ffff * 0xffff_ffff * 3 && wh <= 0xffff_ffff * 0xffff_ffff)
            by (nonlinear_arith)
            requires
                wh == (w as int) * (h as int),
                w <= 0xffff_ffff,
                h <= 0xffff_ffff,
        ;
    }
    if c == 0 {
        match decode_image_rgb(&content) {
            Some(t) => {
                let buf = PixelBuffer { width: t.0, height: t.1, channels: 3, data: t.2 };
                Ok((buf, SampleOrigin::GenericDecode))
            }
            None => Err(PdfError::Decode),
        }
    } else if c == 1 {
        let pixels: u128 = (w as u128) * (h as u128);
        if (content.len() as u128) >= pixels {
            let need = pixels as usize;
            let ghost orig = content@;
            let mut data = content;
            data.truncate(need);
            proof {
                assert(data@ =~= orig.take(wh as int));
            }
            let buf = PixelBuffer { width: w, height: h, channels: 1, data };
            proof {
                assert(buf.wf()) by (nonlinear_arith)
                    requires
                        buf.data@.len() == wh,
                        wh == (w as int) * (h as int),
                        buf.width == w,
                        buf.height == h,
                        buf.channels == 1,
                ;
            }
            Ok((buf, SampleOrigin::RawGray))
        } else {
            match decode_image_gray(&content) {
                Some(t) => {
                    let buf = PixelBuffer { width: t.0, height: t.1, channels: 1, data: t.2 };
                    Ok((buf, SampleOrigin::GenericDecode))
                }
                None => Err(PdfError::Decode),
            }
        }
    } else if c == 3 {
        let bytes_needed: u128 = (w as u128) * (h as u128) * 3;
        if (content.len() as u128) >= bytes_needed {
            let need = bytes_needed as usize;
            let ghost orig = content@;
            let mut data = content;
            data.truncate(need);
            proof {
                assert(data@ =~= orig.take((wh * 3) as int));
            }
            let buf = PixelBuffer { width: w, height: h, channels: 3, data };
            proof {
                assert(buf.wf()) by (nonlinear_arith)
                    requires
                        buf.data@.len() == wh * 3,
                        wh == (w as int) * (h as int),
                        buf.width == w,
                        buf.height == h,
                        buf.channels == 3,
                ;
            }
            Ok((buf, SampleOrigin::RawRgb))
        } else {
            match decode_image_rgb(&content) {
                Some(t) => {
                    let buf = PixelBuffer { width: t.0, height: t.1, channels: 3, data: t.2 };
                    Ok((buf, SampleOrigin::GenericDecode))
                }
                None => Err(PdfError::Decode),
            }
        }
    } else if c == 4 {
        match decode_image_rgb(&content) {
            Some(t) => {
                let buf = PixelBuffer { width: t.0, height: t.1, channels: 3, data: t.2 };
                Ok((buf, SampleOrigin::GenericDecode))
            }
            None => {
                let rgb = cmyk_to_rgb(&content);
                let bytes_needed: u128 = (w as u128) * (h as u128) * 3;
                if (rgb.len() as u128) >= bytes_needed {
                    let need = bytes_needed as usize;
                    let mut data = rgb;
                    data.truncate(need);
                    proof {
                        assert(data@ =~= cmyk_rgb(content@).take((wh * 3) as int));
                    }
                    let buf = PixelBuffer { width: w, height: h, channels: 3, data };
                    proof {
                        assert(buf.wf()) by (nonlinear_arith)
                            requires
                                buf.data@.len() == wh * 3,
                                wh == (w as int) * (h as int),
                                buf.width == w,
                                buf.height == h,
                                buf.channels == 3,
                        ;
                    }
                    Ok((buf, SampleOrigin::CmykConverted))
                } else {
                    Err(PdfError::Decode)
                }
            }
        }
    } else {
        Err(PdfError::ColorConversion)
    }
}

} // verus!
