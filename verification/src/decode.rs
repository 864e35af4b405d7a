//! The stream decoder: turns a stream's encoded bytes into its payload,
//! honoring the filter chain; and the sample interpreter's component
//! count heuristic.

use vstd::prelude::*;
use crate::codec::{zlib_inflate, zlib_inflated};
use crate::dict::Dict;
use crate::error::PdfError;
use crate::names::{
    name_color_space, name_filter, name_height, name_width, nm_color_space, nm_dct_decode,
    nm_device_cmyk, nm_device_gray, nm_device_rgb, nm_filter, nm_flate_decode, nm_height, nm_width,
};
use crate::object::{bytes_eq, clone_bytes, Object, ObjView};

verus! {

/// The value a map binds a key to, if any.
pub open spec fn dict_opt(m: Map<Seq<u8>, ObjView>, k: Seq<u8>) -> Option<ObjView> {
    if m.contains_key(k) {
        Some(m[k])
    } else {
        None
    }
}

/// Whether a filter entry names the JPEG-passthrough filter, directly or
/// inside an array.
pub open spec fn chain_is_jpeg(filter: Option<ObjView>) -> bool {
    match filter {
        Some(ObjView::Name(b)) => b == nm_dct_decode(),
        Some(ObjView::Array(items)) => exists|i: int|
            0 <= i < items.len() && items[i] == ObjView::Name(nm_dct_decode()),
        _ => false,
    }
}

/// What decoding a stream yields. A JPEG-passthrough chain hands the raw
/// bytes through; an absent filter means the content is already plain; a
/// single zlib filter is inflated; anything else is unsupported.
pub open spec fn decoded_stream(filter: Option<ObjView>, content: Seq<u8>) -> Option<Seq<u8>> {
    if chain_is_jpeg(filter) {
        Some(content)
    } else {
        match filter {
            None => Some(content),
            Some(ObjView::Name(b)) => if b == nm_flate_decode() {
                zlib_inflated(content)
            } else {
                None
            },
            Some(_) => None,
        }
    }
}

/// Whether an object is the name `DCTDecode`, or an array holding it.
fn names_jpeg(o: &Object) -> (r: bool)
    ensures
        r == chain_is_jpeg(Some(o.deep_view())),
{
    let dct = crate::names::name_dct_decode();
    match o {
        Object::Name(b) => bytes_eq(b.as_slice(), dct.as_slice()),
        Object::Array(items) => {
            let n = items.len();
            let mut i: usize = 0;
            while i < n
                invariant
                    0 <= i <= n,
                    n == items@.len(),
                    dct@ == nm_dct_decode(),
                    o.deep_view() == ObjView::Array(crate::object::arr_view(items@)),
                    forall|j: int|
                        0 <= j < i ==> crate::object::arr_view(items@)[j] != ObjView::Name(
                            nm_dct_decode(),
                        ),
                decreases n - i,
            {
                let hit = match &items[i] {
                    Object::Name(b) => bytes_eq(b.as_slice(), dct.as_slice()),
                    _ => false,
                };
                proof {
                    assert(crate::object::arr_view(items@)[i as int] == items@[i as int].deep_view());
                }
                if hit {
                    proof {
                        assert(crate::object::arr_view(items@)[i as int] == ObjView::Name(
                            nm_dct_decode(),
                        ));
                    }
                    return true;
                }
                i = i + 1;
            }
            false
        }
        _ => false,
    }
}

/// Decodes a stream's content against its dictionary's filter entry.
/// Returns the payload and whether the chain named the JPEG-passthrough
/// filter; fails exactly where no supported decoding exists.
pub fn decode_stream(dict: &Dict, content: &Vec<u8>) -> (r: Result<(Vec<u8>, bool), PdfError>)
    requires
        dict.wf(),
    ensures
        ({
            let filter = dict_opt(dict.map_view(), nm_filter());
            match r {
                Ok(p) => decoded_stream(filter, content@) == Some(p.0@) && p.1 == chain_is_jpeg(
                    filter,
                ),
                Err(e) => e == PdfError::Decode && decoded_stream(filter, content@) is None,
            }
        }),
{
    let fkey = name_filter();
    let filter = dict.get(fkey.as_slice());
    match filter {
        None => Ok((clone_bytes(content), false)),
        Some(o) => {
            if names_jpeg(o) {
                return Ok((clone_bytes(content), true));
            }
            match o {
                Object::Name(b) => {
                    let flate = crate::names::name_flate_decode();
                    if bytes_eq(b.as_slice(), flate.as_slice()) {
                        match zlib_inflate(content) {
                            Ok(v) => Ok((v, false)),
                            Err(_) => Err(PdfError::Decode),
                        }
                    } else {
                        Err(PdfError::Decode)
                    }
                }
                _ => Err(PdfError::Decode),
            }
        }
    }
}

/// The component count heuristic: a recognized color-space name decides;
/// otherwise the byte count against the pixel count decides; three is
/// the default.
pub open spec fn component_count(cs: Option<Seq<u8>>, len: nat, w: nat, h: nat) -> nat {
    match cs {
        Some(n) => if n == nm_device_gray() {
            1
        } else if n == nm_device_rgb() {
            3
        } else if n == nm_device_cmyk() {
            4
        } else {
            3
        },
        None => if len == w * h {
            1
        } else if len == w * h * 3 {
            3
        } else if len == w * h * 4 {
            4
        } else {
            3
        },
    }
}

/// A dictionary's dimension entry: an integer in range, else zero.
pub open spec fn dict_dim(m: Map<Seq<u8>, ObjView>, k: Seq<u8>) -> nat {
    match dict_opt(m, k) {
        Some(ObjView::Integer(i)) => if 0 <= i <= u32::MAX {
            i as nat
        } else {
            0
        },
        _ => 0,
    }
}

/// Reads a dimension entry from a dictionary.
pub fn read_dim(dict: &Dict, key: Vec<u8>) -> (r: u32)
    requires
        dict.wf(),
    ensures
        r as nat == dict_dim(dict.map_view(), key@),
{
    match dict.get(key.as_slice()) {
        Some(o) => match o {
            Object::Integer(i) => {
                let v = *i;
                if 0 <= v && v <= u32::MAX as i64 {
                    v as u32
                } else {
                    0
                }
            }
            _ => 0,
        },
        None => 0,
    }
}

/// The color-space name of an image dictionary, if the entry is a name.
pub open spec fn dict_cs(m: Map<Seq<u8>, ObjView>) -> Option<Seq<u8>> {
    match dict_opt(m, nm_color_space()) {
        Some(ObjView::Name(b)) => Some(b),
        _ => None,
    }
}

/// Reads the image dimensions, color-space name, and component count
/// from an image dictionary and its decoded payload length.
pub fn read_image_params(dict: &Dict, payload_len: usize) -> (r: (u32, u32, u8))
    requires
        dict.wf(),
    ensures
        r.0 as nat == dict_dim(dict.map_view(), nm_width()),
        r.1 as nat == dict_dim(dict.map_view(), nm_height()),
        r.2 as nat == component_count(
            dict_cs(dict.map_view()),
            payload_len as nat,
            r.0 as nat,
            r.1 as nat,
        ),
{
    let w = read_dim(dict, name_width());
    let h = read_dim(dict, name_height());
    let cskey = name_color_space();
    let cs = dict.get(cskey.as_slice());
    let c: u8 = match cs {
        Some(o) => match o {
            Object::Name(b) => {
                let gray = crate::names::name_device_gray();
                let rgb = crate::names::name_device_rgb();
                let cmyk = crate::names::name_device_cmyk();
                if bytes_eq(b.as_slice(), gray.as_slice()) {
                    1
                } else if bytes_eq(b.as_slice(), rgb.as_slice()) {
                    3
                } else if bytes_eq(b.as_slice(), cmyk.as_slice()) {
                    4
                } else {
                    3
                }
            }
            _ => {
                proof {
                    assert(dict_cs(dict.map_view()) is None);
                }
                infer_components(payload_len, w, h)
            }
        },
        None => infer_components(payload_len, w, h),
    };
    (w, h, c)
}

/// Infers the component count from the payload length alone.
fn infer_components(len: usize, w: u32, h: u32) -> (r: u8)
    ensures
        r as nat == component_count(None, len as nat, w as nat, h as nat),
{
    proof {
        assert((w as int) * (h as int) <= 0xffff_ffff * 0xffff_ffff && (w as int) * (h as int) * 4
            <= 0xffff_ffff * 0xffff_ffff * 4) by (nonlinear_arith)
            requires
                w <= 0xffff_ffff,
                h <= 0xffff_ffff,
        ;
    }
    let pixels: u128 = (w as u128) * (h as u128);
    let l = len as u128;
    if l == pixels {
        1
    } else if l == pixels * 3 {
        3
    } else if l == pixels * 4 {
        4
    } else {
        3
    }
}

} // verus!
