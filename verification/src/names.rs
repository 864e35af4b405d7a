//! The dictionary keys and name values the core reads and writes,
//! as byte strings.

use vstd::prelude::*;
use vstd::slice::slice_to_vec;

verus! {

/// The name `Subtype`, as a byte sequence.
pub open spec fn nm_subtype() -> Seq<u8> {
    seq![83u8, 117u8, 98u8, 116u8, 121u8, 112u8, 101u8]
}

/// The name `Subtype`, as bytes.
pub fn name_subtype() -> (r: Vec<u8>)
    ensures
        r@ == nm_subtype(),
{
    let a: [u8; 7] = [83, 117, 98, 116, 121, 112, 101];
    let v = slice_to_vec(a.as_slice());
    proof {
        assert(v@ =~= nm_subtype());
    }
    v
}

/// The name `Filter`, as a byte sequence.
pub open spec fn nm_filter() -> Seq<u8> {
    seq![70u8, 105u8, 108u8, 116u8, 101u8, 114u8]
}

/// The name `Filter`, as bytes.
pub fn name_filter() -> (r: Vec<u8>)
    ensures
        r@ == nm_filter(),
{
    let a: [u8; 6] = [70, 105, 108, 116, 101, 114];
    let v = slice_to_vec(a.as_slice());
    proof {
        assert(v@ =~= nm_filter());
    }
    v
}

/// The name `DecodeParms`, as a byte sequence.
pub open spec fn nm_decode_parms() -> Seq<u8> {
    seq![68u8, 101u8, 99u8, 111u8, 100u8, 101u8, 80u8, 97u8, 114u8, 109u8, 115u8]
}

/// The name `DecodeParms`, as bytes.
pub fn name_decode_parms() -> (r: Vec<u8>)
    ensures
        r@ == nm_decode_parms(),
{
    let a: [u8; 11] = [68, 101, 99, 111, 100, 101, 80, 97, 114, 109, 115];
    let v = slice_to_vec(a.as_slice());
    proof {
        assert(v@ =~= nm_decode_parms());
    }
    v
}

/// The name `SMask`, as a byte sequence.
pub open spec fn nm_smask() -> Seq<u8> {
    seq![83u8, 77u8, 97u8, 115u8, 107u8]
}

/// The name `SMask`, as bytes.
pub fn name_smask() -> (r: Vec<u8>)
    ensures
        r@ == nm_smask(),
{
    let a: [u8; 5] = [83, 77, 97, 115, 107];
    let v = slice_to_vec(a.as_slice());
    proof {
        assert(v@ =~= nm_smask());
    }
    v
}

/// The name `Width`, as a byte sequence.
pub open spec fn nm_width() -> Seq<u8> {
    seq![87u8, 105u8, 100u8, 116u8, 104u8]
}

/// The name `Width`, as bytes.
pub fn name_width() -> (r: Vec<u8>)
    ensures
        r@ == nm_width(),
{
    let a: [u8; 5] = [87, 105, 100, 116, 104];
    let v = slice_to_vec(a.as_slice());
    proof {
        assert(v@ =~= nm_width());
    }
    v
}

/// The name `Height`, as a byte sequence.
pub open spec fn nm_height() -> Seq<u8> {
    seq![72u8, 101u8, 105u8, 103u8, 104u8, 116u8]
}

/// The name `Height`, as bytes.
pub fn name_height() -> (r: Vec<u8>)
    ensures
        r@ == nm_height(),
{
    let a: [u8; 6] = [72, 101, 105, 103, 104, 116];
    let v = slice_to_vec(a.as_slice());
    proof {
        assert(v@ =~= nm_height());
    }
    v
}

/// The name `ColorSpace`, as a byte sequence.
pub open spec fn nm_color_space() -> Seq<u8> {
    seq![67u8, 111u8, 108u8, 111u8, 114u8, 83u8, 112u8, 97u8, 99u8, 101u8]
}

/// The name `ColorSpace`, as bytes.
pub fn name_color_space() -> (r: Vec<u8>)
    ensures
        r@ == nm_color_space(),
{
    let a: [u8; 10] = [67, 111, 108, 111, 114, 83, 112, 97, 99, 101];
    let v = slice_to_vec(a.as_slice());
    proof {
        assert(v@ =~= nm_color_space());
    }
    v
}

/// The name `BitsPerComponent`, as a byte sequence.
pub open spec fn nm_bits_per_component() -> Seq<u8> {
    seq![66u8, 105u8, 116u8, 115u8, 80u8, 101u8, 114u8, 67u8, 111u8, 109u8, 112u8, 111u8, 110u8, 101u8, 110u8, 116u8]
}

/// The name `BitsPerComponent`, as bytes.
pub fn name_bits_per_component() -> (r: Vec<u8>)
    ensures
        r@ == nm_bits_per_component(),
{
    let a: [u8; 16] = [66, 105, 116, 115, 80, 101, 114, 67, 111, 109, 112, 111, 110, 101, 110, 116];
    let v = slice_to_vec(a.as_slice());
    proof {
        assert(v@ =~= nm_bits_per_component());
    }
    v
}

/// The name `Length`, as a byte sequence.
pub open spec fn nm_length() -> Seq<u8> {
    seq![76u8, 101u8, 110u8, 103u8, 116u8, 104u8]
}

/// The name `Length`, as bytes.
pub fn name_length() -> (r: Vec<u8>)
    ensures
        r@ == nm_length(),
{
    let a: [u8; 6] = [76, 101, 110, 103, 116, 104];
    let v = slice_to_vec(a.as_slice());
    proof {
        assert(v@ =~= nm_length());
    }
    v
}

/// The name `Decode`, as a byte sequence.
pub open spec fn nm_decode() -> Seq<u8> {
    seq![68u8, 101u8, 99u8, 111u8, 100u8, 101u8]
}

/// The name `Decode`, as bytes.
pub fn name_decode() -> (r: Vec<u8>)
    ensures
        r@ == nm_decode(),
{
    let a: [u8; 6] = [68, 101, 99, 111, 100, 101];
    let v = slice_to_vec(a.as_slice());
    proof {
        assert(v@ =~= nm_decode());
    }
    v
}

/// The name `Image`, as a byte sequence.
pub open spec fn nm_image() -> Seq<u8> {
    seq![73u8, 109u8, 97u8, 103u8, 101u8]
}

/// The name `Image`, as bytes.
pub fn name_image() -> (r: Vec<u8>)
    ensures
        r@ == nm_image(),
{
    let a: [u8; 5] = [73, 109, 97, 103, 101];
    let v = slice_to_vec(a.as_slice());
    proof {
        assert(v@ =~= nm_image());
    }
    v
}

/// The name `FlateDecode`, as a byte sequence.
pub open spec fn nm_flate_decode() -> Seq<u8> {
    seq![70u8, 108u8, 97u8, 116u8, 101u8, 68u8, 101u8, 99u8, 111u8, 100u8, 101u8]
}

/// The name `FlateDecode`, as bytes.
pub fn name_flate_decode() -> (r: Vec<u8>)
    ensures
        r@ == nm_flate_decode(),
{
    let a: [u8; 11] = [70, 108, 97, 116, 101, 68, 101, 99, 111, 100, 101];
    let v = slice_to_vec(a.as_slice());
    proof {
        assert(v@ =~= nm_flate_decode());
    }
    v
}

/// The name `DCTDecode`, as a byte sequence.
pub open spec fn nm_dct_decode() -> Seq<u8> {
    seq![68u8, 67u8, 84u8, 68u8, 101u8, 99u8, 111u8, 100u8, 101u8]
}

/// The name `DCTDecode`, as bytes.
pub fn name_dct_decode() -> (r: Vec<u8>)
    ensures
        r@ == nm_dct_decode(),
{
    let a: [u8; 9] = [68, 67, 84, 68, 101, 99, 111, 100, 101];
    let v = slice_to_vec(a.as_slice());
    proof {
        assert(v@ =~= nm_dct_decode());
    }
    v
}

/// The name `DeviceRGB`, as a byte sequence.
pub open spec fn nm_device_rgb() -> Seq<u8> {
    seq![68u8, 101u8, 118u8, 105u8, 99u8, 101u8, 82u8, 71u8, 66u8]
}

/// The name `DeviceRGB`, as bytes.
pub fn name_device_rgb() -> (r: Vec<u8>)
    ensures
        r@ == nm_device_rgb(),
{
    let a: [u8; 9] = [68, 101, 118, 105, 99, 101, 82, 71, 66];
    let v = slice_to_vec(a.as_slice());
    proof {
        assert(v@ =~= nm_device_rgb());
    }
    v
}

/// The name `DeviceGray`, as a byte sequence.
pub open spec fn nm_device_gray() -> Seq<u8> {
    seq![68u8, 101u8, 118u8, 105u8, 99u8, 101u8, 71u8, 114u8, 97u8, 121u8]
}

/// The name `DeviceGray`, as bytes.
pub fn name_device_gray() -> (r: Vec<u8>)
    ensures
        r@ == nm_device_gray(),
{
    let a: [u8; 10] = [68, 101, 118, 105, 99, 101, 71, 114, 97, 121];
    let v = slice_to_vec(a.as_slice());
    proof {
        assert(v@ =~= nm_device_gray());
    }
    v
}

/// The name `DeviceCMYK`, as a byte sequence.
pub open spec fn nm_device_cmyk() -> Seq<u8> {
    seq![68u8, 101u8, 118u8, 105u8, 99u8, 101u8, 67u8, 77u8, 89u8, 75u8]
}

/// The name `DeviceCMYK`, as bytes.
pub fn name_device_cmyk() -> (r: Vec<u8>)
    ensures
        r@ == nm_device_cmyk(),
{
    let a: [u8; 10] = [68, 101, 118, 105, 99, 101, 67, 77, 89, 75];
    let v = slice_to_vec(a.as_slice());
    proof {
        assert(v@ =~= nm_device_cmyk());
    }
    v
}

} // verus!
