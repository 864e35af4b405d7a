use pdf_compressor::dict::Dict;
use pdf_compressor::document::Document;
use pdf_compressor::driver::compress_document;
use pdf_compressor::error::PdfError;
use pdf_compressor::object::{ObjId, Object, StreamObj};
use pdf_compressor::pipeline::{process_image_object, Action};

fn oid(n: u32) -> ObjId {
    ObjId { num: n, gen: 0 }
}

fn image_dict(w: i64, h: i64, cs: &[u8]) -> Dict {
    let mut d = Dict::new();
    d.set(b"Subtype".to_vec(), Object::Name(b"Image".to_vec()));
    d.set(b"Width".to_vec(), Object::Integer(w));
    d.set(b"Height".to_vec(), Object::Integer(h));
    d.set(b"ColorSpace".to_vec(), Object::Name(cs.to_vec()));
    d
}

fn rgb_pixels(w: usize, h: usize, px: (u8, u8, u8)) -> Vec<u8> {
    let mut v = Vec::new();
    for _ in 0..w * h {
        v.push(px.0);
        v.push(px.1);
        v.push(px.2);
    }
    v
}

fn stream(dict: Dict, content: Vec<u8>) -> Object {
    Object::Stream(StreamObj { dict, content })
}

fn get_stream(doc: &Document, id: ObjId) -> &StreamObj {
    match doc.get(id) {
        Some(Object::Stream(s)) => s,
        _ => panic!("expected a stream"),
    }
}

fn dict_name(d: &Dict, key: &[u8]) -> Vec<u8> {
    match d.get(key) {
        Some(Object::Name(b)) => b.clone(),
        _ => panic!("expected a name entry"),
    }
}

fn dict_int(d: &Dict, key: &[u8]) -> i64 {
    match d.get(key) {
        Some(Object::Integer(i)) => *i,
        _ => panic!("expected an integer entry"),
    }
}

#[test]
fn opaque_rgb_within_bound_keeps_dims() {
    let mut doc = Document::new();
    doc.insert(oid(1), stream(image_dict(4, 4, b"DeviceRGB"), rgb_pixels(4, 4, (200, 100, 50))));
    let rep = process_image_object(&mut doc, oid(1), 50, 1500).expect("processing must succeed");
    assert_eq!(rep.width, 4);
    assert_eq!(rep.height, 4);
    assert!(!rep.masked);
    let s = get_stream(&doc, oid(1));
    assert_eq!(dict_name(&s.dict, b"Filter"), b"DCTDecode".to_vec());
    assert_eq!(dict_name(&s.dict, b"ColorSpace"), b"DeviceRGB".to_vec());
    assert_eq!(dict_int(&s.dict, b"BitsPerComponent"), 8);
    assert_eq!(dict_int(&s.dict, b"Width"), 4);
    assert_eq!(dict_int(&s.dict, b"Height"), 4);
    assert_eq!(dict_int(&s.dict, b"Length"), s.content.len() as i64);
    assert!(s.dict.get(b"DecodeParms").is_none());
    assert!(s.dict.get(b"Decode").is_none());
    assert!(rep.actions.iter().any(|a| matches!(a, Action::KeptDims { .. })));
    assert!(rep.actions.iter().any(|a| matches!(a, Action::OpaqueReencode { .. })));
}

#[test]
fn end_to_end_lossy_roundtrip() {
    let mut doc = Document::new();
    doc.insert(oid(1), stream(image_dict(4, 4, b"DeviceRGB"), rgb_pixels(4, 4, (200, 100, 50))));
    let rep = process_image_object(&mut doc, oid(1), 50, 1500).expect("processing must succeed");
    assert_eq!((rep.width, rep.height), (4, 4));
    let s = get_stream(&doc, oid(1));
    assert_eq!(dict_int(&s.dict, b"Length"), s.content.len() as i64);
    let img = image::load_from_memory(&s.content).expect("output must be a decodable image");
    assert_eq!((img.width(), img.height()), (4, 4));
    let rgb = img.to_rgb8();
    for p in rgb.pixels() {
        assert!((p[0] as i32 - 200).abs() <= 40);
        assert!((p[1] as i32 - 100).abs() <= 40);
        assert!((p[2] as i32 - 50).abs() <= 40);
    }
}

#[test]
fn oversized_image_is_downscaled() {
    let mut doc = Document::new();
    doc.insert(
        oid(1),
        stream(image_dict(3000, 2, b"DeviceRGB"), rgb_pixels(3000, 2, (10, 20, 30))),
    );
    let rep = process_image_object(&mut doc, oid(1), 50, 1500).expect("processing must succeed");
    assert_eq!((rep.width, rep.height), (1500, 1));
    let s = get_stream(&doc, oid(1));
    assert_eq!(dict_int(&s.dict, b"Width"), 1500);
    assert_eq!(dict_int(&s.dict, b"Height"), 1);
    assert!(rep.actions.iter().any(|a| matches!(a, Action::Resized { .. })));
}

#[test]
fn same_dimension_mask_splits_streams() {
    let mut doc = Document::new();
    let mut idict = image_dict(4, 4, b"DeviceRGB");
    idict.set(b"SMask".to_vec(), Object::Reference(oid(2)));
    doc.insert(oid(1), stream(idict, rgb_pixels(4, 4, (9, 9, 9))));
    let alpha: Vec<u8> = (0..16).map(|i| (i * 16) as u8).collect();
    let mut mdict = Dict::new();
    mdict.set(b"Width".to_vec(), Object::Integer(4));
    mdict.set(b"Height".to_vec(), Object::Integer(4));
    doc.insert(oid(2), stream(mdict, alpha.clone()));
    let rep = process_image_object(&mut doc, oid(1), 50, 1500).expect("processing must succeed");
    assert!(rep.masked);
    assert!(rep.actions.iter().any(|a| matches!(a, Action::AppliedMask)));
    assert!(rep.actions.iter().any(|a| matches!(a, Action::SplitReencode)));
    let s = get_stream(&doc, oid(1));
    assert_eq!(dict_name(&s.dict, b"Filter"), b"DCTDecode".to_vec());
    assert_eq!(dict_name(&s.dict, b"ColorSpace"), b"DeviceRGB".to_vec());
    let m = get_stream(&doc, oid(2));
    assert_eq!(dict_name(&m.dict, b"Filter"), b"FlateDecode".to_vec());
    assert_eq!(dict_name(&m.dict, b"ColorSpace"), b"DeviceGray".to_vec());
    assert_eq!(dict_int(&m.dict, b"Length"), m.content.len() as i64);
    // The alpha plane survives the lossless codec exactly.
    let mut dec = flate2::read::ZlibDecoder::new(m.content.as_slice());
    let mut back = Vec::new();
    std::io::Read::read_to_end(&mut dec, &mut back).expect("mask must inflate");
    assert_eq!(back, alpha);
}

#[test]
fn mismatched_mask_is_left_untouched() {
    let mut doc = Document::new();
    let mut idict = image_dict(4, 4, b"DeviceRGB");
    idict.set(b"SMask".to_vec(), Object::Reference(oid(2)));
    doc.insert(oid(1), stream(idict, rgb_pixels(4, 4, (9, 9, 9))));
    let mut mdict = Dict::new();
    mdict.set(b"Width".to_vec(), Object::Integer(2));
    mdict.set(b"Height".to_vec(), Object::Integer(2));
    doc.insert(oid(2), stream(mdict, vec![1, 2, 3, 4]));
    let rep = process_image_object(&mut doc, oid(1), 50, 1500).expect("processing must succeed");
    assert!(!rep.masked);
    assert!(!rep.actions.iter().any(|a| matches!(a, Action::AppliedMask)));
    assert!(!rep.actions.iter().any(|a| matches!(a, Action::SplitReencode)));
    let m = get_stream(&doc, oid(2));
    assert_eq!(m.content, vec![1, 2, 3, 4]);
    assert_eq!(dict_int(&m.dict, b"Width"), 2);
    assert!(m.dict.get(b"Filter").is_none());
}

#[test]
fn driver_claims_mask_of_owner() {
    let mut doc = Document::new();
    let mut idict = image_dict(4, 4, b"DeviceRGB");
    idict.set(b"SMask".to_vec(), Object::Reference(oid(2)));
    doc.insert(oid(1), stream(idict, rgb_pixels(4, 4, (9, 9, 9))));
    // The mask is itself tagged as an image, but must not be resubmitted.
    let mdict = image_dict(4, 4, b"DeviceGray");
    let alpha: Vec<u8> = vec![255; 16];
    doc.insert(oid(2), stream(mdict, alpha));
    let submitted = compress_document(&mut doc, 50, 1500);
    assert_eq!(submitted.len(), 1);
    assert_eq!(submitted[0].0, oid(1));
    assert!(submitted[0].1.is_ok());
}

#[test]
fn driver_submits_each_image_once() {
    let mut doc = Document::new();
    doc.insert(oid(1), stream(image_dict(2, 2, b"DeviceRGB"), rgb_pixels(2, 2, (1, 2, 3))));
    doc.insert(oid(7), Object::Integer(5));
    doc.insert(oid(3), stream(image_dict(2, 2, b"DeviceRGB"), rgb_pixels(2, 2, (4, 5, 6))));
    let submitted = compress_document(&mut doc, 50, 1500);
    let ids: Vec<ObjId> = submitted.iter().map(|p| p.0).collect();
    assert_eq!(ids, vec![oid(1), oid(3)]);
    assert!(submitted.iter().all(|p| p.1.is_ok()));
}

#[test]
fn driver_leaves_other_objects_alone() {
    let mut doc = Document::new();
    doc.insert(oid(1), stream(image_dict(2, 2, b"DeviceRGB"), rgb_pixels(2, 2, (1, 2, 3))));
    doc.insert(oid(7), Object::Integer(5));
    let mut pagedict = Dict::new();
    pagedict.set(b"Subtype".to_vec(), Object::Name(b"Form".to_vec()));
    doc.insert(oid(8), stream(pagedict, vec![42, 43]));
    compress_document(&mut doc, 50, 1500);
    match doc.get(oid(7)) {
        Some(Object::Integer(v)) => assert_eq!(*v, 5),
        _ => panic!("non-image object must be untouched"),
    }
    let form = get_stream(&doc, oid(8));
    assert_eq!(form.content, vec![42, 43]);
    assert_eq!(dict_name(&form.dict, b"Subtype"), b"Form".to_vec());
}

#[test]
fn driver_keeps_failed_image_content() {
    let mut idict = image_dict(4, 4, b"DeviceRGB");
    idict.set(b"Filter".to_vec(), Object::Name(b"LZWDecode".to_vec()));
    let payload: Vec<u8> = vec![5; 48];
    let mut doc = Document::new();
    doc.insert(oid(1), stream(idict, payload.clone()));
    let submitted = compress_document(&mut doc, 50, 1500);
    assert_eq!(submitted.len(), 1);
    assert!(submitted[0].1.is_err());
    let s = get_stream(&doc, oid(1));
    assert_eq!(s.content, payload);
}

#[test]
fn flate_masked_split_roundtrip() {
    fn deflate(data: &[u8]) -> Vec<u8> {
        let mut enc = flate2::write::ZlibEncoder::new(Vec::new(), flate2::Compression::best());
        std::io::Write::write_all(&mut enc, data).unwrap();
        enc.finish().unwrap()
    }
    let raw = rgb_pixels(4, 4, (30, 60, 90));
    let alpha: Vec<u8> = (0..16).map(|i| 255 - (i * 16) as u8).collect();
    let mut idict = image_dict(4, 4, b"DeviceRGB");
    idict.set(b"Filter".to_vec(), Object::Name(b"FlateDecode".to_vec()));
    idict.set(b"SMask".to_vec(), Object::Reference(oid(2)));
    let mut mdict = Dict::new();
    mdict.set(b"Width".to_vec(), Object::Integer(4));
    mdict.set(b"Height".to_vec(), Object::Integer(4));
    mdict.set(b"Filter".to_vec(), Object::Name(b"FlateDecode".to_vec()));
    let mut doc = Document::new();
    doc.insert(oid(1), stream(idict, deflate(&raw)));
    doc.insert(oid(2), stream(mdict, deflate(&alpha)));
    let rep = process_image_object(&mut doc, oid(1), 80, 1500).expect("processing must succeed");
    assert!(rep.masked);
    let m = get_stream(&doc, oid(2));
    let mut dec = flate2::read::ZlibDecoder::new(m.content.as_slice());
    let mut back = Vec::new();
    std::io::Read::read_to_end(&mut dec, &mut back).expect("mask must inflate");
    assert_eq!(back, alpha);
}

#[test]
fn flate_encoded_samples_are_inflated() {
    let raw = rgb_pixels(4, 4, (200, 100, 50));
    let mut enc = flate2::write::ZlibEncoder::new(Vec::new(), flate2::Compression::best());
    std::io::Write::write_all(&mut enc, &raw).unwrap();
    let packed = enc.finish().unwrap();
    let mut idict = image_dict(4, 4, b"DeviceRGB");
    idict.set(b"Filter".to_vec(), Object::Name(b"FlateDecode".to_vec()));
    let mut doc = Document::new();
    doc.insert(oid(1), stream(idict, packed));
    let rep = process_image_object(&mut doc, oid(1), 80, 1500).expect("processing must succeed");
    assert_eq!((rep.width, rep.height), (4, 4));
    let s = get_stream(&doc, oid(1));
    let img = image::load_from_memory(&s.content).expect("output must decode");
    assert_eq!((img.width(), img.height()), (4, 4));
}

#[test]
fn indirect_filter_reference_is_resolved() {
    let raw = rgb_pixels(4, 4, (60, 70, 80));
    let mut enc = flate2::write::ZlibEncoder::new(Vec::new(), flate2::Compression::best());
    std::io::Write::write_all(&mut enc, &raw).unwrap();
    let packed = enc.finish().unwrap();
    let mut idict = image_dict(4, 4, b"DeviceRGB");
    idict.set(b"Filter".to_vec(), Object::Reference(oid(5)));
    let mut doc = Document::new();
    doc.insert(oid(5), Object::Name(b"FlateDecode".to_vec()));
    doc.insert(oid(1), stream(idict, packed));
    let rep = process_image_object(&mut doc, oid(1), 80, 1500).expect("processing must succeed");
    assert_eq!((rep.width, rep.height), (4, 4));
    // The resolved direct name was written back into the dictionary
    // before decoding, and then replaced by the output codec name.
    let s = get_stream(&doc, oid(1));
    assert_eq!(dict_name(&s.dict, b"Filter"), b"DCTDecode".to_vec());
}

#[test]
fn jpeg_passthrough_input() {
    let raw = rgb_pixels(4, 4, (120, 130, 140));
    let mut buf = Vec::new();
    let mut enc = image::codecs::jpeg::JpegEncoder::new_with_quality(&mut buf, 90);
    enc.encode(&raw, 4, 4, image::ExtendedColorType::Rgb8).unwrap();
    let mut idict = image_dict(4, 4, b"DeviceRGB");
    idict.set(b"Filter".to_vec(), Object::Name(b"DCTDecode".to_vec()));
    let mut doc = Document::new();
    doc.insert(oid(1), stream(idict, buf));
    let rep = process_image_object(&mut doc, oid(1), 80, 1500).expect("processing must succeed");
    assert!(rep.actions.iter().any(|a| matches!(a, Action::WasJpeg)));
    assert_eq!((rep.width, rep.height), (4, 4));
}

#[test]
fn gray_raw_samples() {
    let mut doc = Document::new();
    let gray: Vec<u8> = vec![77; 16];
    doc.insert(oid(1), stream(image_dict(4, 4, b"DeviceGray"), gray));
    let rep = process_image_object(&mut doc, oid(1), 50, 1500).expect("processing must succeed");
    assert_eq!((rep.width, rep.height), (4, 4));
    let s = get_stream(&doc, oid(1));
    assert_eq!(dict_int(&s.dict, b"Length"), s.content.len() as i64);
    let img = image::load_from_memory(&s.content).expect("output must decode");
    assert_eq!((img.width(), img.height()), (4, 4));
}

#[test]
fn cmyk_samples_convert_to_rgb() {
    let mut doc = Document::new();
    // Two by two, every pixel fully keyed: pure black.
    let cmyk: Vec<u8> = vec![0, 0, 0, 255].repeat(4);
    doc.insert(oid(1), stream(image_dict(2, 2, b"DeviceCMYK"), cmyk));
    let rep = process_image_object(&mut doc, oid(1), 90, 1500).expect("processing must succeed");
    assert!(rep.actions.iter().any(|a| matches!(a, Action::CmykToRgb)));
    let s = get_stream(&doc, oid(1));
    let rgb = image::load_from_memory(&s.content).expect("output must decode").to_rgb8();
    for p in rgb.pixels() {
        assert!(p[0] <= 16 && p[1] <= 16 && p[2] <= 16);
    }
}

#[test]
fn missing_object_is_stream_access_error() {
    let mut doc = Document::new();
    let r = process_image_object(&mut doc, oid(1), 50, 1500);
    assert_eq!(r.err().unwrap(), PdfError::StreamAccess);
}

#[test]
fn non_stream_object_is_stream_access_error() {
    let mut doc = Document::new();
    doc.insert(oid(1), Object::Integer(12));
    let r = process_image_object(&mut doc, oid(1), 50, 1500);
    assert_eq!(r.err().unwrap(), PdfError::StreamAccess);
}

#[test]
fn unsupported_filter_is_decode_error() {
    let mut idict = image_dict(4, 4, b"DeviceRGB");
    idict.set(b"Filter".to_vec(), Object::Name(b"LZWDecode".to_vec()));
    let mut doc = Document::new();
    doc.insert(oid(1), stream(idict, vec![0; 48]));
    let r = process_image_object(&mut doc, oid(1), 50, 1500);
    assert_eq!(r.err().unwrap(), PdfError::Decode);
}

#[test]
fn zero_dimension_is_encode_error() {
    let mut doc = Document::new();
    doc.insert(oid(1), stream(image_dict(0, 0, b"DeviceRGB"), Vec::new()));
    let r = process_image_object(&mut doc, oid(1), 50, 1500);
    assert_eq!(r.err().unwrap(), PdfError::Encode);
}

#[test]
fn failed_image_keeps_original_content() {
    let mut idict = image_dict(4, 4, b"DeviceRGB");
    idict.set(b"Filter".to_vec(), Object::Name(b"LZWDecode".to_vec()));
    let payload: Vec<u8> = vec![5; 48];
    let mut doc = Document::new();
    doc.insert(oid(1), stream(idict, payload.clone()));
    let _ = process_image_object(&mut doc, oid(1), 50, 1500);
    let s = get_stream(&doc, oid(1));
    assert_eq!(s.content, payload);
}
