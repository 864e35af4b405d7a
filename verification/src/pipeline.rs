//! The per-image pipeline: resolve, decode, interpret, composite the
//! soft mask, downscale, re-encode, and write back.

use vstd::prelude::*;
use crate::codec::{jpeg_encode_gray, jpeg_encode_rgb, jpeg_rgb, zlib_deflate, zlib_inflated};
use crate::decode::{
    chain_is_jpeg, decode_stream, decoded_stream, dict_cs, dict_dim, dict_opt, read_dim,
    read_image_params,
};
use crate::dict::dict_map;
use crate::document::Document;
use crate::error::PdfError;
use crate::interpret::{interpret_samples, SampleOrigin};
use crate::names::{
    name_decode_parms, name_filter, name_height, name_smask, name_width, nm_dct_decode,
    nm_decode_parms, nm_device_cmyk, nm_device_gray, nm_device_rgb, nm_filter, nm_flate_decode,
    nm_height, nm_smask, nm_width,
};
use crate::object::{clone_bytes, ObjId, Object, ObjView, StreamObj, StreamView};
use crate::pixels::{apply_alpha, promote_rgba, rgb_plane, split_alpha, split_rgb};
use crate::resize::{resize_buffer, resize_target};
use crate::resolve::{resolve_dict_entry, resolved_entry};
use crate::writer::{write_stream, written_dict};

verus! {

/// One tag per thing that happened to an image.
#[derive(Clone, Copy, PartialEq, Eq, Structural, Debug)]
pub enum Action {
    /// The stream came in JPEG-encoded and its bytes were passed through.
    WasJpeg,
    /// Packed CMYK samples were converted to RGB.
    CmykToRgb,
    /// A same-dimension soft mask was composited in as alpha.
    AppliedMask,
    /// The buffer was downscaled.
    Resized { from_w: u32, from_h: u32, to_w: u32, to_h: u32 },
    /// Both dimensions were within the bound; nothing was scaled.
    KeptDims { w: u32, h: u32 },
    /// Transparent output: a lossy color stream plus a lossless alpha
    /// stream.
    SplitReencode,
    /// Opaque output: one lossy stream.
    OpaqueReencode { quality: u8 },
}

/// What happened to one image.
pub struct ProcessReport {
    /// The ordered action tags, for reporting.
    pub actions: Vec<Action>,
    /// The written image width.
    pub width: u32,
    /// The written image height.
    pub height: u32,
    /// Whether a soft mask was composited and a pair of streams written.
    pub masked: bool,
}

/// The stream bound to an identifier, if the identifier is bound to a
/// stream.
pub open spec fn stream_at(doc: Map<ObjId, ObjView>, id: ObjId) -> Option<StreamView> {
    if doc.contains_key(id) {
        match doc[id] {
            ObjView::Stream(sv) => Some(sv),
            _ => None,
        }
    } else {
        None
    }
}

/// The soft-mask reference of an image dictionary, if the entry is a
/// direct reference.
pub open spec fn smask_ref(m: Map<Seq<u8>, ObjView>) -> Option<ObjId> {
    match dict_opt(m, nm_smask()) {
        Some(ObjView::Reference(r)) => Some(r),
        _ => None,
    }
}

/// The mask the pipeline may composite and rewrite: a self-reference is
/// ignored.
pub open spec fn effective_smask(m: Map<Seq<u8>, ObjView>, id: ObjId) -> Option<ObjId> {
    match smask_ref(m) {
        Some(r) => if r == id {
            None
        } else {
            Some(r)
        },
        None => None,
    }
}

/// One key of a dictionary after resolution against the document.
pub open spec fn resolve_key(
    doc: Map<ObjId, ObjView>,
    m: Map<Seq<u8>, ObjView>,
    k: Seq<u8>,
) -> Map<Seq<u8>, ObjView> {
    match dict_opt(m, k) {
        Some(v) => match resolved_entry(doc, v) {
            Some(nv) => m.insert(k, nv),
            None => m,
        },
        None => m,
    }
}

/// An image dictionary after its `Filter` and `DecodeParms` entries are
/// resolved.
pub open spec fn resolved_dict(
    doc: Map<ObjId, ObjView>,
    m: Map<Seq<u8>, ObjView>,
) -> Map<Seq<u8>, ObjView> {
    resolve_key(doc, resolve_key(doc, m, nm_filter()), nm_decode_parms())
}

/// A value that resolution never rewrites, in any document: not a
/// reference, and not an array holding one.
pub open spec fn resolution_inert(v: ObjView) -> bool {
    &&& !(v is Reference)
    &&& (v matches ObjView::Array(items) ==> forall|i: int|
        0 <= i < items.len() ==> !(#[trigger] items[i] is Reference))
}

/// Resolution leaves an inert value alone.
pub proof fn lemma_inert_entry(doc: Map<ObjId, ObjView>, v: ObjView)
    requires
        resolution_inert(v),
    ensures
        resolved_entry(doc, v) is None,
{
    match v {
        ObjView::Array(items) => {
            assert(!crate::resolve::any_item_resolves(doc, items)) by {
                if crate::resolve::any_item_resolves(doc, items) {
                    let i = choose|i: int|
                        0 <= i < items.len() && (#[trigger] items[i] matches ObjView::Reference(r)
                            && doc.contains_key(r));
                    assert(items[i] is Reference);
                }
            }
        }
        _ => {}
    }
}

/// A dictionary whose `Filter` and `DecodeParms` entries resolution
/// never rewrites, whatever the rest of the document holds.
pub open spec fn resolution_free(m: Map<Seq<u8>, ObjView>) -> bool {
    &&& (dict_opt(m, nm_filter()) matches Some(v) ==> resolution_inert(v))
    &&& (dict_opt(m, nm_decode_parms()) matches Some(v) ==> resolution_inert(v))
}

/// A resolution-free dictionary is a fixpoint of resolution.
pub proof fn lemma_resolution_free(doc: Map<ObjId, ObjView>, m: Map<Seq<u8>, ObjView>)
    requires
        resolution_free(m),
    ensures
        resolved_dict(doc, m) == m,
{
    match dict_opt(m, nm_filter()) {
        Some(v) => {
            lemma_inert_entry(doc, v);
        }
        None => {}
    }
    match dict_opt(m, nm_decode_parms()) {
        Some(v) => {
            lemma_inert_entry(doc, v);
        }
        None => {}
    }
}

/// Whether the pipeline on `id` is allowed to rewrite `k`.
pub open spec fn may_touch(doc0: Map<ObjId, ObjView>, id: ObjId, k: ObjId) -> bool {
    k == id || (stream_at(doc0, id) matches Some(sv) && effective_smask(dict_map(sv.dict), id)
        == Some(k))
}

/// The decoded RGB samples of a stream on which the pipeline's whole
/// behaviour is determined: resolution cannot rewrite its dictionary,
/// the color space is `DeviceRGB`, and the payload decodes and covers
/// the dictionary dimensions. `None` where any of that fails.
pub open spec fn rgb_samples_of(sv: StreamView) -> Option<Seq<u8>> {
    let m = dict_map(sv.dict);
    if resolution_free(m) && dict_cs(m) == Some(nm_device_rgb()) {
        match decoded_stream(dict_opt(m, nm_filter()), sv.content) {
            Some(p) => if p.len() >= dict_dim(m, nm_width()) * dict_dim(m, nm_height()) * 3 {
                Some(p)
            } else {
                None
            },
            None => None,
        }
    } else {
        None
    }
}

/// The decoded samples of a soft-mask stream whose decode is fully
/// determined: a stream whose chain is not the JPEG passthrough and
/// whose payload decodes.
pub open spec fn mask_decoded(doc0: Map<ObjId, ObjView>, mid: ObjId) -> Option<Seq<u8>> {
    match stream_at(doc0, mid) {
        Some(msv) => {
            let mm = dict_map(msv.dict);
            if !chain_is_jpeg(dict_opt(mm, nm_filter())) {
                decoded_stream(dict_opt(mm, nm_filter()), msv.content)
            } else {
                None
            }
        }
        None => None,
    }
}

/// Dictionary dimensions at least one, within the caller's bound and
/// the lossy codec's own.
pub open spec fn rgb_in_bounds(sv: StreamView, max_dim: u32) -> bool {
    let m = dict_map(sv.dict);
    let w = dict_dim(m, nm_width());
    let h = dict_dim(m, nm_height());
    &&& 1 <= w <= max_dim
    &&& 1 <= h <= max_dim
    &&& w <= 65535
    &&& h <= 65535
}

/// The opaque case: a decodable in-bound `DeviceRGB` stream, no mask.
pub open spec fn plain_rgb_case(sv: StreamView, max_dim: u32) -> bool {
    &&& rgb_samples_of(sv) is Some
    &&& rgb_in_bounds(sv, max_dim)
    &&& smask_ref(dict_map(sv.dict)) is None
}

/// The transparent case: the opaque case except for a decodable soft
/// mask of the same dimensions with enough samples.
pub open spec fn masked_rgb_case(doc0: Map<ObjId, ObjView>, id: ObjId, max_dim: u32) -> bool {
    stream_at(doc0, id) matches Some(sv) && {
        let m = dict_map(sv.dict);
        let w = dict_dim(m, nm_width());
        let h = dict_dim(m, nm_height());
        &&& rgb_samples_of(sv) is Some
        &&& rgb_in_bounds(sv, max_dim)
        &&& smask_ref(m) matches Some(mid) && mid != id && (mask_decoded(doc0, mid) matches Some(
            mp,
        ) && {
            let mm = dict_map(stream_at(doc0, mid).unwrap().dict);
            &&& mp.len() >= w * h
            &&& dict_dim(mm, nm_width()) == w
            &&& dict_dim(mm, nm_height()) == h
        })
    }
}

/// The mismatch case: the opaque case except for a decodable soft mask
/// whose dictionary dimensions differ from the image's.
pub open spec fn mismatched_mask_case(doc0: Map<ObjId, ObjView>, id: ObjId, max_dim: u32) -> bool {
    stream_at(doc0, id) matches Some(sv) && {
        let m = dict_map(sv.dict);
        let w = dict_dim(m, nm_width());
        let h = dict_dim(m, nm_height());
        &&& rgb_samples_of(sv) is Some
        &&& rgb_in_bounds(sv, max_dim)
        &&& smask_ref(m) matches Some(mid) && mid != id && mask_decoded(doc0, mid) is Some && {
            let mm = dict_map(stream_at(doc0, mid).unwrap().dict);
            !(dict_dim(mm, nm_width()) == w && dict_dim(mm, nm_height()) == h)
        }
    }
}

/// The downscale case: a decodable `DeviceRGB` stream, no mask, at
/// least one pixel on each side, past the bound; the bound itself is
/// positive and within the codec's range.
pub open spec fn oversized_rgb_case(sv: StreamView, max_dim: u32) -> bool {
    let m = dict_map(sv.dict);
    let w = dict_dim(m, nm_width());
    let h = dict_dim(m, nm_height());
    &&& rgb_samples_of(sv) is Some
    &&& smask_ref(m) is None
    &&& w >= 1
    &&& h >= 1
    &&& (w > max_dim || h > max_dim)
    &&& 1 <= max_dim <= 65535
}

/// Processes one image object: decodes its samples, composites a
/// same-dimension soft mask, downscales past the bound, re-encodes, and
/// writes the stream (and mask stream) back with consistent fields.
/// Every failure leaves all content bytes as they were; only the two
/// spoken-for objects are ever touched. On the four fully determined
/// classes of input -- opaque, masked, mismatched-mask, and oversized
/// decodable `DeviceRGB` streams -- success is owed and the outcome is
/// pinned down to the encoded bytes or the downscaled dimensions.
#[verifier::rlimit(100)]
pub fn process_image_object(
    doc: &mut Document,
    object_id: ObjId,
    quality: u8,
    max_dim: u32,
) -> (r: Result<ProcessReport, PdfError>)
    requires
        old(doc).wf(),
    ensures
        final(doc).wf(),
        final(doc).ids() == old(doc).ids(),
        forall|k: ObjId|
            old(doc)@.contains_key(k) && !may_touch(old(doc)@, object_id, k)
                ==> #[trigger] final(doc)@.index(k) == old(doc)@.index(k),
        stream_at(old(doc)@, object_id) is None ==> r == Err::<ProcessReport, PdfError>(
            PdfError::StreamAccess,
        ) && final(doc)@ == old(doc)@,
        r != Err::<ProcessReport, PdfError>(PdfError::ColorConversion),
        r == Err::<ProcessReport, PdfError>(PdfError::StreamAccess) ==> (stream_at(
            old(doc)@,
            object_id,
        ) is None || (stream_at(old(doc)@, object_id) matches Some(sv) && (effective_smask(
            dict_map(sv.dict),
            object_id,
        ) matches Some(mid) && stream_at(old(doc)@, mid) is None))),
        r is Err ==> (stream_at(old(doc)@, object_id) matches Some(sv) ==> (stream_at(
            final(doc)@,
            object_id,
        ) matches Some(nsv) && nsv.content == sv.content && dict_map(nsv.dict) == resolved_dict(
            old(doc)@,
            dict_map(sv.dict),
        ) && (effective_smask(dict_map(sv.dict), object_id) matches Some(mid)
            ==> final(doc)@.index(mid) == old(doc)@.index(mid)))),
        r matches Ok(rep) ==> (stream_at(old(doc)@, object_id) matches Some(sv) && {
            let m0 = resolved_dict(old(doc)@, dict_map(sv.dict));
            &&& stream_at(final(doc)@, object_id) matches Some(nsv) && dict_map(nsv.dict)
                == written_dict(
                m0,
                nm_dct_decode(),
                nm_device_rgb(),
                rep.width,
                rep.height,
                nsv.content.len() as int,
            )
            &&& rep.masked ==> (effective_smask(dict_map(sv.dict), object_id) matches Some(mid)
                && (stream_at(final(doc)@, mid) matches Some(nmsv) && (stream_at(
                old(doc)@,
                mid,
            ) matches Some(msv) && dict_map(nmsv.dict) == written_dict(
                dict_map(msv.dict),
                nm_flate_decode(),
                nm_device_gray(),
                rep.width,
                rep.height,
                nmsv.content.len() as int,
            )) && (zlib_inflated(nmsv.content) matches Some(a) && a.len() == rep.width
                * rep.height)))
            &&& !rep.masked ==> (effective_smask(dict_map(sv.dict), object_id) matches Some(mid)
                ==> final(doc)@.index(mid) == old(doc)@.index(mid))
        }),
        stream_at(old(doc)@, object_id) matches Some(sv) ==> plain_rgb_case(sv, max_dim) ==> (
        r matches Ok(rep) && {
            let m = dict_map(sv.dict);
            let w = dict_dim(m, nm_width());
            let h = dict_dim(m, nm_height());
            let p = rgb_samples_of(sv).unwrap();
            &&& rep.width == w
            &&& rep.height == h
            &&& !rep.masked
            &&& stream_at(final(doc)@, object_id) matches Some(nsv) && nsv.content == jpeg_rgb(
                p.take((w * h * 3) as int),
                rep.width,
                rep.height,
                quality,
            )
        }),
        masked_rgb_case(old(doc)@, object_id, max_dim) ==> (r matches Ok(rep) && (stream_at(
            old(doc)@,
            object_id,
        ) matches Some(sv) && {
            let m = dict_map(sv.dict);
            let w = dict_dim(m, nm_width());
            let h = dict_dim(m, nm_height());
            let p = rgb_samples_of(sv).unwrap();
            &&& rep.width == w
            &&& rep.height == h
            &&& rep.masked
            &&& stream_at(final(doc)@, object_id) matches Some(nsv) && nsv.content == jpeg_rgb(
                p.take((w * h * 3) as int),
                rep.width,
                rep.height,
                quality,
            )
            &&& smask_ref(m) matches Some(mid) && (stream_at(final(doc)@, mid) matches Some(nmsv)
                && zlib_inflated(nmsv.content) == Some(
                mask_decoded(old(doc)@, mid).unwrap().take((w * h) as int),
            ))
        })),
        mismatched_mask_case(old(doc)@, object_id, max_dim) ==> (r matches Ok(rep) && (stream_at(
            old(doc)@,
            object_id,
        ) matches Some(sv) && {
            let m = dict_map(sv.dict);
            let w = dict_dim(m, nm_width());
            let h = dict_dim(m, nm_height());
            let p = rgb_samples_of(sv).unwrap();
            &&& rep.width == w
            &&& rep.height == h
            &&& !rep.masked
            &&& stream_at(final(doc)@, object_id) matches Some(nsv) && nsv.content == jpeg_rgb(
                p.take((w * h * 3) as int),
                rep.width,
                rep.height,
                quality,
            )
            &&& smask_ref(m) matches Some(mid) ==> final(doc)@.index(mid) == old(doc)@.index(mid)
        })),
        stream_at(old(doc)@, object_id) matches Some(sv) ==> oversized_rgb_case(sv, max_dim)
            ==> (r matches Ok(rep) && (rep.width as nat, rep.height as nat) == resize_target(
            dict_dim(dict_map(sv.dict), nm_width()),
            dict_dim(dict_map(sv.dict), nm_height()),
            max_dim as nat,
        )),
{
    let ghost doc0 = doc@;
    // Fetch the image stream; clone its dictionary and content.
    let (dict0, content0) = match doc.get(object_id) {
        Some(o) => match o {
            Object::Stream(s) => (s.dict.deep_clone(), clone_bytes(&s.content)),
            _ => {
                return Err(PdfError::StreamAccess);
            }
        },
        None => {
            return Err(PdfError::StreamAccess);
        }
    };
    let ghost sv = stream_at(doc0, object_id).unwrap();
    let ghost m = dict_map(sv.dict);
    let ghost w0 = dict_dim(m, nm_width());
    let ghost h0 = dict_dim(m, nm_height());
    let ghost p0 = rgb_samples_of(sv);
    let ghost scen_p = plain_rgb_case(sv, max_dim);
    let ghost scen_m = masked_rgb_case(doc0, object_id, max_dim);
    let ghost scen_mm = mismatched_mask_case(doc0, object_id, max_dim);
    let ghost scen_o = oversized_rgb_case(sv, max_dim);
    let ghost img_scen = scen_p || scen_m || scen_mm || scen_o;
    proof {
        assert(crate::document::stream_wf(doc0.index(object_id)));
        assert(dict0@ == sv.dict);
        assert(dict0.wf());
    }
    // The soft-mask reference, a self-reference ignored.
    let skey = name_smask();
    let smask: Option<ObjId> = match dict0.get(skey.as_slice()) {
        Some(o) => match o {
            Object::Reference(rid) => {
                if rid.num == object_id.num && rid.gen == object_id.gen {
                    None
                } else {
                    Some(*rid)
                }
            }
            _ => None,
        },
        None => None,
    };
    proof {
        assert(smask == effective_smask(dict_map(sv.dict), object_id));
    }
    // Resolve indirect Filter / DecodeParms entries, and persist them.
    let mut dict = dict0;
    resolve_dict_entry(doc, &mut dict, name_filter());
    resolve_dict_entry(doc, &mut dict, name_decode_parms());
    proof {
        assert(dict.map_view() == resolved_dict(doc0, dict_map(sv.dict)));
        if img_scen {
            lemma_resolution_free(doc0, m);
            assert(dict.map_view() == m);
        }
    }
    doc.insert(
        object_id,
        Object::Stream(StreamObj { dict: dict.deep_clone(), content: clone_bytes(&content0) }),
    );
    let mut actions: Vec<Action> = Vec::new();
    // Decode the payload.
    let (payload, was_jpeg) = match decode_stream(&dict, &content0) {
        Ok(p) => p,
        Err(e) => {
            return Err(e);
        }
    };
    proof {
        if img_scen {
            assert(payload@ == p0.unwrap());
        }
    }
    if was_jpeg {
        actions.push(Action::WasJpeg);
    }
    // Dimensions and component count.
    let (w, h, c) = read_image_params(&dict, payload.len());
    proof {
        if img_scen {
            assert(w as nat == w0 && h as nat == h0);
            assert(dict_cs(m) == Some(nm_device_rgb()));
            // The recognized color-space names are pairwise distinct.
            assert(nm_device_rgb().len() == 9 && nm_device_gray().len() == 10
                && nm_device_cmyk().len() == 10);
            assert(c == 3);
            assert(payload@.len() >= w0 * h0 * 3);
        }
    }
    proof {
        assert(c == 1 || c == 3 || c == 4);
    }
    if c == 4 {
        actions.push(Action::CmykToRgb);
    }
    let (buf, origin) = match interpret_samples(w, h, c, payload) {
        Ok(p) => p,
        Err(e) => {
            return Err(e);
        }
    };
    proof {
        if img_scen {
            assert(origin == SampleOrigin::RawRgb);
            assert(buf.width == w && buf.height == h && buf.channels == 3);
            assert(buf.data@ == p0.unwrap().take((w0 * h0 * 3) as int));
        }
    }
    // Composite the soft mask where the dimensions agree.
    let mut buf = buf;
    let mut masked = false;
    if let Some(mid) = smask {
        let ghost msv_opt = stream_at(doc0, mid);
        let ghost mp0 = mask_decoded(doc0, mid);
        proof {
            if scen_m || scen_mm {
                assert(smask_ref(m) == Some(mid));
                assert(doc@.index(mid) == doc0.index(mid));
                assert(msv_opt is Some);
            }
        }
        let (mdict, mcontent) = match doc.get(mid) {
            Some(o) => match o {
                Object::Stream(s) => (s.dict.deep_clone(), clone_bytes(&s.content)),
                _ => {
                    return Err(PdfError::StreamAccess);
                }
            },
            None => {
                return Err(PdfError::StreamAccess);
            }
        };
        proof {
            assert(crate::document::stream_wf(doc@.index(mid)));
            assert(mdict.wf());
        }
        proof {
            if scen_m || scen_mm {
                assert(mdict@ == msv_opt.unwrap().dict && mcontent@ == msv_opt.unwrap().content);
                assert(!chain_is_jpeg(dict_opt(dict_map(mdict@), nm_filter())));
            }
        }
        let (mpayload, mask_jpeg) = match decode_stream(&mdict, &mcontent) {
            Ok(p) => p,
            Err(e) => {
                return Err(e);
            }
        };
        proof {
            if scen_m || scen_mm {
                assert(!mask_jpeg);
                assert(mpayload@ == mp0.unwrap());
            }
        }
        if mask_jpeg {
            return Err(PdfError::Decode);
        }
        let mw = read_dim(&mdict, name_width());
        let mh = read_dim(&mdict, name_height());
        proof {
            if scen_m {
                assert(mw as nat == w0 && mh as nat == h0);
                assert(mpayload@.len() >= w0 * h0);
            }
            if scen_mm {
                assert(!(mw == buf.width && mh == buf.height));
            }
        }
        if mw == buf.width && mh == buf.height {
            proof {
                assert((mw as int) * (mh as int) <= 0xffff_ffff * 0xffff_ffff)
                    by (nonlinear_arith)
                    requires
                        mw <= 0xffff_ffff,
                        mh <= 0xffff_ffff,
                ;
            }
            let pixels: u128 = (mw as u128) * (mh as u128);
            if (mpayload.len() as u128) < pixels {
                return Err(PdfError::Decode);
            }
            let ghost pre_mask = buf;
            buf = promote_rgba(buf);
            apply_alpha(&mut buf, &mpayload);
            masked = true;
            proof {
                if scen_m {
                    assert(pre_mask.data@.len() % 3 == 0) by (nonlinear_arith)
                        requires
                            pre_mask.data@.len() == (pre_mask.width as int) * (
                            pre_mask.height as int) * 3,
                    ;
                    crate::pixels::lemma_rgb_plane_of_rgba(pre_mask.data@);
                    assert(rgb_plane(buf.data@) == p0.unwrap().take((w0 * h0 * 3) as int));
                    assert(crate::pixels::alpha_plane(buf.data@) == mp0.unwrap().take(
                        (w0 * h0) as int,
                    ));
                }
            }
            actions.push(Action::AppliedMask);
        }
        // A mask of other dimensions silently disables masking.
    }
    proof {
        if scen_p || scen_m || scen_mm {
            assert(buf.width as nat == w0 && buf.height as nat == h0);
            assert(!(buf.width > max_dim || buf.height > max_dim));
        }
        if scen_m {
            assert(masked);
            assert(rgb_plane(buf.data@) == p0.unwrap().take((w0 * h0 * 3) as int));
            assert(crate::pixels::alpha_plane(buf.data@) == mask_decoded(
                doc0,
                smask.unwrap(),
            ).unwrap().take((w0 * h0) as int));
        }
        if scen_p || scen_mm {
            assert(!masked);
            assert(buf.data@ == p0.unwrap().take((w0 * h0 * 3) as int));
        }
        if scen_o {
            assert(!masked);
            assert(buf.width as nat == w0 && buf.height as nat == h0);
            assert(buf.width > max_dim || buf.height > max_dim);
            crate::resize::lemma_resize_target_bounds(w0, h0, max_dim as nat);
        }
    }
    // Downscale past the bound.
    if buf.width > max_dim || buf.height > max_dim {
        let from_w = buf.width;
        let from_h = buf.height;
        buf = resize_buffer(buf, max_dim);
        actions.push(
            Action::Resized { from_w, from_h, to_w: buf.width, to_h: buf.height },
        );
    } else {
        actions.push(Action::KeptDims { w: buf.width, h: buf.height });
    }
    let out_w = buf.width;
    let out_h = buf.height;
    // Re-encode and write back.
    if masked {
        actions.push(Action::SplitReencode);
        let rgb = split_rgb(&buf);
        let alpha = split_alpha(&buf);
        let jp = match jpeg_encode_rgb(&rgb, out_w, out_h, quality) {
            Ok(v) => v,
            Err(_) => {
                return Err(PdfError::Encode);
            }
        };
        let za = match zlib_deflate(&alpha) {
            Ok(v) => v,
            Err(_) => {
                return Err(PdfError::Encode);
            }
        };
        let mid = smask.unwrap();
        let (mdict2, _) = match doc.get(mid) {
            Some(o) => match o {
                Object::Stream(s) => (s.dict.deep_clone(), ()),
                _ => {
                    return Err(PdfError::StreamAccess);
                }
            },
            None => {
                return Err(PdfError::StreamAccess);
            }
        };
        write_stream(
            doc,
            object_id,
            dict,
            jp,
            crate::names::name_dct_decode(),
            crate::names::name_device_rgb(),
            out_w,
            out_h,
        );
        write_stream(
            doc,
            mid,
            mdict2,
            za,
            crate::names::name_flate_decode(),
            crate::names::name_device_gray(),
            out_w,
            out_h,
        );
        Ok(ProcessReport { actions, width: out_w, height: out_h, masked: true })
    } else {
        actions.push(Action::OpaqueReencode { quality });
        let encoded = if buf.channels == 1 {
            proof {
                assert(buf.data@.len() == out_w * out_h) by (nonlinear_arith)
                    requires
                        buf.data@.len() == buf.width * buf.height * buf.channels,
                        buf.channels == 1,
                        out_w == buf.width,
                        out_h == buf.height,
                ;
            }
            jpeg_encode_gray(&buf.data, out_w, out_h, quality)
        } else {
            jpeg_encode_rgb(&buf.data, out_w, out_h, quality)
        };
        let jp = match encoded {
            Ok(v) => v,
            Err(_) => {
                return Err(PdfError::Encode);
            }
        };
        write_stream(
            doc,
            object_id,
            dict,
            jp,
            crate::names::name_dct_decode(),
            crate::names::name_device_rgb(),
            out_w,
            out_h,
        );
        Ok(ProcessReport { actions, width: out_w, height: out_h, masked: false })
    }
}

} // verus!
