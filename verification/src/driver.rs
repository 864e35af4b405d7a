//! The document driver: snapshots the object identifiers, classifies
//! the processable images, excludes masks claimed by an owning image,
//! and runs the per-image pipeline once per image, tolerating per-image
//! failure.

use vstd::prelude::*;
use crate::decode::dict_opt;
use crate::dict::dict_map;
use crate::document::Document;
use crate::names::{
    name_smask, name_subtype, nm_bits_per_component, nm_color_space, nm_dct_decode, nm_decode,
    nm_decode_parms, nm_device_rgb, nm_filter, nm_height, nm_image, nm_length, nm_subtype,
    nm_width,
};
use crate::object::{bytes_eq, ObjId, Object, ObjView};
use crate::error::PdfError;
use crate::pipeline::{
    may_touch, oversized_rgb_case, plain_rgb_case, process_image_object, smask_ref, stream_at,
    ProcessReport,
};
use crate::writer::lemma_written_dict_fields;

verus! {

/// Whether an identifier is bound to an image stream.
pub open spec fn is_image_at(doc: Map<ObjId, ObjView>, id: ObjId) -> bool {
    stream_at(doc, id) matches Some(sv) && dict_opt(dict_map(sv.dict), nm_subtype()) == Some(
        ObjView::Name(nm_image()),
    )
}

/// The soft-mask reference of the stream an identifier is bound to.
pub open spec fn doc_smask(doc: Map<ObjId, ObjView>, id: ObjId) -> Option<ObjId> {
    match stream_at(doc, id) {
        Some(sv) => smask_ref(dict_map(sv.dict)),
        None => None,
    }
}

/// Whether a submission list holds an identifier.
pub open spec fn submits(r: Seq<(ObjId, Result<ProcessReport, PdfError>)>, id: ObjId) -> bool {
    exists|j: int| 0 <= j < r.len() && (#[trigger] r[j]).0 == id
}

/// Whether some image submitted from a snapshot position before `p`
/// claims the identifier at `p` as its soft mask.
pub open spec fn claimed_before(
    doc0: Map<ObjId, ObjView>,
    ids: Seq<ObjId>,
    r: Seq<(ObjId, Result<ProcessReport, PdfError>)>,
    p: int,
) -> bool {
    exists|j: int, q: int|
        #![trigger r[j], ids[q]]
        0 <= j < r.len() && 0 <= q < p && ids[q] == r[j].0 && doc_smask(doc0, r[j].0) == Some(
            ids[p],
        )
}

/// What one submission outcome owes of the document: a failed image
/// keeps its original content; a processed one carries a consistent
/// rewritten dictionary.
pub open spec fn outcome_holds(
    doc0: Map<ObjId, ObjView>,
    now: Map<ObjId, ObjView>,
    id: ObjId,
    res: Result<ProcessReport, PdfError>,
) -> bool {
    match res {
        Result::Err(_) => stream_at(doc0, id) matches Some(sv) ==> (stream_at(now, id) matches Some(
            nsv,
        ) && nsv.content == sv.content),
        Result::Ok(rep) => stream_at(now, id) matches Some(nsv) && {
            let dm = dict_map(nsv.dict);
            &&& dm.contains_key(nm_length()) && dm[nm_length()] == ObjView::Integer(
                nsv.content.len() as i64,
            )
            &&& dm.contains_key(nm_filter()) && dm[nm_filter()] == ObjView::Name(nm_dct_decode())
            &&& dm.contains_key(nm_color_space()) && dm[nm_color_space()] == ObjView::Name(
                nm_device_rgb(),
            )
            &&& dm.contains_key(nm_bits_per_component()) && dm[nm_bits_per_component()]
                == ObjView::Integer(8)
            &&& dm.contains_key(nm_width()) && dm[nm_width()] == ObjView::Integer(rep.width as i64)
            &&& dm.contains_key(nm_height()) && dm[nm_height()] == ObjView::Integer(
                rep.height as i64,
            )
            &&& !dm.contains_key(nm_decode_parms())
            &&& !dm.contains_key(nm_decode())
        },
    }
}

/// Whether a list of identifiers holds one.
fn contains_id(v: &Vec<ObjId>, id: ObjId) -> (r: bool)
    ensures
        r == v@.contains(id),
{
    let n = v.len();
    let mut i: usize = 0;
    while i < n
        invariant
            0 <= i <= n,
            n == v@.len(),
            forall|j: int| 0 <= j < i ==> v@[j] != id,
        decreases n - i,
    {
        let e = v[i];
        if e.num == id.num && e.gen == id.gen {
            proof {
                assert(v@[i as int] == id);
            }
            return true;
        }
        i = i + 1;
    }
    false
}

/// Runs one conversion pass over the whole document. Returns, in
/// snapshot order, each identifier submitted to the per-image pipeline
/// with its outcome. Every identifier is submitted at most once, each
/// submitted identifier is an image of the starting document, a mask
/// claimed by an earlier image is never submitted after its owner, and
/// an image is submitted exactly when no earlier-submitted image
/// claimed it. Objects that are neither submitted nor claimed are left
/// exactly as they were, a failed image keeps its content, a processed
/// one carries a consistent rewritten dictionary (unless a later image
/// claims either as its mask and rewrites it), and an image in one of
/// the fully determined opaque classes always succeeds.
pub fn compress_document(doc: &mut Document, quality: u8, max_dim: u32) -> (r: Vec<
    (ObjId, Result<ProcessReport, PdfError>),
>)
    requires
        old(doc).wf(),
    ensures
        final(doc).wf(),
        final(doc).ids() == old(doc).ids(),
        forall|a: int, b: int| 0 <= a < b < r@.len() ==> r@[a].0 != r@[b].0,
        forall|k: int| 0 <= k < r@.len() ==> is_image_at(old(doc)@, #[trigger] r@[k].0),
        forall|a: int, b: int|
            0 <= a < b < r@.len() ==> Some(#[trigger] r@[b].0) != doc_smask(
                old(doc)@,
                #[trigger] r@[a].0,
            ),
        forall|k: ObjId|
            old(doc)@.contains_key(k) && !submits(r@, k) && (forall|j: int|
                0 <= j < r@.len() ==> doc_smask(old(doc)@, (#[trigger] r@[j]).0) != Some(k))
                ==> #[trigger] final(doc)@.index(k) == old(doc)@.index(k),
        forall|j: int|
            0 <= j < r@.len() ==> ((forall|k2: ObjId|
                doc_smask(old(doc)@, k2) != Some((#[trigger] r@[j]).0)) ==> outcome_holds(
                old(doc)@,
                final(doc)@,
                r@[j].0,
                r@[j].1,
            )),
        forall|p: int|
            0 <= p < old(doc).ids().len() && is_image_at(old(doc)@, #[trigger] old(doc).ids()[p])
                ==> (submits(r@, old(doc).ids()[p]) <==> !claimed_before(
                old(doc)@,
                old(doc).ids(),
                r@,
                p,
            )),
        forall|j: int|
            0 <= j < r@.len() ==> ((stream_at(old(doc)@, (#[trigger] r@[j]).0) matches Some(sv)
                && (plain_rgb_case(sv, max_dim) || oversized_rgb_case(sv, max_dim))) ==> r@[j].1
                is Ok),
{
    let ghost doc0 = doc@;
    let ids = doc.keys_snapshot();
    let n = ids.len();
    let mut seen: Vec<ObjId> = Vec::new();
    let mut submitted: Vec<(ObjId, Result<ProcessReport, PdfError>)> = Vec::new();
    let mut i: usize = 0;
    while i < n
        invariant
            0 <= i <= n,
            n == ids@.len(),
            ids@ == old(doc).ids(),
            old(doc).wf(),
            doc.wf(),
            doc.ids() == old(doc).ids(),
            doc0 == old(doc)@,
            forall|k: ObjId| doc0.contains_key(k) <==> doc@.contains_key(k),
            forall|k: ObjId|
                doc0.contains_key(k) && !seen@.contains(k) ==> #[trigger] doc@.index(k)
                    == doc0.index(k),
            forall|k: int| 0 <= k < submitted@.len() ==> seen@.contains(#[trigger] submitted@[k].0),
            forall|a: int, b: int|
                0 <= a < b < submitted@.len() ==> submitted@[a].0 != submitted@[b].0,
            forall|k: int| 0 <= k < submitted@.len() ==> is_image_at(doc0, #[trigger] submitted@[k].0),
            forall|k: int|
                0 <= k < submitted@.len() ==> (doc_smask(doc0, #[trigger] submitted@[k].0) matches
                    Some(s) ==> seen@.contains(s)),
            forall|a: int, b: int|
                0 <= a < b < submitted@.len() ==> Some(#[trigger] submitted@[b].0) != doc_smask(
                    doc0,
                    #[trigger] submitted@[a].0,
                ),
            forall|e: ObjId|
                seen@.contains(e) ==> (exists|k: int|
                    0 <= k < submitted@.len() && #[trigger] submitted@[k].0 == e) || (exists|k: int|
                    0 <= k < submitted@.len() && doc_smask(doc0, #[trigger] submitted@[k].0)
                        == Some(e)),
            forall|j: int|
                0 <= j < submitted@.len() ==> exists|q: int|
                    0 <= q < i && ids@[q] == (#[trigger] submitted@[j]).0,
            forall|j: int|
                0 <= j < submitted@.len() ==> ((forall|k2: ObjId|
                    doc_smask(doc0, k2) != Some((#[trigger] submitted@[j]).0)) ==> outcome_holds(
                    doc0,
                    doc@,
                    submitted@[j].0,
                    submitted@[j].1,
                )),
            forall|p: int|
                0 <= p < i && is_image_at(doc0, #[trigger] ids@[p]) ==> (submits(
                    submitted@,
                    ids@[p],
                ) <==> !claimed_before(doc0, ids@, submitted@, p)),
            forall|j: int|
                0 <= j < submitted@.len() ==> ((stream_at(
                    doc0,
                    (#[trigger] submitted@[j]).0,
                ) matches Some(sv) && (plain_rgb_case(sv, max_dim) || oversized_rgb_case(
                    sv,
                    max_dim,
                ))) ==> submitted@[j].1 is Ok),
        decreases n - i,
    {
        let id = ids[i];
        let ghost seen_head = seen@;
        let ghost submitted_head = submitted@;
        let was_seen = contains_id(&seen, id);
        let mut is_img = false;
        let mut sm: Option<ObjId> = None;
        if !was_seen {
            // Classify: an image stream, and its soft-mask reference.
            let skey = name_subtype();
            let mkey = name_smask();
            let classified: (bool, Option<ObjId>) = match doc.get(id) {
                Some(o) => match o {
                    Object::Stream(s) => {
                        proof {
                            assert(crate::document::stream_wf(doc@.index(id)));
                        }
                        let img = match s.dict.get(skey.as_slice()) {
                            Some(v) => match v {
                                Object::Name(b) => {
                                    let imgname = crate::names::name_image();
                                    bytes_eq(b.as_slice(), imgname.as_slice())
                                }
                                _ => false,
                            },
                            None => false,
                        };
                        let smr = match s.dict.get(mkey.as_slice()) {
                            Some(v) => match v {
                                Object::Reference(rid) => Some(*rid),
                                _ => None,
                            },
                            None => None,
                        };
                        (img, smr)
                    }
                    _ => (false, None),
                },
                None => (false, None),
            };
            is_img = classified.0;
            sm = classified.1;
            proof {
                assert(doc0.contains_key(id)) by {
                    assert(old(doc).ids()[i as int] == id);
                    assert(old(doc).ids().contains(id));
                }
                assert(doc@.index(id) == doc0.index(id));
                assert(is_img == is_image_at(doc0, id));
                assert(is_img ==> sm == doc_smask(doc0, id));
            }
            if is_img {
                if let Some(sid) = sm {
                    seen.push(sid);
                }
                let ghost seen_before = seen@;
                let ghost doc_a = doc@;
                let outcome = process_image_object(doc, id, quality, max_dim);
                submitted.push((id, outcome));
                seen.push(id);
                proof {
                    assert(submitted@.len() == submitted_head.len() + 1);
                    assert(forall|j: int|
                        0 <= j < submitted_head.len() ==> submitted@[j] == submitted_head[j]);
                    assert(submitted@[submitted@.len() - 1].0 == id);
                    assert forall|e: ObjId| seen@.contains(e) implies ((exists|k: int|
                        0 <= k < submitted@.len() && (#[trigger] submitted@[k]).0 == e) || (
                    exists|k: int|
                        0 <= k < submitted@.len() && doc_smask(
                            doc0,
                            (#[trigger] submitted@[k]).0,
                        ) == Some(e))) by {
                        let j = choose|j: int| 0 <= j < seen@.len() && seen@[j] == e;
                        if j < seen_head.len() {
                            assert(seen_head[j] == e);
                            assert(seen_head.contains(e));
                            if exists|k: int|
                                0 <= k < submitted_head.len() && (#[trigger] submitted_head[k]).0
                                    == e {
                                let k = choose|k: int|
                                    0 <= k < submitted_head.len() && (
                                    #[trigger] submitted_head[k]).0 == e;
                                assert(submitted@[k].0 == e);
                            } else {
                                let k = choose|k: int|
                                    0 <= k < submitted_head.len() && doc_smask(
                                        doc0,
                                        (#[trigger] submitted_head[k]).0,
                                    ) == Some(e);
                                assert(doc_smask(doc0, submitted@[k].0) == Some(e));
                            }
                        } else if j == seen@.len() - 1 {
                            assert(e == id);
                            assert(submitted@[submitted@.len() - 1].0 == id);
                        } else {
                            assert(seen@[j] == e && j == seen_head.len());
                            assert(sm == Some(e));
                            assert(doc_smask(doc0, id) == Some(e));
                            assert(doc_smask(doc0, submitted@[submitted@.len() - 1].0) == Some(
                                e,
                            ));
                        }
                    }
                    assert forall|a: int, b: int|
                        0 <= a < b < submitted@.len() implies Some(#[trigger] submitted@[b].0)
                        != doc_smask(doc0, #[trigger] submitted@[a].0) by {
                        if b == submitted@.len() - 1 {
                            assert(submitted@[b].0 == id);
                            match doc_smask(doc0, submitted@[a].0) {
                                Some(sx) => {
                                    assert(seen_head.contains(sx));
                                    assert(!seen_head.contains(id));
                                }
                                None => {}
                            }
                        }
                    }
                    assert forall|k: ObjId|
                        doc0.contains_key(k) && !seen@.contains(k) implies #[trigger] doc@.index(k)
                        == doc0.index(k) by {
                        assert(!seen_before.contains(k)) by {
                            if seen_before.contains(k) {
                                let j = choose|j: int|
                                    0 <= j < seen_before.len() && seen_before[j] == k;
                                assert(seen@[j] == k);
                            }
                        }
                        assert(!seen_head.contains(k)) by {
                            if seen_head.contains(k) {
                                let j = choose|j: int|
                                    0 <= j < seen_head.len() && seen_head[j] == k;
                                assert(seen_before[j] == k);
                            }
                        }
                        assert(!seen_head.contains(id)) by {
                            if seen_head.contains(id) {
                                let j = choose|j: int|
                                    0 <= j < seen_head.len() && seen_head[j] == id;
                                assert(seen_head[j] == id);
                            }
                        }
                        assert(k != id) by {
                            assert(seen@[seen@.len() - 1] == id);
                        }
                        assert(doc_a.index(k) == doc0.index(k));
                        assert(doc_a.index(id) == doc0.index(id));
                        assert(!may_touch(doc_a, id, k)) by {
                            match stream_at(doc_a, id) {
                                Some(sv2) => {
                                    if crate::pipeline::effective_smask(dict_map(sv2.dict), id)
                                        == Some(k) {
                                        assert(sm == Some(k));
                                        assert(seen_before == seen_head.push(k));
                                        assert(seen_before[seen_before.len() - 1] == k);
                                        assert(seen_before.contains(k));
                                    }
                                }
                                None => {}
                            }
                        }
                        assert(doc@.index(k) == doc_a.index(k));
                    }
                    assert forall|k: ObjId| doc0.contains_key(k) <==> doc@.contains_key(k) by {
                        assert(doc@.contains_key(k) <==> doc.ids().contains(k));
                        assert(doc0.contains_key(k) <==> old(doc).ids().contains(k));
                    }
                    assert forall|k: int|
                        0 <= k < submitted@.len() implies (doc_smask(
                        doc0,
                        #[trigger] submitted@[k].0,
                    ) matches Some(s) ==> seen@.contains(s)) by {
                        match doc_smask(doc0, submitted@[k].0) {
                            Some(sx) => {
                                if k < submitted@.len() - 1 {
                                    let j = choose|j: int|
                                        0 <= j < seen_head.len() && seen_head[j] == sx;
                                    assert(seen@[j] == sx);
                                } else {
                                    assert(submitted@[k].0 == id);
                                    assert(sm == Some(sx));
                                    assert(seen_before[seen_before.len() - 1] == sx);
                                    assert(seen@[seen_before.len() - 1] == sx);
                                }
                            }
                            None => {}
                        }
                    }
                    assert forall|k: int|
                        0 <= k < submitted@.len() implies seen@.contains(
                        #[trigger] submitted@[k].0,
                    ) by {
                        if k < submitted@.len() - 1 {
                            let j = choose|j: int|
                                0 <= j < seen_head.len() && seen_head[j] == submitted@[k].0;
                            assert(seen@[j] == submitted@[k].0);
                        } else {
                            assert(seen@[seen@.len() - 1] == id);
                        }
                    }
                    assert(!seen_head.contains(id)) by {
                        if seen_head.contains(id) {
                            let j = choose|j: int|
                                0 <= j < seen_head.len() && seen_head[j] == id;
                            assert(seen_head[j] == id);
                        }
                    }
                    assert forall|j: int|
                        0 <= j < submitted@.len() implies ((stream_at(
                        doc0,
                        (#[trigger] submitted@[j]).0,
                    ) matches Some(sv) && (plain_rgb_case(sv, max_dim) || oversized_rgb_case(
                        sv,
                        max_dim,
                    ))) ==> submitted@[j].1 is Ok) by {
                        if j == submitted@.len() - 1 {
                            assert(submitted@[j].0 == id && submitted@[j].1 == outcome);
                            assert(doc_a.index(id) == doc0.index(id));
                            assert(stream_at(doc_a, id) == stream_at(doc0, id));
                        } else {
                            assert(submitted@[j] == submitted_head[j]);
                        }
                    }
                    assert forall|j: int|
                        0 <= j < submitted@.len() implies ((forall|k2: ObjId|
                        doc_smask(doc0, k2) != Some((#[trigger] submitted@[j]).0))
                        ==> outcome_holds(doc0, doc@, submitted@[j].0, submitted@[j].1)) by {
                        if forall|k2: ObjId| doc_smask(doc0, k2) != Some(submitted@[j].0) {
                            let sid2 = submitted@[j].0;
                            if j < submitted@.len() - 1 {
                                assert(submitted@[j] == submitted_head[j]);
                                assert(outcome_holds(doc0, doc_a, sid2, submitted_head[j].1));
                                assert(sid2 != id) by {
                                    if sid2 == id {
                                        assert(seen_head.contains(id));
                                    }
                                }
                                assert(doc_a.index(id) == doc0.index(id));
                                assert(!may_touch(doc_a, id, sid2)) by {
                                    match stream_at(doc_a, id) {
                                        Some(sv3) => {
                                            if crate::pipeline::effective_smask(
                                                dict_map(sv3.dict),
                                                id,
                                            ) == Some(sid2) {
                                                assert(doc_smask(doc0, id) == Some(sid2));
                                            }
                                        }
                                        None => {}
                                    }
                                }
                                if doc_a.contains_key(sid2) {
                                    assert(doc@.index(sid2) == doc_a.index(sid2));
                                    assert(stream_at(doc@, sid2) == stream_at(doc_a, sid2));
                                } else {
                                    assert(stream_at(doc@, sid2) is None && stream_at(
                                        doc_a,
                                        sid2,
                                    ) is None);
                                }
                            } else {
                                assert(sid2 == id);
                                assert(submitted@[j].1 == outcome);
                                assert(doc_a.index(id) == doc0.index(id));
                                match outcome {
                                    Result::Ok(rep) => {
                                        match stream_at(doc@, id) {
                                            Some(nsv) => {
                                                let sva = stream_at(doc_a, id).unwrap();
                                                let m0 = crate::pipeline::resolved_dict(
                                                    doc_a,
                                                    dict_map(sva.dict),
                                                );
                                                lemma_written_dict_fields(
                                                    m0,
                                                    nm_dct_decode(),
                                                    nm_device_rgb(),
                                                    rep.width,
                                                    rep.height,
                                                    nsv.content.len() as int,
                                                );
                                            }
                                            None => {
                                                assert(false);
                                            }
                                        }
                                    }
                                    Result::Err(_) => {
                                        assert(stream_at(doc_a, id) == stream_at(doc0, id));
                                    }
                                }
                            }
                        }
                    }
                }
            }
        }
        proof {
            assert(ids@.no_duplicates());
            assert forall|j: int|
                0 <= j < submitted@.len() implies exists|q: int|
                0 <= q < i as int + 1 && ids@[q] == (#[trigger] submitted@[j]).0 by {
                if j < submitted_head.len() {
                    let q = choose|q: int| 0 <= q < i as int && ids@[q] == submitted_head[j].0;
                    assert(submitted@[j] == submitted_head[j]);
                    assert(ids@[q] == submitted@[j].0);
                } else {
                    assert(submitted@[j].0 == id);
                    assert(ids@[i as int] == submitted@[j].0);
                }
            }
            assert forall|p: int|
                0 <= p < i as int + 1 && is_image_at(doc0, #[trigger] ids@[p]) implies (submits(
                submitted@,
                ids@[p],
            ) <==> !claimed_before(doc0, ids@, submitted@, p)) by {
                if p == i as int {
                    if was_seen {
                        assert(seen_head.contains(id));
                        assert(submitted@ == submitted_head);
                        assert(!submits(submitted@, id)) by {
                            if submits(submitted@, id) {
                                let j = choose|j: int|
                                    0 <= j < submitted@.len() && (#[trigger] submitted@[j]).0
                                        == id;
                                let q = choose|q: int|
                                    0 <= q < i as int && ids@[q] == submitted_head[j].0;
                                assert(ids@[q] == ids@[i as int]);
                            }
                        }
                        if exists|k: int|
                            0 <= k < submitted_head.len() && (#[trigger] submitted_head[k]).0
                                == id {
                            let k = choose|k: int|
                                0 <= k < submitted_head.len() && (#[trigger] submitted_head[k]).0
                                    == id;
                            let q = choose|q: int|
                                0 <= q < i as int && ids@[q] == submitted_head[k].0;
                            assert(ids@[q] == ids@[i as int]);
                            assert(false);
                        } else {
                            let k = choose|k: int|
                                0 <= k < submitted_head.len() && doc_smask(
                                    doc0,
                                    (#[trigger] submitted_head[k]).0,
                                ) == Some(id);
                            let q = choose|q: int|
                                0 <= q < i as int && ids@[q] == submitted_head[k].0;
                            assert(claimed_before(doc0, ids@, submitted@, p)) by {
                                assert(0 <= k < submitted@.len() && 0 <= q < p && ids@[q]
                                    == submitted@[k].0 && doc_smask(doc0, submitted@[k].0) == Some(
                                    ids@[p],
                                ));
                            }
                        }
                    } else if is_img {
                        assert(submitted@[submitted@.len() - 1].0 == id);
                        assert(submits(submitted@, ids@[p]));
                        assert(!claimed_before(doc0, ids@, submitted@, p)) by {
                            if claimed_before(doc0, ids@, submitted@, p) {
                                let (j, q) = choose|j: int, q: int|
                                    #![trigger submitted@[j], ids@[q]]
                                    0 <= j < submitted@.len() && 0 <= q < p && ids@[q]
                                        == submitted@[j].0 && doc_smask(doc0, submitted@[j].0)
                                        == Some(ids@[p]);
                                if j == submitted@.len() - 1 {
                                    assert(ids@[q] == ids@[i as int]);
                                } else {
                                    assert(submitted@[j] == submitted_head[j]);
                                    assert(seen_head.contains(id));
                                    assert(!seen_head.contains(id)) by {
                                        if seen_head.contains(id) {
                                            let x = choose|x: int|
                                                0 <= x < seen_head.len() && seen_head[x] == id;
                                            assert(seen_head[x] == id);
                                        }
                                    }
                                }
                            }
                        }
                    } else {
                        assert(!is_image_at(doc0, id));
                        assert(false);
                    }
                } else {
                    assert(submits(submitted@, ids@[p]) <==> submits(submitted_head, ids@[p])) by {
                        if submits(submitted@, ids@[p]) {
                            let j = choose|j: int|
                                0 <= j < submitted@.len() && (#[trigger] submitted@[j]).0
                                    == ids@[p];
                            if j < submitted_head.len() {
                                assert(submitted_head[j].0 == ids@[p]);
                            } else {
                                assert(submitted@[j].0 == id);
                                assert(ids@[i as int] == ids@[p]);
                                assert(false);
                            }
                        }
                        if submits(submitted_head, ids@[p]) {
                            let j = choose|j: int|
                                0 <= j < submitted_head.len() && (#[trigger] submitted_head[j]).0
                                    == ids@[p];
                            assert(submitted@[j].0 == ids@[p]);
                        }
                    }
                    assert(claimed_before(doc0, ids@, submitted@, p) <==> claimed_before(
                        doc0,
                        ids@,
                        submitted_head,
                        p,
                    )) by {
                        if claimed_before(doc0, ids@, submitted@, p) {
                            let (j, q) = choose|j: int, q: int|
                                #![trigger submitted@[j], ids@[q]]
                                0 <= j < submitted@.len() && 0 <= q < p && ids@[q]
                                    == submitted@[j].0 && doc_smask(doc0, submitted@[j].0) == Some(
                                    ids@[p],
                                );
                            if j < submitted_head.len() {
                                assert(submitted_head[j] == submitted@[j]);
                                assert(0 <= j < submitted_head.len() && 0 <= q < p && ids@[q]
                                    == submitted_head[j].0 && doc_smask(
                                    doc0,
                                    submitted_head[j].0,
                                ) == Some(ids@[p]));
                            } else {
                                assert(submitted@[j].0 == id);
                                assert(ids@[q] == ids@[i as int]);
                                assert(false);
                            }
                        }
                        if claimed_before(doc0, ids@, submitted_head, p) {
                            let (j, q) = choose|j: int, q: int|
                                #![trigger submitted_head[j], ids@[q]]
                                0 <= j < submitted_head.len() && 0 <= q < p && ids@[q]
                                    == submitted_head[j].0 && doc_smask(
                                    doc0,
                                    submitted_head[j].0,
                                ) == Some(ids@[p]);
                            assert(submitted@[j] == submitted_head[j]);
                            assert(0 <= j < submitted@.len() && 0 <= q < p && ids@[q]
                                == submitted@[j].0 && doc_smask(doc0, submitted@[j].0) == Some(
                                ids@[p],
                            ));
                        }
                    }
                }
            }
        }
        i = i + 1;
    }
    proof {
        assert forall|k: ObjId|
            doc0.contains_key(k) && !submits(submitted@, k) && (forall|j: int|
                0 <= j < submitted@.len() ==> doc_smask(doc0, (#[trigger] submitted@[j]).0)
                    != Some(k)) implies #[trigger] doc@.index(k) == doc0.index(k) by {
            if seen@.contains(k) {
                if exists|j: int|
                    0 <= j < submitted@.len() && (#[trigger] submitted@[j]).0 == k {
                    let j = choose|j: int|
                        0 <= j < submitted@.len() && (#[trigger] submitted@[j]).0 == k;
                    assert(submits(submitted@, k));
                } else {
                    let j = choose|j: int|
                        0 <= j < submitted@.len() && doc_smask(
                            doc0,
                            (#[trigger] submitted@[j]).0,
                        ) == Some(k);
                    assert(doc_smask(doc0, submitted@[j].0) == Some(k));
                }
            }
        }
    }
    submitted
}

} // verus!
