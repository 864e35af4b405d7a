//! The stream writer: commits new content bytes and a consistent set of
//! dictionary fields back into the object graph.

use vstd::prelude::*;
use crate::dict::{dict_map, Dict};
use crate::document::{stream_wf, Document};
use crate::names::{
    name_bits_per_component, name_color_space, name_decode, name_decode_parms, name_filter,
    name_height, name_length, name_width, nm_bits_per_component, nm_color_space, nm_decode,
    nm_decode_parms, nm_filter, nm_height, nm_length, nm_width,
};
use crate::object::{ObjId, Object, ObjView, StreamObj};

verus! {

/// The dictionary of a rewritten stream: `Length` is the exact byte
/// count of the new content, the codec, dimensions, color space and
/// sample depth are set, and stale decode entries are gone.
pub open spec fn written_dict(
    m: Map<Seq<u8>, ObjView>,
    filter: Seq<u8>,
    cs: Seq<u8>,
    w: u32,
    h: u32,
    len: int,
) -> Map<Seq<u8>, ObjView> {
    m.insert(nm_length(), ObjView::Integer(len as i64)).insert(
        nm_filter(),
        ObjView::Name(filter),
    ).insert(nm_width(), ObjView::Integer(w as i64)).insert(
        nm_height(),
        ObjView::Integer(h as i64),
    ).insert(nm_color_space(), ObjView::Name(cs)).insert(
        nm_bits_per_component(),
        ObjView::Integer(8),
    ).remove(nm_decode_parms()).remove(nm_decode())
}

/// What a rewritten dictionary binds each touched key to: the written
/// names are pairwise distinct, so every field reads back exactly.
pub proof fn lemma_written_dict_fields(
    m: Map<Seq<u8>, ObjView>,
    filter: Seq<u8>,
    cs: Seq<u8>,
    w: u32,
    h: u32,
    len: int,
)
    ensures
        ({
            let d = written_dict(m, filter, cs, w, h, len);
            &&& d.contains_key(nm_length()) && d[nm_length()] == ObjView::Integer(len as i64)
            &&& d.contains_key(nm_filter()) && d[nm_filter()] == ObjView::Name(filter)
            &&& d.contains_key(nm_width()) && d[nm_width()] == ObjView::Integer(w as i64)
            &&& d.contains_key(nm_height()) && d[nm_height()] == ObjView::Integer(h as i64)
            &&& d.contains_key(nm_color_space()) && d[nm_color_space()] == ObjView::Name(cs)
            &&& d.contains_key(nm_bits_per_component()) && d[nm_bits_per_component()]
                == ObjView::Integer(8)
            &&& !d.contains_key(nm_decode_parms())
            &&& !d.contains_key(nm_decode())
        }),
{
    assert(nm_length().len() == 6 && nm_filter().len() == 6 && nm_width().len() == 5
        && nm_height().len() == 6 && nm_color_space().len() == 10
        && nm_bits_per_component().len() == 16 && nm_decode_parms().len() == 11
        && nm_decode().len() == 6);
    assert(nm_length()[0] == 76u8 && nm_filter()[0] == 70u8 && nm_height()[0] == 72u8
        && nm_decode()[0] == 68u8);
}

/// Commits one stream: the object is rebound to the new content with a
/// dictionary consistent with it; every other object is untouched.
pub fn write_stream(
    doc: &mut Document,
    id: ObjId,
    dict: Dict,
    content: Vec<u8>,
    filter: Vec<u8>,
    cs: Vec<u8>,
    w: u32,
    h: u32,
)
    requires
        old(doc).wf(),
        old(doc)@.contains_key(id),
        dict.wf(),
        content@.len() <= i64::MAX,
    ensures
        final(doc).wf(),
        final(doc).ids() == old(doc).ids(),
        final(doc)@.contains_key(id),
        final(doc)@ == old(doc)@.insert(id, final(doc)@.index(id)),
        final(doc)@.index(id) matches ObjView::Stream(sv) && sv.content == content@ && dict_map(
            sv.dict,
        ) == written_dict(dict_map(dict@), filter@, cs@, w, h, content@.len() as int),
{
    let len = content.len();
    let mut d = dict;
    d.set(name_length(), Object::Integer(len as i64));
    d.set(name_filter(), Object::Name(filter));
    d.set(name_width(), Object::Integer(w as i64));
    d.set(name_height(), Object::Integer(h as i64));
    d.set(name_color_space(), Object::Name(cs));
    d.set(name_bits_per_component(), Object::Integer(8));
    let dp = name_decode_parms();
    d.remove(dp.as_slice());
    let dk = name_decode();
    d.remove(dk.as_slice());
    let st = Object::Stream(StreamObj { dict: d, content });
    proof {
        assert(stream_wf(st.deep_view()));
    }
    doc.insert(id, st);
    proof {
        assert(final(doc)@ =~= old(doc)@.insert(id, final(doc)@.index(id)));
    }
}

} // verus!
