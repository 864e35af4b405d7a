//! The indirect reference resolver: rewrites a stream dictionary's
//! `Filter` and `DecodeParms` entries to direct values before decoding.

use vstd::prelude::*;
use crate::decode::dict_opt;
use crate::dict::Dict;
use crate::document::Document;
use crate::object::{arr_view, ObjId, Object, ObjView};

verus! {

/// A direct reference resolves to the referenced value, or to `Null`
/// where the target is missing.
pub open spec fn resolved_ref(doc: Map<ObjId, ObjView>, r: ObjId) -> ObjView {
    if doc.contains_key(r) {
        doc[r]
    } else {
        ObjView::Null
    }
}

/// Array elements: a reference whose target exists resolves; any other
/// element, a dangling reference included, stays as it is.
pub open spec fn resolved_items(doc: Map<ObjId, ObjView>, items: Seq<ObjView>) -> Seq<ObjView> {
    Seq::new(
        items.len(),
        |i: int|
            if 0 <= i < items.len() {
                match items[i] {
                    ObjView::Reference(r) => if doc.contains_key(r) {
                        doc[r]
                    } else {
                        items[i]
                    },
                    _ => items[i],
                }
            } else {
                ObjView::Null
            },
    )
}

/// Whether at least one array element would resolve.
pub open spec fn any_item_resolves(doc: Map<ObjId, ObjView>, items: Seq<ObjView>) -> bool {
    exists|i: int|
        0 <= i < items.len() && (#[trigger] items[i] matches ObjView::Reference(r)
            && doc.contains_key(r))
}

/// What resolution does to one dictionary entry value: a reference is
/// replaced, an array is rebuilt only if some element changed, anything
/// else is left alone (`None` = no rewrite).
pub open spec fn resolved_entry(doc: Map<ObjId, ObjView>, v: ObjView) -> Option<ObjView> {
    match v {
        ObjView::Reference(r) => Some(resolved_ref(doc, r)),
        ObjView::Array(items) => if any_item_resolves(doc, items) {
            Some(ObjView::Array(resolved_items(doc, items)))
        } else {
            None
        },
        _ => None,
    }
}

/// Resolves one value against the document.
pub fn resolve_value(doc: &Document, v: &Object) -> (r: Option<Object>)
    requires
        doc.wf(),
    ensures
        match r {
            Some(o) => resolved_entry(doc@, v.deep_view()) == Some(o.deep_view()),
            None => resolved_entry(doc@, v.deep_view()) is None,
        },
{
    match v {
        Object::Reference(id) => match doc.get(*id) {
            Some(o) => Some(o.deep_clone()),
            None => Some(Object::Null),
        },
        Object::Array(items) => {
            let n = items.len();
            let mut out: Vec<Object> = Vec::new();
            let mut changed = false;
            let mut i: usize = 0;
            while i < n
                invariant
                    0 <= i <= n,
                    n == items@.len(),
                    doc.wf(),
                    out@.len() == i,
                    forall|j: int|
                        0 <= j < i ==> out@[j].deep_view() == resolved_items(
                            doc@,
                            arr_view(items@),
                        )[j],
                    changed == exists|j: int|
                        0 <= j < i && (#[trigger] arr_view(items@)[j] matches ObjView::Reference(r)
                            && doc@.contains_key(r)),
                decreases n - i,
            {
                proof {
                    assert(arr_view(items@)[i as int] == items@[i as int].deep_view());
                }
                let item = &items[i];
                match item {
                    Object::Reference(rid) => match doc.get(*rid) {
                        Some(o) => {
                            out.push(o.deep_clone());
                            proof {
                                assert(arr_view(items@)[i as int] matches ObjView::Reference(r)
                                    && doc@.contains_key(r));
                            }
                            changed = true;
                        }
                        None => {
                            out.push(item.deep_clone());
                        }
                    },
                    _ => {
                        out.push(item.deep_clone());
                    }
                }
                i = i + 1;
            }
            if changed {
                proof {
                    assert(any_item_resolves(doc@, arr_view(items@)));
                    assert(arr_view(out@) =~= resolved_items(doc@, arr_view(items@)));
                }
                Some(Object::Array(out))
            } else {
                proof {
                    assert(!any_item_resolves(doc@, arr_view(items@)));
                }
                None
            }
        }
        _ => None,
    }
}

/// Resolves one dictionary entry in place: the entry is rewritten where
/// resolution changes it, and the rest of the dictionary is untouched.
pub fn resolve_dict_entry(doc: &Document, dict: &mut Dict, key: Vec<u8>)
    requires
        doc.wf(),
        old(dict).wf(),
    ensures
        final(dict).wf(),
        final(dict).map_view() == match dict_opt(old(dict).map_view(), key@) {
            Some(v) => match resolved_entry(doc@, v) {
                Some(nv) => old(dict).map_view().insert(key@, nv),
                None => old(dict).map_view(),
            },
            None => old(dict).map_view(),
        },
{
    let resolved = match dict.get(key.as_slice()) {
        Some(o) => resolve_value(doc, o),
        None => None,
    };
    match resolved {
        Some(nv) => {
            dict.set(key, nv);
        }
        None => (),
    }
}

} // verus!
