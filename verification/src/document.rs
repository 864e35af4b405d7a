//! The document: a graph of identified objects, owned by one conversion
//! pass and mutated in place.

use vstd::prelude::*;
use crate::assoc::{
    assoc_keys_unique, assoc_map, lemma_assoc_map_at, lemma_assoc_map_dom, lemma_assoc_map_update,
    lemma_assoc_push_fresh,
};
use crate::object::{ObjId, Object, ObjView};

verus! {

/// The views of the entries of a document entry list.
pub open spec fn doc_entries_view(s: Seq<(ObjId, Object)>) -> Seq<(ObjId, ObjView)>
    decreases s,
{
    Seq::new(
        s.len(),
        |i: int|
            if 0 <= i < s.len() {
                (s[i].0, s[i].1.deep_view())
            } else {
                (ObjId { num: 0, gen: 0 }, ObjView::Null)
            },
    )
}

/// A stream object's dictionary never binds a name twice. Objects the
/// core rewrites must satisfy this; it asks nothing of other variants.
pub open spec fn stream_wf(o: ObjView) -> bool {
    o matches ObjView::Stream(sv) ==> assoc_keys_unique(sv.dict)
}

/// A document: object identifiers bound to objects, in a fixed order.
pub struct Document {
    entries: Vec<(ObjId, Object)>,
}

impl View for Document {
    type V = Map<ObjId, ObjView>;

    closed spec fn view(&self) -> Map<ObjId, ObjView> {
        assoc_map(doc_entries_view(self.entries@))
    }
}

impl Document {
    /// The identifiers in the document, in their stored order.
    pub closed spec fn ids(&self) -> Seq<ObjId> {
        Seq::new(self.entries@.len(), |i: int| self.entries@[i].0)
    }

    /// Well-formed: identifiers are unique, they are exactly the map's
    /// domain, and every stream object has a well-formed dictionary.
    pub open spec fn wf(&self) -> bool {
        &&& self.ids().no_duplicates()
        &&& forall|id: ObjId| self@.contains_key(id) <==> self.ids().contains(id)
        &&& forall|id: ObjId| self@.contains_key(id) ==> stream_wf(#[trigger] self@[id])
    }

    /// An empty document.
    pub fn new() -> (r: Document)
        ensures
            r.wf(),
            r@ == Map::<ObjId, ObjView>::empty(),
            r.ids() == Seq::<ObjId>::empty(),
    {
        let d = Document { entries: Vec::new() };
        proof {
            assert(doc_entries_view(d.entries@) =~= Seq::<(ObjId, ObjView)>::empty());
            assert(d.ids() =~= Seq::<ObjId>::empty());
            assert forall|id: ObjId| !d@.contains_key(id) by {
                lemma_assoc_map_dom(doc_entries_view(d.entries@), id);
            }
            assert(d@ =~= Map::<ObjId, ObjView>::empty());
        }
        d
    }

    /// Entry views and uniqueness, tied to `ids`.
    proof fn lemma_entry_facts(&self)
        ensures
            doc_entries_view(self.entries@).len() == self.ids().len(),
            forall|i: int|
                0 <= i < self.ids().len() ==> #[trigger] doc_entries_view(self.entries@)[i].0
                    == self.ids()[i],
            self.ids().no_duplicates() ==> assoc_keys_unique(doc_entries_view(self.entries@)),
    {
        if self.ids().no_duplicates() {
            let s = doc_entries_view(self.entries@);
            assert forall|i: int, j: int| 0 <= i < j < s.len() implies s[i].0 != s[j].0 by {
                assert(self.ids()[i] == s[i].0 && self.ids()[j] == s[j].0);
            }
        }
    }

    /// The index of the entry holding `id`, if any.
    fn find(&self, id: ObjId) -> (r: Option<usize>)
        ensures
            match r {
                Some(i) => i < self.entries@.len() && self.entries@[i as int].0 == id,
                None => forall|i: int| 0 <= i < self.entries@.len() ==> self.entries@[i].0 != id,
            },
    {
        let n = self.entries.len();
        let mut i: usize = 0;
        while i < n
            invariant
                i <= n,
                n == self.entries@.len(),
                forall|j: int| 0 <= j < i ==> self.entries@[j].0 != id,
            decreases n - i,
        {
            let e = &self.entries[i];
            if e.0.num == id.num && e.0.gen == id.gen {
                return Some(i);
            }
            i = i + 1;
        }
        None
    }

    /// Looks an identifier up.
    pub fn get(&self, id: ObjId) -> (r: Option<&Object>)
        requires
            self.wf(),
        ensures
            match r {
                Some(o) => self@.contains_key(id) && o.deep_view() == self@.index(id),
                None => !self@.contains_key(id),
            },
    {
        proof {
            self.lemma_entry_facts();
            lemma_assoc_map_dom(doc_entries_view(self.entries@), id);
        }
        match self.find(id) {
            Some(i) => {
                proof {
                    lemma_assoc_map_at(doc_entries_view(self.entries@), i as int);
                    assert(doc_entries_view(self.entries@)[i as int] == (
                        self.entries@[i as int].0,
                        self.entries@[i as int].1.deep_view(),
                    ));
                }
                Some(&self.entries[i].1)
            }
            None => {
                proof {
                    assert forall|i: int|
                        0 <= i < doc_entries_view(self.entries@).len() implies doc_entries_view(
                        self.entries@,
                    )[i].0 != id by {
                        assert(self.entries@[i].0 != id);
                    }
                }
                None
            }
        }
    }

    /// Binds an identifier to an object. An identifier already bound is
    /// rebound in place; a fresh one is appended to the order.
    pub fn insert(&mut self, id: ObjId, obj: Object)
        requires
            old(self).wf(),
            stream_wf(obj.deep_view()),
        ensures
            final(self).wf(),
            final(self)@ == old(self)@.insert(id, obj.deep_view()),
            old(self)@.contains_key(id) ==> final(self).ids() == old(self).ids(),
            !old(self)@.contains_key(id) ==> final(self).ids() == old(self).ids().push(id),
    {
        proof {
            self.lemma_entry_facts();
            lemma_assoc_map_dom(doc_entries_view(self.entries@), id);
        }
        let ghost ov = obj.deep_view();
        match self.find(id) {
            Some(i) => {
                proof {
                    lemma_assoc_map_update(doc_entries_view(self.entries@), i as int, id, ov);
                }
                self.entries.set(i, (id, obj));
                proof {
                    assert(doc_entries_view(self.entries@) =~= doc_entries_view(
                        old(self).entries@,
                    ).update(i as int, (id, ov)));
                    assert(self@ =~= old(self)@.insert(id, ov));
                    assert(self.ids() =~= old(self).ids());
                    lemma_assoc_map_dom(doc_entries_view(old(self).entries@), id);
                    assert(doc_entries_view(old(self).entries@)[i as int].0 == id);
                    assert(old(self)@.contains_key(id));
                    assert forall|k: ObjId| self@.contains_key(k) implies stream_wf(
                        #[trigger] self@[k],
                    ) by {
                        if k != id {
                            assert(self@[k] == old(self)@[k]);
                        }
                    }
                }
            }
            None => {
                proof {
                    lemma_assoc_push_fresh(doc_entries_view(self.entries@), id, ov);
                    lemma_assoc_map_dom(doc_entries_view(old(self).entries@), id);
                }
                self.entries.push((id, obj));
                proof {
                    assert(doc_entries_view(self.entries@) =~= doc_entries_view(
                        old(self).entries@,
                    ).push((id, ov)));
                    assert(self@ =~= old(self)@.insert(id, ov));
                    assert(self.ids() =~= old(self).ids().push(id));
                    assert(!old(self)@.contains_key(id));
                    assert forall|k: ObjId| self@.contains_key(k) implies stream_wf(
                        #[trigger] self@[k],
                    ) by {
                        if k != id {
                            assert(self@[k] == old(self)@[k]);
                        }
                    }
                    assert forall|k: ObjId| self@.contains_key(k) <==> self.ids().contains(
                        k,
                    ) by {
                        if k != id {
                            assert(old(self)@.contains_key(k) <==> old(self).ids().contains(k));
                            if self.ids().contains(k) {
                                let j = choose|j: int|
                                    0 <= j < self.ids().len() && self.ids()[j] == k;
                                assert(old(self).ids()[j] == k || j == old(self).ids().len());
                            }
                            if old(self).ids().contains(k) {
                                let j = choose|j: int|
                                    0 <= j < old(self).ids().len() && old(self).ids()[j] == k;
                                assert(self.ids()[j] == k);
                            }
                        } else {
                            assert(self.ids()[self.ids().len() - 1] == id);
                        }
                    }
                    assert(self.ids().no_duplicates()) by {
                        assert forall|a: int, b: int|
                            0 <= a < b < self.ids().len() implies self.ids()[a]
                            != self.ids()[b] by {
                            if b < old(self).ids().len() {
                                assert(old(self).ids()[a] != old(self).ids()[b]);
                            } else {
                                assert(self.ids()[b] == id);
                                assert(old(self).ids()[a] == self.ids()[a]);
                                assert(old(self).ids().contains(self.ids()[a]));
                            }
                        }
                    }
                }
            }
        }
    }

    /// The identifiers now in the document, as a snapshot list.
    pub fn keys_snapshot(&self) -> (r: Vec<ObjId>)
        ensures
            r@ == self.ids(),
    {
        let n = self.entries.len();
        let mut out: Vec<ObjId> = Vec::new();
        let mut i: usize = 0;
        while i < n
            invariant
                i <= n,
                n == self.entries@.len(),
                out@.len() == i,
                forall|j: int| 0 <= j < i ==> out@[j] == self.entries@[j].0,
            decreases n - i,
        {
            out.push(self.entries[i].0);
            i = i + 1;
        }
        proof {
            assert(out@ =~= self.ids());
        }
        out
    }
}

} // verus!
