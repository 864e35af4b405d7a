//! Dictionaries: ordered name/value entry lists with unique names,
//! abstracted as a map from byte-string keys to object values.

use vstd::prelude::*;
use crate::assoc::{
    assoc_keys_unique, assoc_map, lemma_assoc_map_at, lemma_assoc_map_dom, lemma_assoc_map_remove,
    lemma_assoc_map_update, lemma_assoc_push_fresh,
};
use crate::object::{bytes_eq, clone_bytes, Object, ObjView};

verus! {

/// A dictionary entry list abstracted as a map.
pub open spec fn dict_map(s: Seq<(Seq<u8>, ObjView)>) -> Map<Seq<u8>, ObjView> {
    assoc_map(s)
}

/// The views of the entries of a dictionary entry list.
pub open spec fn entries_view(s: Seq<(Vec<u8>, Object)>) -> Seq<(Seq<u8>, ObjView)>
    decreases s,
{
    Seq::new(
        s.len(),
        |i: int|
            if 0 <= i < s.len() {
                (s[i].0@, s[i].1.deep_view())
            } else {
                (Seq::<u8>::empty(), ObjView::Null)
            },
    )
}

/// A dictionary: entry order is kept for serialization, while contracts
/// speak of the key/value map `dict_map(self@)`.
pub struct Dict {
    entries: Vec<(Vec<u8>, Object)>,
}

impl View for Dict {
    type V = Seq<(Seq<u8>, ObjView)>;

    closed spec fn view(&self) -> Seq<(Seq<u8>, ObjView)>
        decreases self,
    {
        entries_view(self.entries@)
    }
}

impl Dict {
    /// The key/value map this dictionary holds.
    pub open spec fn map_view(&self) -> Map<Seq<u8>, ObjView> {
        dict_map(self@)
    }

    /// Well-formed: no key occurs twice.
    pub open spec fn wf(&self) -> bool {
        assoc_keys_unique(self@)
    }

    /// An empty dictionary.
    pub fn new() -> (r: Dict)
        ensures
            r.wf(),
            r@ == Seq::<(Seq<u8>, ObjView)>::empty(),
            r.map_view() == Map::<Seq<u8>, ObjView>::empty(),
    {
        let d = Dict { entries: Vec::new() };
        proof {
            assert(d@ =~= Seq::<(Seq<u8>, ObjView)>::empty());
        }
        d
    }

    /// The index of the entry holding `k`, if any.
    fn find(&self, k: &[u8]) -> (r: Option<usize>)
        ensures
            match r {
                Some(i) => i < self@.len() && self@[i as int].0 == k@,
                None => forall|i: int| 0 <= i < self@.len() ==> self@[i].0 != k@,
            },
    {
        let n = self.entries.len();
        let mut i: usize = 0;
        while i < n
            invariant
                i <= n,
                n == self.entries@.len(),
                self@ == entries_view(self.entries@),
                forall|j: int| 0 <= j < i ==> self@[j].0 != k@,
            decreases n - i,
        {
            proof {
                assert(self@[i as int].0 == self.entries@[i as int].0@);
            }
            if bytes_eq(self.entries[i].0.as_slice(), k) {
                return Some(i);
            }
            i = i + 1;
        }
        None
    }

    /// Looks a key up.
    pub fn get(&self, k: &[u8]) -> (r: Option<&Object>)
        requires
            self.wf(),
        ensures
            match r {
                Some(v) => self.map_view().contains_key(k@) && v.deep_view()
                    == self.map_view().index(k@),
                None => !self.map_view().contains_key(k@),
            },
    {
        proof {
            lemma_assoc_map_dom(self@, k@);
        }
        match self.find(k) {
            Some(i) => {
                proof {
                    lemma_assoc_map_at(self@, i as int);
                    assert(self@[i as int].1 == self.entries@[i as int].1.deep_view());
                }
                Some(&self.entries[i].1)
            }
            None => None,
        }
    }

    /// Binds a key to a value, replacing any previous binding.
    pub fn set(&mut self, k: Vec<u8>, v: Object)
        requires
            old(self).wf(),
        ensures
            final(self).wf(),
            final(self).map_view() == old(self).map_view().insert(k@, v.deep_view()),
    {
        let ghost kv = k@;
        let ghost vv = v.deep_view();
        match self.find(k.as_slice()) {
            Some(i) => {
                proof {
                    lemma_assoc_map_update(self@, i as int, kv, vv);
                }
                self.entries.set(i, (k, v));
                proof {
                    assert(self@ =~= old(self)@.update(i as int, (kv, vv)));
                    assert(self.map_view() =~= old(self).map_view().insert(kv, vv));
                }
            }
            None => {
                proof {
                    lemma_assoc_push_fresh(self@, kv, vv);
                }
                self.entries.push((k, v));
                proof {
                    assert(self@ =~= old(self)@.push((kv, vv)));
                    assert(self.map_view() =~= old(self).map_view().insert(kv, vv));
                }
            }
        }
    }

    /// Unbinds a key; a key not bound is left alone.
    pub fn remove(&mut self, k: &[u8])
        requires
            old(self).wf(),
        ensures
            final(self).wf(),
            final(self).map_view() == old(self).map_view().remove(k@),
    {
        match self.find(k) {
            Some(i) => {
                proof {
                    lemma_assoc_map_remove(self@, i as int);
                }
                self.entries.remove(i);
                proof {
                    assert(self@ =~= old(self)@.remove(i as int));
                    assert(self.map_view() =~= old(self).map_view().remove(k@));
                }
            }
            None => {
                proof {
                    lemma_assoc_map_dom(self@, k@);
                    assert(self.map_view() =~= self.map_view().remove(k@));
                }
            }
        }
    }

    /// How many entries the dictionary holds.
    pub fn len(&self) -> (r: usize)
        ensures
            r == self@.len(),
    {
        self.entries.len()
    }

    /// The key of the entry at an index.
    pub fn key_at(&self, i: usize) -> (r: &Vec<u8>)
        requires
            i < self@.len(),
        ensures
            r@ == self@[i as int].0,
    {
        &self.entries[i].0
    }

    /// The value of the entry at an index.
    pub fn value_at(&self, i: usize) -> (r: &Object)
        requires
            i < self@.len(),
        ensures
            r.deep_view() == self@[i as int].1,
    {
        &self.entries[i].1
    }

    /// Copies a dictionary, values included.
    pub fn deep_clone(&self) -> (r: Dict)
        ensures
            r@ == self@,
        decreases *self,
    {
        let n = self.entries.len();
        let mut out: Vec<(Vec<u8>, Object)> = Vec::new();
        let mut i: usize = 0;
        proof {
            assert(decreases_to!(*self => self.entries));
        }
        while i < n
            invariant
                i <= n,
                n == self.entries@.len(),
                out@.len() == i,
                forall|j: int|
                    0 <= j < i ==> out@[j].0@ == self.entries@[j].0@ && out@[j].1.deep_view()
                        == self.entries@[j].1.deep_view(),
                decreases_to!(*self => self.entries),
            decreases n - i,
        {
            let kc = clone_bytes(&self.entries[i].0);
            proof {
                assert(decreases_to!(self.entries => self.entries@[i as int]));
                assert(decreases_to!(self.entries@[i as int] => self.entries@[i as int].1));
            }
            let vc = self.entries[i].1.deep_clone();
            out.push((kc, vc));
            i = i + 1;
        }
        let r = Dict { entries: out };
        proof {
            assert(r@ =~= self@);
        }
        r
    }
}

} // verus!
