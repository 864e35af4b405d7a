//! The document object model: identifiers and the tagged object variant,
//! with its mathematical view.

use vstd::prelude::*;
use vstd::slice::slice_to_vec;
use crate::dict::Dict;

verus! {

/// Identifier of an object in the document graph: numeric id plus
/// generation number.
#[derive(Clone, Copy, PartialEq, Eq, Structural, Debug)]
pub struct ObjId {
    pub num: u32,
    pub gen: u16,
}

impl DeepView for ObjId {
    type V = ObjId;

    open spec fn deep_view(&self) -> ObjId {
        *self
    }
}

/// How a byte string is written out when the document is serialized.
#[derive(Clone, Copy, PartialEq, Eq, Structural, Debug)]
pub enum StrFormat {
    Literal,
    Hexadecimal,
}

/// A stream: a dictionary plus raw byte content.
pub struct StreamObj {
    pub dict: Dict,
    pub content: Vec<u8>,
}

/// The tagged variant an object in the document graph can take.
/// `Real` carries the bit pattern of a serialized real number; the core
/// never interprets it, only moves it.
pub enum Object {
    Null,
    Boolean(bool),
    Integer(i64),
    Real(u32),
    ByteString(Vec<u8>, StrFormat),
    Name(Vec<u8>),
    Array(Vec<Object>),
    Dictionary(Dict),
    Stream(StreamObj),
    Reference(ObjId),
}

/// The mathematical value of a stream: its dictionary entries and content.
#[verifier::ext_equal]
pub struct StreamView {
    pub dict: Seq<(Seq<u8>, ObjView)>,
    pub content: Seq<u8>,
}

/// The mathematical value of an object. A dictionary is its entry list;
/// `dict_map` in the dictionary module abstracts it to a map.
#[verifier::ext_equal]
pub enum ObjView {
    Null,
    Boolean(bool),
    Integer(i64),
    Real(u32),
    ByteString(Seq<u8>, StrFormat),
    Name(Seq<u8>),
    Array(Seq<ObjView>),
    Dictionary(Seq<(Seq<u8>, ObjView)>),
    Stream(StreamView),
    Reference(ObjId),
}

/// The views of the elements of an object sequence.
pub open spec fn arr_view(s: Seq<Object>) -> Seq<ObjView>
    decreases s,
{
    Seq::new(
        s.len(),
        |i: int|
            if 0 <= i < s.len() {
                s[i].deep_view()
            } else {
                ObjView::Null
            },
    )
}

impl DeepView for Object {
    type V = ObjView;

    open spec fn deep_view(&self) -> ObjView
        decreases self,
    {
        match self {
            Object::Null => ObjView::Null,
            Object::Boolean(b) => ObjView::Boolean(*b),
            Object::Integer(i) => ObjView::Integer(*i),
            Object::Real(x) => ObjView::Real(*x),
            Object::ByteString(v, f) => ObjView::ByteString(v@, *f),
            Object::Name(v) => ObjView::Name(v@),
            Object::Array(items) => ObjView::Array(arr_view(items@)),
            Object::Dictionary(d) => ObjView::Dictionary(d@),
            Object::Stream(s) => ObjView::Stream(
                StreamView { dict: s.dict@, content: s.content@ },
            ),
            Object::Reference(id) => ObjView::Reference(*id),
        }
    }
}

/// Compares two byte strings for equality.
pub fn bytes_eq(a: &[u8], b: &[u8]) -> (r: bool)
    ensures
        r == (a@ == b@),
{
    if a.len() != b.len() {
        proof {
            assert(a@.len() != b@.len());
        }
        return false;
    }
    let mut i: usize = 0;
    while i < a.len()
        invariant
            i <= a.len(),
            a.len() == b.len(),
            forall|j: int| 0 <= j < i ==> a@[j] == b@[j],
        decreases a.len() - i,
    {
        if a[i] != b[i] {
            return false;
        }
        i = i + 1;
    }
    proof {
        assert(a@ =~= b@);
    }
    true
}

/// Copies a byte string.
pub fn clone_bytes(v: &Vec<u8>) -> (r: Vec<u8>)
    ensures
        r@ == v@,
{
    slice_to_vec(v.as_slice())
}

impl Object {
    /// Copies an object, children included.
    pub fn deep_clone(&self) -> (r: Object)
        ensures
            r.deep_view() == self.deep_view(),
        decreases *self,
    {
        match self {
            Object::Null => Object::Null,
            Object::Boolean(b) => Object::Boolean(*b),
            Object::Integer(i) => Object::Integer(*i),
            Object::Real(x) => Object::Real(*x),
            Object::ByteString(v, f) => Object::ByteString(clone_bytes(v), *f),
            Object::Name(v) => Object::Name(clone_bytes(v)),
            Object::Array(items) => {
                let n = items.len();
                let mut out: Vec<Object> = Vec::new();
                let mut i: usize = 0;
                proof {
                    assert(decreases_to!(*self => *items));
                }
                while i < n
                    invariant
                        i <= n,
                        n == items@.len(),
                        out@.len() == i,
                        forall|j: int|
                            0 <= j < i ==> out@[j].deep_view() == items@[j].deep_view(),
                        decreases_to!(*self => *items),
                    decreases n - i,
                {
                    proof {
                        assert(decreases_to!(*items => items@[i as int]));
                    }
                    out.push(items[i].deep_clone());
                    i = i + 1;
                }
                proof {
                    assert(arr_view(out@) =~= arr_view(items@));
                }
                Object::Array(out)
            }
            Object::Dictionary(d) => Object::Dictionary(d.deep_clone()),
            Object::Stream(s) => Object::Stream(
                StreamObj { dict: s.dict.deep_clone(), content: clone_bytes(&s.content) },
            ),
            Object::Reference(id) => Object::Reference(*id),
        }
    }
}

} // verus!
