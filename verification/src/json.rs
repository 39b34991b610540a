//! JSON values as the library handles them: entries of maps, replies of
//! servers, extra fields of a login.

use vstd::prelude::*;
use crate::text::{clone_bytes, find_key, keys_of, position};

verus! {

/// A JSON value. Numbers without a fraction are held as integers; any other
/// number is held as the text it was written with. An object is the list of
/// its members in the order they were written.
#[derive(Debug, PartialEq, Eq)]
pub enum Json {
    Null,
    Bool(bool),
    Int(i128),
    Real(Vec<u8>),
    Text(Vec<u8>),
    List(Vec<Json>),
    Object(Vec<(Vec<u8>, Json)>),
}

impl Json {
    /// The member of an object under a name: the first of that name.
    pub open spec fn field(self, key: Seq<u8>) -> Option<Json> {
        match self {
            Json::Object(o) => {
                let i = position(keys_of(o@), key);
                if 0 <= i < o@.len() {
                    Some(o@[i].1)
                } else {
                    None
                }
            },
            _ => None,
        }
    }

    /// The number of members of an object.
    pub open spec fn members(self) -> Option<nat> {
        match self {
            Json::Object(o) => Some(o@.len()),
            _ => None,
        }
    }

    /// The bytes of a string.
    pub open spec fn text(self) -> Option<Seq<u8>> {
        match self {
            Json::Text(t) => Some(t@),
            _ => None,
        }
    }

    /// An integer that fits 32 bits without a sign.
    pub open spec fn small(self) -> Option<u32> {
        match self {
            Json::Int(n) => if 0 <= n <= 0xffff_ffff {
                Some(n as u32)
            } else {
                None
            },
            _ => None,
        }
    }

    /// An integer that fits 64 bits with a sign.
    pub open spec fn signed(self) -> Option<i64> {
        match self {
            Json::Int(n) => if -0x8000_0000_0000_0000 <= n <= 0x7fff_ffff_ffff_ffff {
                Some(n as i64)
            } else {
                None
            },
            _ => None,
        }
    }

    /// The strings of an array that holds nothing but strings.
    pub open spec fn texts(self) -> Option<Seq<Seq<u8>>> {
        match self {
            Json::List(l) => if forall|i: int| 0 <= i < l@.len() ==> (#[trigger] l@[i]).text() is Some {
                Some(Seq::new(l@.len(), |i: int| l@[i].text().unwrap()))
            } else {
                None
            },
            _ => None,
        }
    }

    /// The numbers of an array that holds nothing but unsigned 32-bit integers.
    pub open spec fn smalls(self) -> Option<Seq<u32>> {
        match self {
            Json::List(l) => if forall|i: int|
                0 <= i < l@.len() ==> (#[trigger] l@[i]).small() is Some {
                Some(Seq::new(l@.len(), |i: int| l@[i].small().unwrap()))
            } else {
                None
            },
            _ => None,
        }
    }

    /// Looks up a member of an object.
    pub fn get(&self, key: &[u8]) -> (r: Option<&Json>)
        ensures
            match self.field(key@) {
                Some(v) => r matches Some(x) && *x == v,
                None => r is None,
            },
    {
        match self {
            Json::Object(o) => {
                let i = find_key(o, key);
                if i < o.len() {
                    Some(&o[i].1)
                } else {
                    None
                }
            },
            _ => None,
        }
    }

    /// The number of members, for an object.
    pub fn len(&self) -> (r: Option<usize>)
        ensures
            match self.members() {
                Some(n) => r == Some(n as usize) && n <= usize::MAX,
                None => r is None,
            },
    {
        match self {
            Json::Object(o) => Some(o.len()),
            _ => None,
        }
    }

    /// A copy of the bytes of a string.
    pub fn as_text(&self) -> (r: Option<Vec<u8>>)
        ensures
            match self.text() {
                Some(t) => r matches Some(x) && x@ == t,
                None => r is None,
            },
    {
        match self {
            Json::Text(t) => Some(clone_bytes(t.as_slice())),
            _ => None,
        }
    }

    /// The value of an unsigned 32-bit integer.
    pub fn as_u32(&self) -> (r: Option<u32>)
        ensures
            r == self.small(),
    {
        match self {
            Json::Int(n) => {
                if 0 <= *n && *n <= 0xffff_ffff {
                    Some(*n as u32)
                } else {
                    None
                }
            },
            _ => None,
        }
    }

    /// The value of a signed 64-bit integer.
    pub fn as_i64(&self) -> (r: Option<i64>)
        ensures
            r == self.signed(),
    {
        match self {
            Json::Int(n) => {
                if -0x8000_0000_0000_0000 <= *n && *n <= 0x7fff_ffff_ffff_ffff {
                    Some(*n as i64)
                } else {
                    None
                }
            },
            _ => None,
        }
    }

    /// Copies of the strings of an array of strings.
    pub fn as_texts(&self) -> (r: Option<Vec<Vec<u8>>>)
        ensures
            match self.texts() {
                Some(t) => r matches Some(x) && crate::text::views(x@) == t,
                None => r is None,
            },
    {
        match self {
            Json::List(l) => {
                let mut out: Vec<Vec<u8>> = Vec::new();
                let mut i: usize = 0;
                while i < l.len()
                    invariant
                        i <= l@.len(),
                        *self == Json::List(*l),
                        out@.len() == i,
                        forall|j: int| 0 <= j < i ==> (#[trigger] l@[j]).text() == Some(out@[j]@),
                    decreases l@.len() - i,
                {
                    match l[i].as_text() {
                        Some(t) => {
                            out.push(t);
                        },
                        None => {
                            assert(l@[i as int].text() is None);
                            return None;
                        },
                    }
                    i += 1;
                }
                assert(crate::text::views(out@) =~= self.texts().unwrap());
                Some(out)
            },
            _ => None,
        }
    }

    /// The numbers of an array of unsigned 32-bit integers.
    pub fn as_u32s(&self) -> (r: Option<Vec<u32>>)
        ensures
            match self.smalls() {
                Some(t) => r matches Some(x) && x@ == t,
                None => r is None,
            },
    {
        match self {
            Json::List(l) => {
                let mut out: Vec<u32> = Vec::new();
                let mut i: usize = 0;
                while i < l.len()
                    invariant
                        i <= l@.len(),
                        *self == Json::List(*l),
                        out@.len() == i,
                        forall|j: int| 0 <= j < i ==> (#[trigger] l@[j]).small() == Some(out@[j]),
                    decreases l@.len() - i,
                {
                    match l[i].as_u32() {
                        Some(t) => {
                            out.push(t);
                        },
                        None => {
                            assert(l@[i as int].small() is None);
                            return None;
                        },
                    }
                    i += 1;
                }
                assert(out@ =~= self.smalls().unwrap());
                Some(out)
            },
            _ => None,
        }
    }
}

} // verus!
