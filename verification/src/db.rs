//! Map backends: the kinds of backend, and the upkeep of cached handles.

use vstd::prelude::*;
use crate::errors::WnError;
use crate::json::Json;
use crate::text::{bytes_eq, first_some, lemma_first_some_stable, lit, parse_number, parse_unsigned};

verus! {

/// The backend that answers a map.
#[derive(PartialEq, Eq, Structural, Clone, Copy, Debug)]
pub enum MapType {
    /// A keyed hash file on disk.
    Gdbm,
    /// A file holding a JSON array of objects.
    Json,
    /// A function of the script environment.
    Lua,
    /// No type was configured.
    Unset,
}

impl MapType {
    /// The map type that a configuration names.
    pub open spec fn named(s: Seq<u8>) -> Option<MapType> {
        if s == lit("gdbm") {
            Some(MapType::Gdbm)
        } else if s == lit("json") {
            Some(MapType::Json)
        } else if s == lit("lua") {
            Some(MapType::Lua)
        } else {
            None
        }
    }

    /// Reads a map type name: `gdbm`, `json` or `lua`.
    pub fn from_str(s: &[u8]) -> (r: Result<MapType, WnError>)
        ensures
            r == (match MapType::named(s@) {
                Some(t) => Ok::<MapType, WnError>(t),
                None => Err(WnError::UnknownMapType),
            }),
    {
        if bytes_eq(s, "gdbm".as_bytes()) {
            Ok(MapType::Gdbm)
        } else if bytes_eq(s, "json".as_bytes()) {
            Ok(MapType::Json)
        } else if bytes_eq(s, "lua".as_bytes()) {
            Ok(MapType::Lua)
        } else {
            Err(WnError::UnknownMapType)
        }
    }

    /// The name of the variant, as diagnostics print it.
    pub open spec fn debug_name(self) -> Seq<u8> {
        match self {
            MapType::Gdbm => lit("Gdbm"),
            MapType::Json => lit("Json"),
            MapType::Lua => lit("Lua"),
            MapType::Unset => lit("None"),
        }
    }

    /// Writes the name of the variant.
    pub fn debug_bytes(&self) -> (r: &'static [u8])
        ensures
            r@ == self.debug_name(),
    {
        match self {
            MapType::Gdbm => "Gdbm".as_bytes(),
            MapType::Json => "Json".as_bytes(),
            MapType::Lua => "Lua".as_bytes(),
            MapType::Unset => "None".as_bytes(),
        }
    }
}


/// Whether a JSON value is what a key value stands for: the number, if the
/// key value is an unsigned 64-bit decimal number, the string otherwise.
pub open spec fn value_is(v: Json, keyval: Seq<u8>) -> bool {
    match parse_unsigned(keyval, 0xffff_ffff_ffff_ffff) {
        Some(n) => v == Json::Int(n as i128),
        None => v.text() == Some(keyval),
    }
}

/// Whether an element of the array has the key value under the key name.
pub open spec fn element_matches(obj: Json, keyname: Seq<u8>, keyval: Seq<u8>) -> bool {
    obj.field(keyname) matches Some(v) && value_is(v, keyval)
}

/// For each element of the array, its index if it matches.
pub open spec fn matching(l: Seq<Json>, keyname: Seq<u8>, keyval: Seq<u8>) -> Seq<Option<int>> {
    Seq::new(
        l.len(),
        |i: int|
            if element_matches(l[i], keyname, keyval) {
                Some(i)
            } else {
                None
            },
    )
}

/// What a lookup in a JSON file comes to: the first element of the array
/// that has the key value under the key name. A file that could not be read
/// passes its failure on; a value that is no array has no elements.
pub open spec fn json_found(
    entries: Result<Json, WnError>,
    keyname: Seq<u8>,
    keyval: Seq<u8>,
) -> Result<Json, WnError> {
    match entries {
        Err(e) => Err(e),
        Ok(Json::List(l)) => match first_some(matching(l@, keyname, keyval), l@.len() as int) {
            Some(i) => Ok(l@[i]),
            None => Err(WnError::KeyNotFound),
        },
        Ok(_) => Err(WnError::KeyNotFound),
    }
}

fn value_matches(v: &Json, keyval: &[u8]) -> (r: bool)
    ensures
        r == value_is(*v, keyval@),
{
    match parse_number(keyval, 0xffff_ffff_ffff_ffff) {
        Some(n) => match v {
            Json::Int(m) => *m == n as i128,
            _ => false,
        },
        None => match v {
            Json::Text(t) => bytes_eq(t.as_slice(), keyval),
            _ => false,
        },
    }
}

/// Looks a key up in the array that a JSON file holds. `entries` is what
/// the file was read as, or why it could not be read.
pub fn json_lookup(entries: Result<Json, WnError>, keyname: &[u8], keyval: &[u8]) -> (r: Result<
    Json,
    WnError,
>)
    ensures
        r == json_found(entries, keyname@, keyval@),
{
    let mut l = match entries {
        Err(e) => {
            return Err(e);
        },
        Ok(Json::List(l)) => l,
        Ok(_) => {
            return Err(WnError::KeyNotFound);
        },
    };
    let ghost hits = matching(l@, keyname@, keyval@);
    let ghost start = l;
    let mut idx: usize = 0;
    while idx < l.len()
        invariant
            idx <= l@.len(),
            l == start,
            entries == Ok::<Json, WnError>(Json::List(start)),
            hits == matching(l@, keyname@, keyval@),
            first_some(hits, idx as int) is None,
        decreases l@.len() - idx,
    {
        let found = match l[idx].get(keyname) {
            Some(v) => value_matches(v, keyval),
            None => false,
        };
        if found {
            proof {
                assert(hits[idx as int] == Some(idx as int));
                lemma_first_some_stable(hits, idx + 1, l@.len() as int);
            }
            let obj = l.swap_remove(idx);
            return Ok(obj);
        }
        assert(hits[idx as int] is None);
        idx += 1;
    }
    Err(WnError::KeyNotFound)
}

/// Time for which a cached handle is trusted and kept, in whole seconds.
pub const CACHE_SECONDS: u64 = 5;

/// What the server remembers of an open keyed hash file. Times are in
/// milliseconds since the epoch.
#[derive(Debug, PartialEq, Eq)]
pub struct GdbmDb {
    pub file_name: Vec<u8>,
    /// When the file was last modified, as far as it was known at opening.
    pub modified: Option<u64>,
    pub lastcheck: u64,
    pub lastused: u64,
}

/// Whether more than five whole seconds lie between `then` and `now`. A
/// time that lies ahead has no age.
pub open spec fn older_than_cache(then: u64, now: u64) -> bool {
    now >= then && (now - then) / 1000 > CACHE_SECONDS
}

/// Tests whether more than five whole seconds lie between `then` and `now`.
pub fn is_stale(then: u64, now: u64) -> (r: bool)
    ensures
        r == older_than_cache(then, now),
{
    now >= then && (now - then) / 1000 > CACHE_SECONDS
}

/// Whether a cached handle is still good, given a look at the file where
/// one was due. `stat` is `None` where no look was taken or the file could
/// not be looked at, and else the file's time of modification, if it has one.
pub open spec fn still_valid(db: GdbmDb, now: u64, stat: Option<Option<u64>>) -> bool {
    if older_than_cache(db.lastcheck, now) {
        match stat {
            Some(m) => m is Some && m == db.modified,
            None => true,
        }
    } else {
        true
    }
}

/// Whether the file of a cached handle has to be looked at before the handle is used.
pub fn check_due(db: &GdbmDb, now: u64) -> (r: bool)
    ensures
        r == older_than_cache(db.lastcheck, now),
{
    is_stale(db.lastcheck, now)
}

/// Decides whether a cached handle is still good. Where a look at the file
/// was due and the handle is good, the time of the look is remembered.
pub fn gdbm_check(db: &mut GdbmDb, now: u64, stat: Option<Option<u64>>) -> (r: bool)
    ensures
        r == still_valid(*old(db), now, stat),
        final(db).file_name == old(db).file_name,
        final(db).modified == old(db).modified,
        final(db).lastused == old(db).lastused,
        final(db).lastcheck == (if r && older_than_cache(old(db).lastcheck, now) {
            now
        } else {
            old(db).lastcheck
        }),
{
    let mut valid = true;
    if is_stale(db.lastcheck, now) {
        match stat {
            Some(m) => {
                valid = match (m, db.modified) {
                    (Some(m1), Some(m2)) => m1 == m2,
                    _ => false,
                };
            },
            None => {},
        }
        if valid {
            db.lastcheck = now;
        }
    }
    valid
}

/// The housekeeping of cached handles.
#[derive(Debug, PartialEq, Eq)]
pub struct Timer {}

impl Timer {
    /// One round of the housekeeping. Each entry is the time a handle was
    /// last used, or `None` for a handle that is gone. Tells for each entry
    /// whether it stays: a handle that is gone or has not been used for
    /// more than five seconds does not.
    pub fn interval(lastused: &Vec<Option<u64>>, now: u64) -> (r: Vec<bool>)
        ensures
            r@.len() == lastused@.len(),
            forall|i: int|
                0 <= i < r@.len() ==> #[trigger] r@[i] == (lastused@[i] matches Some(t)
                    && !older_than_cache(t, now)),
    {
        let mut r: Vec<bool> = Vec::new();
        let mut idx: usize = 0;
        while idx < lastused.len()
            invariant
                idx <= lastused@.len(),
                r@.len() == idx,
                forall|i: int|
                    0 <= i < idx ==> #[trigger] r@[i] == (lastused@[i] matches Some(t)
                        && !older_than_cache(t, now)),
            decreases lastused@.len() - idx,
        {
            let keep = match lastused[idx] {
                Some(t) => !is_stale(t, now),
                None => false,
            };
            r.push(keep);
            idx += 1;
        }
        r
    }
}

} // verus!
