//! What the server and its scripts tell each other: the request that a
//! script function is called with, and how what it hands back is read.

use vstd::prelude::*;
use crate::errors::WnError;
use crate::json::Json;
use crate::text::{bytes_eq, clone_bytes, find_key, keys_of, lit, position};
use crate::util::{check_unix_password, hash_accepts};

verus! {

/// A value of a script, as far as the server reads it.
#[derive(Debug, PartialEq, Eq)]
pub enum ScriptValue {
    Integer(i64),
    Text(Vec<u8>),
    Other,
}

/// The status that a script asks for with the second value it hands back:
/// none if there is no second value, the value if it is an integer from 100
/// to 599, and a script error otherwise.
pub fn script_status(second: &Option<ScriptValue>) -> (r: Result<u16, WnError>)
    ensures
        r == (match *second {
            None => Ok::<u16, WnError>(0u16),
            Some(ScriptValue::Integer(n)) => if 100 <= n <= 599 {
                Ok(n as u16)
            } else {
                Err(WnError::LuaError)
            },
            Some(_) => Err(WnError::LuaError),
        }),
{
    match second {
        None => Ok(0),
        Some(ScriptValue::Integer(n)) => {
            if 100 <= *n && *n <= 599 {
                Ok(*n as u16)
            } else {
                Err(WnError::LuaError)
            }
        },
        Some(_) => Err(WnError::LuaError),
    }
}

/// What a lookup from a script comes to once the backend has answered: a
/// missing key is null, anything else is passed on.
pub fn script_lookup_result(res: Result<Json, WnError>) -> (r: Result<Json, WnError>)
    ensures
        r == (match res {
            Err(WnError::KeyNotFound) => Ok::<Json, WnError>(Json::Null),
            x => x,
        }),
{
    match res {
        Err(WnError::KeyNotFound) => Ok(Json::Null),
        x => x,
    }
}

/// What a scripted map comes to once the script has answered: null is a
/// missing key, a failure of the script is a failure.
pub fn lookup_lua_map(res: Result<Json, WnError>) -> (r: Result<Json, WnError>)
    ensures
        r == (match res {
            Ok(Json::Null) => Err::<Json, WnError>(WnError::KeyNotFound),
            Ok(m) => Ok(m),
            Err(_) => Err(WnError::Other),
        }),
{
    match res {
        Ok(Json::Null) => Err(WnError::KeyNotFound),
        Ok(m) => Ok(m),
        Err(_) => Err(WnError::Other),
    }
}

/// The request that a script function is called with. A lookup names the
/// key and its value; a login names the user, the password as it came,
/// percent-encoded, the map and key of the domain's descriptor where it has
/// them, and carries the other fields of the body.
#[derive(Debug, PartialEq, Eq)]
pub struct Request {
    pub domain: Vec<u8>,
    pub username: Option<Vec<u8>>,
    pub password: Option<Vec<u8>>,
    pub map: Option<Vec<u8>>,
    pub key: Option<Vec<u8>>,
    pub keyname: Option<Vec<u8>>,
    pub keyvalue: Option<Vec<u8>>,
    pub extra: Vec<(Vec<u8>, Json)>,
    /// The address that the request came from, as text.
    pub src_ip: Option<Vec<u8>>,
}

/// What a script finds under a name of a request: one of the request's
/// own texts, or a field of the body.
#[derive(Debug, PartialEq, Eq)]
pub enum Field<'a> {
    Text(&'a Vec<u8>),
    Value(&'a Json),
}

impl<'a> Field<'a> {
    /// The field as a value.
    pub open spec fn json(self) -> Json {
        match self {
            Field::Text(t) => Json::Text(*t),
            Field::Value(v) => *v,
        }
    }
}

/// A text as a value, if there is one.
pub open spec fn text_value(t: Option<Vec<u8>>) -> Option<Json> {
    match t {
        Some(x) => Some(Json::Text(x)),
        None => None,
    }
}

/// Whether `name` is one of the names that a request answers to itself.
pub open spec fn own_name(name: Seq<u8>) -> bool {
    name == lit("domain") || name == lit("username") || name == lit("password") || name == lit(
        "map",
    ) || name == lit("key") || name == lit("mapname") || name == lit("keyname") || name == lit(
        "keyvalue",
    ) || name == lit("log")
}

/// Whether a text is in a list.
pub open spec fn listed(l: Seq<Vec<u8>>, n: Seq<u8>) -> bool {
    exists|k: int| 0 <= k < l.len() && #[trigger] l[k]@ == n
}

/// What is in a list is in every list that starts with it.
pub proof fn lemma_listed_grows(a: Seq<Vec<u8>>, b: Seq<Vec<u8>>, n: Seq<u8>)
    requires
        a.len() <= b.len(),
        forall|k: int| 0 <= k < a.len() ==> b[k] == a[k],
        listed(a, n),
    ensures
        listed(b, n),
{
    let k = choose|k: int| 0 <= k < a.len() && #[trigger] a[k]@ == n;
    assert(b[k]@ == n);
}

impl Request {
    /// What a script finds under a name. The request's own names come
    /// first: `domain`, `username`, `password`, `map`, `key`, `keyvalue`,
    /// and `keyname`, which `mapname` stands for as well; each is found only
    /// if the request has it. Nothing is found under `log`: the data log is
    /// for the caller to put there. Any other name is looked up among the
    /// other fields of the body.
    pub open spec fn found(self, name: Seq<u8>) -> Option<Json> {
        if name == lit("domain") {
            Some(Json::Text(self.domain))
        } else if name == lit("username") {
            text_value(self.username)
        } else if name == lit("password") {
            text_value(self.password)
        } else if name == lit("map") {
            text_value(self.map)
        } else if name == lit("key") {
            text_value(self.key)
        } else if name == lit("mapname") || name == lit("keyname") {
            text_value(self.keyname)
        } else if name == lit("keyvalue") {
            text_value(self.keyvalue)
        } else if name == lit("log") {
            None
        } else {
            let i = position(keys_of(self.extra@), name);
            if 0 <= i < self.extra@.len() {
                Some(self.extra@[i].1)
            } else {
                None
            }
        }
    }

    /// The text among the other fields of the body that stands under a
    /// name, if what stands there is a text.
    pub open spec fn extra_text_of(self, name: Seq<u8>) -> Option<Seq<u8>> {
        let i = position(keys_of(self.extra@), name);
        if 0 <= i < self.extra@.len() {
            self.extra@[i].1.text()
        } else {
            None
        }
    }

    /// The request of a lookup in a scripted map.
    pub fn for_map(domain: Vec<u8>, keyname: Vec<u8>, keyvalue: Vec<u8>) -> (r: Request)
        ensures
            r == (Request {
                domain,
                username: None,
                password: None,
                map: None,
                key: None,
                keyname: Some(keyname),
                keyvalue: Some(keyvalue),
                extra: r.extra,
                src_ip: None,
            }),
            r.extra@.len() == 0,
    {
        Request {
            domain,
            username: None,
            password: None,
            map: None,
            key: None,
            keyname: Some(keyname),
            keyvalue: Some(keyvalue),
            extra: Vec::new(),
            src_ip: None,
        }
    }

    /// Looks a name up for a script.
    pub fn index<'a>(&'a self, name: &[u8]) -> (r: Option<Field<'a>>)
        ensures
            match self.found(name@) {
                Some(j) => r matches Some(f) && f.json() == j,
                None => r is None,
            },
    {
        if bytes_eq(name, "domain".as_bytes()) {
            Some(Field::Text(&self.domain))
        } else if bytes_eq(name, "username".as_bytes()) {
            own(&self.username)
        } else if bytes_eq(name, "password".as_bytes()) {
            own(&self.password)
        } else if bytes_eq(name, "map".as_bytes()) {
            own(&self.map)
        } else if bytes_eq(name, "key".as_bytes()) {
            own(&self.key)
        } else if bytes_eq(name, "mapname".as_bytes()) || bytes_eq(name, "keyname".as_bytes()) {
            own(&self.keyname)
        } else if bytes_eq(name, "keyvalue".as_bytes()) {
            own(&self.keyvalue)
        } else if bytes_eq(name, "log".as_bytes()) {
            None
        } else {
            let i = find_key(&self.extra, name);
            if i < self.extra.len() {
                Some(Field::Value(&self.extra[i].1))
            } else {
                None
            }
        }
    }

    /// The names under which a script finds something in the request: its
    /// own names as far as the request has them, then the names of the
    /// other fields of the body that none of its own names hides.
    pub fn names(&self) -> (r: Vec<Vec<u8>>)
        ensures
            forall|i: int| 0 <= i < r@.len() ==> self.found(#[trigger] r@[i]@) is Some,
            forall|n: Seq<u8>| self.found(n) is Some ==> listed(r@, n),
    {
        let mut r: Vec<Vec<u8>> = Vec::new();
        self.note("domain", &mut r);
        self.note("username", &mut r);
        self.note("password", &mut r);
        self.note("map", &mut r);
        self.note("key", &mut r);
        self.note("mapname", &mut r);
        self.note("keyname", &mut r);
        self.note("keyvalue", &mut r);
        let mut i: usize = 0;
        while i < self.extra.len()
            invariant
                i <= self.extra@.len(),
                forall|k: int| 0 <= k < r@.len() ==> self.found(#[trigger] r@[k]@) is Some,
                forall|n: Seq<u8>| own_name(n) && self.found(n) is Some ==> listed(r@, n),
                forall|j: int|
                    0 <= j < i && self.found(keys_of(self.extra@)[j]) is Some ==> listed(
                        r@,
                        #[trigger] keys_of(self.extra@)[j],
                    ),
            decreases self.extra@.len() - i,
        {
            let ghost before = r@;
            let name = self.extra[i].0.as_slice();
            assert(keys_of(self.extra@)[i as int] == name@);
            if !is_own(name) {
                proof {
                    crate::text::lemma_position(keys_of(self.extra@), name@);
                }
                r.push(clone_bytes(name));
                assert(r@[r@.len() - 1]@ == name@);
            }
            proof {
                assert forall|n: Seq<u8>| listed(before, n) implies listed(r@, n) by {
                    lemma_listed_grows(before, r@, n);
                }
            }
            i += 1;
        }
        proof {
            assert forall|n: Seq<u8>| self.found(n) is Some implies listed(r@, n) by {
                if !own_name(n) {
                    let j = position(keys_of(self.extra@), n);
                    crate::text::lemma_position(keys_of(self.extra@), n);
                    assert(keys_of(self.extra@)[j] == n);
                }
            }
        }
        r
    }

    /// Notes one of the request's own names if the request has it.
    fn note(&self, name: &str, r: &mut Vec<Vec<u8>>)
        requires
            forall|k: int| 0 <= k < old(r)@.len() ==> self.found(#[trigger] old(r)@[k]@) is Some,
        ensures
            forall|k: int| 0 <= k < final(r)@.len() ==> self.found(#[trigger] final(r)@[k]@) is Some,
            self.found(lit(name)) is Some ==> listed(final(r)@, lit(name)),
            forall|n: Seq<u8>| listed(old(r)@, n) ==> listed(final(r)@, n),
    {
        let ghost before = r@;
        if self.index(name.as_bytes()).is_some() {
            r.push(clone_bytes(name.as_bytes()));
            assert(r@[r@.len() - 1]@ == lit(name));
        }
        proof {
            assert forall|n: Seq<u8>| listed(before, n) implies listed(r@, n) by {
                lemma_listed_grows(before, r@, n);
            }
        }
    }

    /// The text that stands under a name among the other fields of the body.
    pub fn extra_text(&self, name: &[u8]) -> (r: Option<Vec<u8>>)
        ensures
            crate::text::opt_view(r) == self.extra_text_of(name@),
    {
        let i = find_key(&self.extra, name);
        if i < self.extra.len() {
            self.extra[i].1.as_text()
        } else {
            None
        }
    }

    /// Checks the password of the request against a hash, for a script.
    /// A request without a password matches no hash.
    pub fn checkpass(&self, hash: &[u8]) -> (r: bool)
        ensures
            r == (match self.password {
                Some(p) => hash_accepts(p@, hash@),
                None => false,
            }),
    {
        match &self.password {
            Some(p) => check_unix_password(p.as_slice(), hash),
            None => false,
        }
    }
}

fn is_own(name: &[u8]) -> (r: bool)
    ensures
        r == own_name(name@),
{
    bytes_eq(name, "domain".as_bytes()) || bytes_eq(name, "username".as_bytes()) || bytes_eq(
        name,
        "password".as_bytes(),
    ) || bytes_eq(name, "map".as_bytes()) || bytes_eq(name, "key".as_bytes()) || bytes_eq(
        name,
        "mapname".as_bytes(),
    ) || bytes_eq(name, "keyname".as_bytes()) || bytes_eq(name, "keyvalue".as_bytes())
        || bytes_eq(name, "log".as_bytes())
}

fn own<'a>(t: &'a Option<Vec<u8>>) -> (r: Option<Field<'a>>)
    ensures
        match text_value(*t) {
            Some(j) => r matches Some(f) && f.json() == j,
            None => r is None,
        },
{
    match t {
        Some(x) => Some(Field::Text(x)),
        None => None,
    }
}

} // verus!
