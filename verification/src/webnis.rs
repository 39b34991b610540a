//! The map server's handlers, I/O aside: what a request is answered with,
//! or which backend has to be asked before it can be answered.

use vstd::prelude::*;
use crate::config::{Config, Domain, domain_names, find_map_spec, MapDef};
use crate::db::MapType;
use crate::errors::WnError;
use crate::format::Format;
use crate::iplist::{Addr, IpList, loopback, peer_admitted};
use crate::json::Json;
use crate::lua::Request;
use crate::response::text_field;
use crate::routematcher::{Builder, Match, Matcher, Route, route_regex};
use crate::text::{
    bytes_eq, clone_bytes, clone_opt_pairs, find_in_list, find_key, keys_of, lit, opt_pairs_view,
    opt_view, pairs_view, position, push_all, split, split_bytes, trim, trim_bytes, views,
};
use crate::util::{
    AuthInfo, AuthResult, challenge, check_http_auth, check_unix_password, hash_accepts,
    http_auth, http_unauthorized,
};

verus! {

/// The server: its configuration and the subnets that may use it.
#[derive(Debug, PartialEq, Eq)]
pub struct Webnis {
    pub config: Config,
    pub securenets: Option<IpList>,
}

/// What a request is answered with: the status and the JSON body.
#[derive(Debug, PartialEq, Eq)]
pub struct Reply {
    pub status: u16,
    pub body: Json,
}

/// A lookup that has to be made before a request can be answered.
#[derive(Debug, PartialEq, Eq)]
pub enum Backend {
    /// Fetch `key` from the keyed hash file at `path`; the line found is
    /// turned into an entry as `format` and `output` say.
    Gdbm { path: Vec<u8>, key: Vec<u8>, format: Format, output: Option<Vec<(Vec<u8>, Vec<u8>)>> },
    /// Find the object with `keyval` under `keyname` in the array of the file at `path`.
    Json { path: Vec<u8>, keyname: Vec<u8>, keyval: Vec<u8> },
    /// Call the script function with a request that names the domain, the
    /// key name and the key value.
    Lua { function: Vec<u8>, request: Request },
}

/// What a handler does: answer, or have a backend asked first.
#[derive(Debug, PartialEq, Eq)]
pub enum Step {
    Reply(Reply),
    Lookup(Backend),
}

/// Whether a body is an error body with a code and a message.
pub open spec fn is_error_body(body: Json, code: u16, message: Seq<u8>) -> bool {
    &&& body.members() == Some(1nat)
    &&& body.field(lit("error")) matches Some(e) && e.members() == Some(2nat) && e.field(
        lit("code"),
    ) == Some(Json::Int(code as i128)) && text_field(e, lit("message")) == Some(message)
}

/// Whether a reply is an error with a status, a code and a message.
pub open spec fn is_error(r: Reply, status: u16, code: u16, message: Seq<u8>) -> bool {
    r.status == status && is_error_body(r.body, code, message)
}

/// Whether a reply is a result with a status and a value.
pub open spec fn is_result(r: Reply, status: u16, value: Json) -> bool {
    r.status == status && r.body.members() == Some(1nat) && r.body.field(lit("result")) == Some(
        value,
    )
}

fn one_member(name: &str, value: Json) -> (r: Json)
    ensures
        r.members() == Some(1nat),
        r.field(lit(name)) == Some(value),
        forall|k: Seq<u8>| k != lit(name) ==> r.field(k) is None,
{
    let mut o: Vec<(Vec<u8>, Json)> = Vec::new();
    o.push((clone_bytes(name.as_bytes()), value));
    proof {
        assert(keys_of(o@) =~= seq![lit(name)]);
        assert forall|k: Seq<u8>| true implies position(keys_of(o@), k) == (if k == lit(name) {
            0int
        } else {
            1int
        }) by {
            crate::text::lemma_position(keys_of(o@), k);
        }
    }
    Json::Object(o)
}

/// An error reply: an object with the member `error`, which holds the code
/// and the message. The code is `inner` where one is given, the status otherwise.
pub fn json_error(outer: u16, inner: Option<u16>, msg: &[u8]) -> (r: Reply)
    ensures
        is_error(
            r,
            outer,
            match inner {
                Some(c) => c,
                None => outer,
            },
            msg@,
        ),
{
    let code = match inner {
        Some(c) => c,
        None => outer,
    };
    let mut o: Vec<(Vec<u8>, Json)> = Vec::new();
    o.push((clone_bytes("code".as_bytes()), Json::Int(code as i128)));
    o.push((clone_bytes("message".as_bytes()), Json::Text(clone_bytes(msg))));
    proof {
        reveal_strlit("code");
        reveal_strlit("message");
        broadcast use vstd::string::group_string_axioms;
        assert("code"@.len() == 4 && vstd::string::is_ascii("code"));
        assert("message"@.len() == 7 && vstd::string::is_ascii("message"));
        assert(lit("code").len() == 4);
        assert(lit("message").len() == 7);
        let k = keys_of(o@);
        assert(k =~= seq![lit("code"), lit("message")]);
        crate::text::lemma_position(k, lit("code"));
        crate::text::lemma_position(k, lit("message"));
        assert(position(k, lit("code")) == 0);
        assert(position(k, lit("message")) == 1);
    }
    Reply { status: outer, body: one_member("error", Json::Object(o)) }
}

/// A result reply: an object with the member `result`, which holds the value.
pub fn json_result(code: u16, value: Json) -> (r: Reply)
    ensures
        is_result(r, code, value),
{
    Reply { status: code, body: one_member("result", value) }
}

/// A reply whose body is the value itself.
pub fn json_result_raw(code: u16, raw: Json) -> (r: Reply)
    ensures
        r.status == code,
        r.body == raw,
{
    Reply { status: code, body: raw }
}

/// Whether `r` is the reply to a lookup that ended with `res`. A missing
/// key and a missing map are answered with 404; any other failure with 500;
/// an entry with 200.
pub open spec fn map_replied(res: Result<Json, WnError>, r: Reply) -> bool {
    match res {
        Ok(v) => is_result(r, 200, v),
        Err(WnError::KeyNotFound) => is_error(r, 404, 404, lit("No such key in map")),
        Err(WnError::MapNotFound) => is_error(r, 404, 404, lit("No such map")),
        Err(WnError::UnknownFormat) => is_error(r, 500, 500, lit("Unknown map format")),
        Err(WnError::SerializeJson) => is_error(r, 500, 500, lit("Serialize error")),
        Err(_) => is_error(r, 500, 500, lit("Error reading database")),
    }
}

/// The reply to a map lookup once the backend has answered.
pub fn map_reply(res: Result<Json, WnError>) -> (r: Reply)
    ensures
        map_replied(res, r),
{
    match res {
        Ok(v) => json_result(200, v),
        Err(WnError::KeyNotFound) => json_error(404, None, "No such key in map".as_bytes()),
        Err(WnError::MapNotFound) => json_error(404, None, "No such map".as_bytes()),
        Err(WnError::UnknownFormat) => json_error(500, None, "Unknown map format".as_bytes()),
        Err(WnError::SerializeJson) => json_error(500, None, "Serialize error".as_bytes()),
        Err(_) => json_error(500, None, "Error reading database".as_bytes()),
    }
}

/// The path of a map's file: the domain's database directory, a slash, the file.
pub open spec fn file_path(db_dir: Seq<u8>, file: Seq<u8>) -> Seq<u8> {
    db_dir + seq![0x2fu8] + file
}

fn path_of(dom: &Domain, map: &MapDef) -> (r: Vec<u8>)
    ensures
        r@ == file_path(
            dom.db_dir@,
            match map.map_file {
                Some(f) => f@,
                None => Seq::empty(),
            },
        ),
{
    let mut p = clone_bytes(dom.db_dir.as_slice());
    p.push(0x2f);
    match &map.map_file {
        Some(f) => {
            push_all(&mut p, f.as_slice());
        },
        None => {},
    }
    p
}

/// Whether `r` is the request of a lookup in a scripted map.
pub open spec fn lookup_request(
    r: Request,
    domain: Seq<u8>,
    keyname: Seq<u8>,
    keyval: Seq<u8>,
) -> bool {
    &&& r.domain@ == domain
    &&& opt_view(r.keyname) == Some(keyname)
    &&& opt_view(r.keyvalue) == Some(keyval)
    &&& r.username is None && r.password is None && r.map is None && r.key is None
    &&& r.src_ip is None
    &&& r.extra@.len() == 0
}

/// Whether `b` is the lookup of `keyval` that a map definition asks for.
/// A keyed hash file needs a format, or the format is unknown; a map
/// without a type is answered with `fallback`.
pub open spec fn backend_for(
    dom: Domain,
    map: MapDef,
    keyname: Seq<u8>,
    keyval: Seq<u8>,
    scripts: bool,
    fallback: WnError,
    b: Result<Backend, WnError>,
) -> bool {
    let path = file_path(
        dom.db_dir@,
        match map.map_file {
            Some(f) => f@,
            None => Seq::empty(),
        },
    );
    match map.map_type {
        MapType::Gdbm => match map.map_format {
            None => b matches Err(e) && e == WnError::UnknownFormat,
            Some(f) => b matches Ok(Backend::Gdbm { path: p, key, format, output }) && p@ == path
                && key@ == keyval && format == f && opt_pairs_view(output) == opt_pairs_view(
                map.map_output,
            ),
        },
        MapType::Json => b matches Ok(Backend::Json { path: p, keyname: kn, keyval: kv }) && p@
            == path && kn@ == keyname && kv@ == keyval,
        MapType::Lua => if scripts && map.lua_function is Some {
            b matches Ok(Backend::Lua { function, request }) && Some(function@) == opt_view(
                map.lua_function,
            ) && lookup_request(request, dom.name@, keyname, keyval)
        } else {
            b matches Err(e) && e == fallback
        },
        MapType::Unset => b matches Err(e) && e == fallback,
    }
}

/// The lookup that a map definition asks for.
pub fn lookup_for(
    dom: &Domain,
    map: &MapDef,
    keyname: &[u8],
    keyval: &[u8],
    scripts: bool,
    fallback: WnError,
) -> (r: Result<Backend, WnError>)
    ensures
        backend_for(*dom, *map, keyname@, keyval@, scripts, fallback, r),
{
    match map.map_type {
        MapType::Gdbm => {
            let format = match map.map_format {
                None => {
                    return Err(WnError::UnknownFormat);
                },
                Some(f) => f,
            };
            Ok(
                Backend::Gdbm {
                    path: path_of(dom, map),
                    key: clone_bytes(keyval),
                    format,
                    output: clone_opt_pairs(&map.map_output),
                },
            )
        },
        MapType::Json => Ok(
            Backend::Json {
                path: path_of(dom, map),
                keyname: clone_bytes(keyname),
                keyval: clone_bytes(keyval),
            },
        ),
        MapType::Lua => {
            if !scripts {
                return Err(fallback);
            }
            match &map.lua_function {
                Some(f) => Ok(
                    Backend::Lua {
                        function: clone_bytes(f.as_slice()),
                        request: Request::for_map(
                            clone_bytes(dom.name.as_slice()),
                            clone_bytes(keyname),
                            clone_bytes(keyval),
                        ),
                    },
                ),
                None => Err(fallback),
            }
        },
        MapType::Unset => Err(fallback),
    }
}


/// What a map request comes to. An unknown domain and a map that the
/// domain does not offer are answered with 404; then a request without a
/// query with 400. The first parameter of the query is the key: if no
/// definition of the map answers on it, the answer is 404. Otherwise the
/// backend of the first definition that answers on the key is to be asked.
pub open spec fn map_step(
    config: Config,
    domain: Seq<u8>,
    map: Seq<u8>,
    query: Seq<(Seq<u8>, Seq<u8>)>,
    s: Step,
) -> bool {
    let d = position(domain_names(config.domain@), domain);
    if !(0 <= d < config.domain@.len()) {
        s matches Step::Reply(r) && is_error(r, 404, 404, lit("Domain not found"))
    } else if position(views(config.domain@[d].maps@), map) >= config.domain@[d].maps@.len() {
        s matches Step::Reply(r) && is_error(r, 404, 404, lit("No such map"))
    } else if query.len() == 0 {
        s matches Step::Reply(r) && is_error(r, 400, 400, lit("Query params missing"))
    } else {
        match find_map_spec(config.map_@, map, query[0].0) {
            None => s matches Step::Reply(r) && is_error(r, 404, 404, lit("No such map")),
            Some((t, i, k)) => exists|b: Result<Backend, WnError>| #[trigger]
                backend_for(
                    config.domain@[d],
                    config.map_@[t].1@[i],
                    k,
                    query[0].1,
                    true,
                    WnError::DbOther,
                    b,
                ) && (match b {
                    Ok(x) => s == Step::Lookup(x),
                    Err(e) => s matches Step::Reply(r) && map_replied(Err(e), r),
                }),
        }
    }
}

/// The reply to a login that was rejected.
pub open spec fn is_rejection(r: Reply, status: u16) -> bool {
    is_error(r, status, 401, lit("Password incorrect"))
}

/// Whether `r` is the reply to a login that a script has decided. A null
/// value rejects the login with 401; any other value accepts it, with the
/// script's status and the value as the body, or with 200 and the value as
/// the result. A failure of the script is answered with 500.
pub open spec fn script_replied(res: Result<(Json, u16), WnError>, r: Reply) -> bool {
    match res {
        Ok((Json::Null, status)) => is_rejection(r, 401),
        Ok((v, status)) => if status == 0 {
            is_result(r, 200, v)
        } else {
            r.status == status && r.body == v
        },
        Err(_) => is_error(r, 500, 500, lit("Internal server error")),
    }
}

/// The reply to a login that a script has decided.
pub fn script_auth_reply(res: Result<(Json, u16), WnError>) -> (r: Reply)
    ensures
        script_replied(res, r),
{
    match res {
        Ok((Json::Null, _)) => json_error(401, Some(401), "Password incorrect".as_bytes()),
        Ok((v, status)) => {
            if status == 0 {
                json_result(200, v)
            } else {
                json_result_raw(status, v)
            }
        },
        Err(_) => json_error(500, None, "Internal server error".as_bytes()),
    }
}

/// Whether the entry of a user accepts a password: the entry has a string
/// `passwd`, and the password matches that hash.
pub open spec fn entry_accepts(entry: Json, password: Seq<u8>) -> bool {
    match text_field(entry, lit("passwd")) {
        Some(h) => hash_accepts(password, h),
        None => false,
    }
}

/// Checks a password against the entry of a user.
pub fn check_entry(entry: &Json, password: &[u8]) -> (r: bool)
    ensures
        r == entry_accepts(*entry, password@),
{
    match entry.get("passwd".as_bytes()) {
        Some(v) => match v.as_text() {
            Some(h) => check_unix_password(password, h.as_slice()),
            None => false,
        },
        None => false,
    }
}

/// Whether `r` is the verdict on a login by map once the backend has
/// answered: a missing user is no match, an entry decides by its hash, and
/// any other failure is passed on.
pub open spec fn auth_verdict(res: Result<Json, WnError>, password: Seq<u8>) -> Result<
    bool,
    WnError,
> {
    match res {
        Ok(j) => Ok(entry_accepts(j, password)),
        Err(WnError::KeyNotFound) => Ok(false),
        Err(e) => Err(e),
    }
}

/// The verdict on a login by map once the backend has answered.
pub fn auth_map(res: &Result<Json, WnError>, password: &[u8]) -> (r: Result<bool, WnError>)
    ensures
        r == auth_verdict(*res, password@),
{
    match res {
        Ok(j) => Ok(check_entry(j, password)),
        Err(WnError::KeyNotFound) => Ok(false),
        Err(e) => Err(*e),
    }
}

/// Whether `r` is the reply to a login by map once the backend has
/// answered: 200 with an empty object if the entry accepts the password,
/// 401 if it does not, 404 if the user or the map is missing, 500 otherwise.
pub open spec fn auth_replied(res: Result<Json, WnError>, password: Seq<u8>, r: Reply) -> bool {
    match res {
        Ok(j) => if entry_accepts(j, password) {
            r.status == 200 && r.body.members() == Some(1nat) && (r.body.field(
                lit("result"),
            ) matches Some(v) && v.members() == Some(0nat))
        } else {
            is_rejection(r, 401)
        },
        Err(WnError::KeyNotFound) => is_error(r, 404, 404, lit("No such key in map")),
        Err(WnError::MapNotFound) => is_error(r, 404, 404, lit("Associated auth map not found")),
        Err(_) => is_error(r, 500, 500, lit("Internal server error")),
    }
}

/// The reply to a login by map once the backend has answered.
pub fn auth_reply(res: &Result<Json, WnError>, password: &[u8]) -> (r: Reply)
    ensures
        auth_replied(*res, password@, r),
{
    match res {
        Ok(j) => {
            if check_entry(j, password) {
                json_result(200, Json::Object(Vec::new()))
            } else {
                json_error(401, Some(401), "Password incorrect".as_bytes())
            }
        },
        Err(WnError::KeyNotFound) => json_error(404, None, "No such key in map".as_bytes()),
        Err(WnError::MapNotFound) => json_error(
            404,
            None,
            "Associated auth map not found".as_bytes(),
        ),
        Err(_) => json_error(500, None, "Internal server error".as_bytes()),
    }
}

/// What a login request does: answer, hand the login to a script, or have
/// the user looked up before the password is checked.
#[derive(Debug, PartialEq, Eq)]
pub enum AuthStep {
    Reply(Reply),
    Script { function: Vec<u8>, request: Request },
    Lookup { backend: Backend, password: Vec<u8> },
}

impl Webnis {
    /// A server over a configuration and, where access is restricted, the
    /// subnets that may use it.
    pub fn new(config: Config, securenets: Option<IpList>) -> (r: Webnis)
        ensures
            r.config == config,
            r.securenets == securenets,
    {
        Webnis { config, securenets }
    }

    /// Handles a request for a map.
    pub fn handle_map(&self, domain: &[u8], map: &[u8], query: &Vec<(Vec<u8>, Vec<u8>)>) -> (r:
        Step)
        ensures
            map_step(self.config, domain@, map@, crate::text::pairs_view(query@), r),
    {
        proof {
            crate::text::lemma_position(domain_names(self.config.domain@), domain@);
        }
        let dom = match self.config.find_domain(domain) {
            None => {
                return Step::Reply(json_error(404, None, "Domain not found".as_bytes()));
            },
            Some(d) => d,
        };
        if find_in_list(&dom.maps, map) >= dom.maps.len() {
            return Step::Reply(json_error(404, None, "No such map".as_bytes()));
        }
        if query.len() == 0 {
            return Step::Reply(json_error(400, None, "Query params missing".as_bytes()));
        }
        let keyname = query[0].0.as_slice();
        let keyval = query[0].1.as_slice();
        assert(crate::text::pairs_view(query@)[0] == (keyname@, keyval@));
        let (mapdef, key) = match self.config.find_allowed_map(dom, map, keyname) {
            None => {
                return Step::Reply(json_error(404, None, "No such map".as_bytes()));
            },
            Some(m) => m,
        };
        let b = lookup_for(dom, mapdef, key.as_slice(), keyval, true, WnError::DbOther);
        let ghost witness = b;
        let r = match b {
            Ok(x) => Step::Lookup(x),
            Err(e) => Step::Reply(map_reply(Err(e))),
        };
        proof {
            let d = position(domain_names(self.config.domain@), domain@);
            let found = find_map_spec(self.config.map_@, map@, keyname@);
            assert(found is Some);
            let (t, i, k) = found.unwrap();
            assert(backend_for(
                self.config.domain@[d],
                self.config.map_@[t].1@[i],
                k,
                keyval@,
                true,
                WnError::DbOther,
                witness,
            ));
            assert(match witness {
                Ok(x) => r == Step::Lookup(x),
                Err(e) => r matches Step::Reply(rr) && map_replied(Err(e), rr),
            });
            assert(pairs_view(query@)[0].1 == keyval@);
            assert(pairs_view(query@)[0].0 == keyname@);
        }
        r
    }

    /// Plans a lookup that a script asks for: an unknown domain or map is a
    /// database failure; only keyed hash files and JSON files can be read.
    pub fn lua_map_lookup(
        &self,
        domain: &[u8],
        mapname: &[u8],
        keyname: &[u8],
        keyval: &[u8],
    ) -> (r: Result<Backend, WnError>)
        ensures
            ({
                let d = position(domain_names(self.config.domain@), domain@);
                if !(0 <= d < self.config.domain@.len()) {
                    r matches Err(e) && e == WnError::DbOther
                } else {
                    match find_map_spec(self.config.map_@, mapname@, keyname@) {
                        None => r matches Err(e) && e == WnError::DbOther,
                        Some((t, i, k)) => backend_for(
                            self.config.domain@[d],
                            self.config.map_@[t].1@[i],
                            k,
                            keyval@,
                            false,
                            WnError::Other,
                            r,
                        ),
                    }
                }
            }),
    {
        proof {
            crate::text::lemma_position(domain_names(self.config.domain@), domain@);
        }
        let dom = match self.config.find_domain(domain) {
            None => {
                return Err(WnError::DbOther);
            },
            Some(d) => d,
        };
        let (mapdef, key) = match self.config.find_map(mapname, keyname) {
            None => {
                return Err(WnError::DbOther);
            },
            Some(m) => m,
        };
        lookup_for(dom, mapdef, key.as_slice(), keyval, false, WnError::Other)
    }

    /// Plans the check of a password that a script asks for: an unknown
    /// domain is a database failure, an unknown map is a missing map, and
    /// only keyed hash files and JSON files can be read.
    pub fn lua_map_auth(&self, domain: &[u8], map: &[u8], key: &[u8], username: &[u8]) -> (r:
        Result<Backend, WnError>)
        ensures
            ({
                let d = position(domain_names(self.config.domain@), domain@);
                if !(0 <= d < self.config.domain@.len()) {
                    r matches Err(e) && e == WnError::DbOther
                } else {
                    match find_map_spec(self.config.map_@, map@, key@) {
                        None => r matches Err(e) && e == WnError::MapNotFound,
                        Some((t, i, k)) => backend_for(
                            self.config.domain@[d],
                            self.config.map_@[t].1@[i],
                            k,
                            username@,
                            false,
                            WnError::DbOther,
                            r,
                        ),
                    }
                }
            }),
    {
        proof {
            crate::text::lemma_position(domain_names(self.config.domain@), domain@);
        }
        let dom = match self.config.find_domain(domain) {
            None => {
                return Err(WnError::DbOther);
            },
            Some(d) => d,
        };
        let (mapdef, keyname) = match self.config.find_map(map, key) {
            None => {
                return Err(WnError::MapNotFound);
            },
            Some(m) => m,
        };
        lookup_for(dom, mapdef, keyname.as_slice(), username, false, WnError::DbOther)
    }
}


/// Why a request is turned away before a handler sees it.
#[derive(Debug, PartialEq, Eq)]
pub enum Reject {
    /// A plain-text refusal with a status.
    Status(u16, Vec<u8>),
    /// Credentials are missing or wrong; the challenge, if the domain has a schema.
    Unauthorized(Option<Vec<u8>>),
    /// There is nothing at this address.
    NotFound,
}

/// Whether a request is let through to the handlers, and if not, why. The
/// peer's address must be known, or the request is refused with 400. Where
/// access is restricted, the peer must be in one of the subnets or be a
/// loopback address, or the request is refused with 403. The domain must
/// exist, or there is nothing at the address. The domain's check of the
/// authorization header must let the request in, or credentials are asked for.
pub open spec fn let_through(
    w: Webnis,
    domain: Seq<u8>,
    peer: Option<Addr>,
    authz: Option<Seq<u8>>,
    r: Result<(), Reject>,
) -> bool {
    let d = position(domain_names(w.config.domain@), domain);
    if peer is None {
        r matches Err(Reject::Status(c, m)) && c == 400 && m@ == lit("no client ip addr\n")
    } else if w.securenets matches Some(l)
        && !(l.admits(peer.unwrap()) || loopback(peer.unwrap())) {
        r matches Err(Reject::Status(c, m)) && c == 403 && m@ == lit("access denied\n")
    } else if !(0 <= d < w.config.domain@.len()) {
        r matches Err(Reject::NotFound)
    } else {
        let dom = w.config.domain@[d];
        if http_auth(
            authz,
            opt_view(dom.http_authschema),
            opt_view(dom.http_authtoken),
            opt_view(dom.http_authencoding),
        ) == AuthResult::AuthOk {
            r is Ok
        } else {
            r matches Err(Reject::Unauthorized(c)) && opt_view(c) == (match dom.http_authschema {
                Some(s) => Some(challenge(dom.name@, s@)),
                None => None,
            })
        }
    }
}

/// What a login request comes to before any backend is asked. An unknown
/// domain is answered with 404, a body without user and password with 400,
/// a domain without a descriptor for logins with 404. A descriptor with a
/// script function hands the login to the script. Any other descriptor
/// names a map and a key: if no definition of the map answers on the key,
/// the answer is 404; otherwise the user is looked up in that map.
pub open spec fn auth_step(
    config: Config,
    domain: Seq<u8>,
    has_info: bool,
    username: Seq<u8>,
    s: AuthStep,
) -> bool {
    let d = position(domain_names(config.domain@), domain);
    if !(0 <= d < config.domain@.len()) {
        s matches AuthStep::Reply(r) && is_error(r, 404, 404, lit("Domain not found"))
    } else if !has_info {
        s matches AuthStep::Reply(r) && is_error(r, 400, 400, lit("Body parameters missing"))
    } else {
        let dom = config.domain@[d];
        let a = match dom.auth {
            Some(n) => position(keys_of(config.auth@), n@),
            None => config.auth@.len() as int,
        };
        if !(0 <= a < config.auth@.len()) {
            s matches AuthStep::Reply(r) && is_error(r, 404, 404, lit("Authentication not enabled"))
        } else if config.auth@[a].1.lua_function is Some {
            s matches AuthStep::Script { function, request } && function@
                == config.auth@[a].1.lua_function.unwrap()@ && request.domain@ == dom.name@
                && opt_view(request.map) == opt_view(config.auth@[a].1.map) && opt_view(
                request.key,
            ) == opt_view(config.auth@[a].1.key) && request.keyname is None && request.keyvalue
                is None && request.src_ip is None
        } else if config.auth@[a].1.map is None || config.auth@[a].1.key is None {
            s matches AuthStep::Reply(r) && is_error(
                r,
                404,
                404,
                lit("Associated auth map not found"),
            )
        } else {
            map_auth_step(
                config,
                dom,
                config.auth@[a].1.map.unwrap()@,
                config.auth@[a].1.key.unwrap()@,
                username,
                s,
            )
        }
    }
}

/// What a login by map comes to before the backend is asked: if no
/// definition of the map answers on the key, the answer is 404; otherwise
/// the user is looked up in the backend of the definition that does. A
/// definition that is neither a keyed hash file nor a JSON file is
/// answered with 500.
pub open spec fn map_auth_step(
    config: Config,
    dom: Domain,
    map: Seq<u8>,
    key: Seq<u8>,
    username: Seq<u8>,
    s: AuthStep,
) -> bool {
    match find_map_spec(config.map_@, map, key) {
        None => s matches AuthStep::Reply(r) && is_error(
            r,
            404,
            404,
            lit("Associated auth map not found"),
        ),
        Some((t, i, k)) => exists|b: Result<Backend, WnError>| #[trigger]
            backend_for(dom, config.map_@[t].1@[i], k, username, false, WnError::DbOther, b) && (
            match b {
                Ok(x) => s matches AuthStep::Lookup { backend, password } && backend == x,
                Err(_) => s matches AuthStep::Reply(r) && is_error(
                    r,
                    500,
                    500,
                    lit("Internal server error"),
                ),
            }),
    }
}

impl Webnis {
    /// Decides whether a request is let through to the handlers.
    pub fn check_authorization(
        &self,
        domain: &[u8],
        peer: Option<Addr>,
        authz: Option<&[u8]>,
    ) -> (r: Result<(), Reject>)
        requires
            self.securenets matches Some(l) ==> l.wf(),
        ensures
            let_through(
                *self,
                domain@,
                peer,
                match authz {
                    Some(a) => Some(a@),
                    None => None,
                },
                r,
            ),
    {
        proof {
            crate::text::lemma_position(domain_names(self.config.domain@), domain@);
        }
        let ip = match peer {
            Some(ip) => ip,
            None => {
                return Err(Reject::Status(400, clone_bytes("no client ip addr\n".as_bytes())));
            },
        };
        if !peer_admitted(&self.securenets, ip) {
            return Err(Reject::Status(403, clone_bytes("access denied\n".as_bytes())));
        }
        let dom = match self.config.find_domain(domain) {
            None => {
                return Err(Reject::NotFound);
            },
            Some(d) => d,
        };
        match check_http_auth(authz, dom) {
            AuthResult::AuthOk => Ok(()),
            _ => Err(
                Reject::Unauthorized(
                    http_unauthorized(dom.name.as_slice(), dom.http_authschema.as_ref()),
                ),
            ),
        }
    }

    /// Handles a login request up to the point where a script or a map has to be asked.
    pub fn handle_auth(&self, domain: &[u8], info: Option<AuthInfo>) -> (r: AuthStep)
        ensures
            auth_step(
                self.config,
                domain@,
                info is Some,
                match info {
                    Some(given) => given.username@,
                    None => Seq::empty(),
                },
                r,
            ),
            r matches AuthStep::Lookup { backend, password } ==> password == info.unwrap().password,
            r matches AuthStep::Script { function, request } ==> request.username == Some(
                info.unwrap().username,
            ) && request.password == Some(info.unwrap().password) && request.extra
                == info.unwrap().extra,
    {
        proof {
            crate::text::lemma_position(domain_names(self.config.domain@), domain@);
        }
        let dom = match self.config.find_domain(domain) {
            None => {
                return AuthStep::Reply(json_error(404, None, "Domain not found".as_bytes()));
            },
            Some(d) => d,
        };
        let authinfo = match info {
            None => {
                return AuthStep::Reply(json_error(400, None, "Body parameters missing".as_bytes()));
            },
            Some(ai) => ai,
        };
        let a = match &dom.auth {
            Some(n) => find_key(&self.config.auth, n.as_slice()),
            None => self.config.auth.len(),
        };
        proof {
            match &dom.auth {
                Some(n) => {
                    crate::text::lemma_position(keys_of(self.config.auth@), n@);
                },
                None => {},
            }
        }
        if a >= self.config.auth.len() {
            return AuthStep::Reply(
                json_error(404, None, "Authentication not enabled".as_bytes()),
            );
        }
        let auth = &self.config.auth[a].1;
        match &auth.lua_function {
            Some(f) => {
                return AuthStep::Script {
                    function: clone_bytes(f.as_slice()),
                    request: Request {
                        domain: clone_bytes(dom.name.as_slice()),
                        username: Some(authinfo.username),
                        password: Some(authinfo.password),
                        map: crate::text::clone_opt(&auth.map),
                        key: crate::text::clone_opt(&auth.key),
                        keyname: None,
                        keyvalue: None,
                        extra: authinfo.extra,
                        src_ip: None,
                    },
                };
            },
            None => {},
        }
        let (auth_map, auth_key) = match (&auth.map, &auth.key) {
            (Some(m), Some(k)) => (m, k),
            _ => {
                return AuthStep::Reply(
                    json_error(404, None, "Associated auth map not found".as_bytes()),
                );
            },
        };
        self.auth_by_map(dom, auth_map.as_slice(), auth_key.as_slice(), authinfo)
    }
}


impl Webnis {
    /// Plans a login against a map.
    fn auth_by_map(&self, dom: &Domain, map: &[u8], key: &[u8], authinfo: AuthInfo) -> (r: AuthStep)
        ensures
            map_auth_step(self.config, *dom, map@, key@, authinfo.username@, r),
            r matches AuthStep::Lookup { backend, password } ==> password == authinfo.password,
            !(r is Script),
    {
        let (mapdef, keyname) = match self.config.find_map(map, key) {
            None => {
                return AuthStep::Reply(
                    json_error(404, None, "Associated auth map not found".as_bytes()),
                );
            },
            Some(m) => m,
        };
        let b = lookup_for(
            dom,
            mapdef,
            keyname.as_slice(),
            authinfo.username.as_slice(),
            false,
            WnError::DbOther,
        );
        let ghost witness = b;
        let r = match b {
            Ok(backend) => AuthStep::Lookup { backend, password: authinfo.password },
            Err(_) => AuthStep::Reply(json_error(500, None, "Internal server error".as_bytes())),
        };
        proof {
            let found = find_map_spec(self.config.map_@, map@, key@);
            let (t, i, k) = found.unwrap();
            assert(backend_for(
                *dom,
                self.config.map_@[t].1@[i],
                k,
                authinfo.username@,
                false,
                WnError::DbOther,
                witness,
            ));
            assert(match witness {
                Ok(x) => r matches AuthStep::Lookup { backend, password } && backend == x,
                Err(_) => r matches AuthStep::Reply(rr) && is_error(
                    rr,
                    500,
                    500,
                    lit("Internal server error"),
                ),
            });
        }
        r
    }
}

/// The key names that the definitions of a map answer on: for each
/// definition its key, its keys and the names of its aliases, in this order.
pub open spec fn info_keys(defs: Seq<MapDef>, n: int) -> Seq<Seq<u8>>
    decreases n,
{
    if n <= 0 {
        Seq::empty()
    } else {
        info_keys(defs, n - 1) + (match defs[n - 1].key {
            Some(k) => seq![k@],
            None => Seq::empty(),
        }) + views(defs[n - 1].keys@) + keys_of(defs[n - 1].key_alias@)
    }
}

/// What is told about the first `n` maps that a domain offers: for each of
/// them that is defined, its name and the key names it answers on.
pub open spec fn info_maps(config: Config, maps: Seq<Seq<u8>>, n: int) -> Seq<
    (Seq<u8>, Seq<Seq<u8>>),
>
    decreases n,
{
    if n <= 0 {
        Seq::empty()
    } else {
        let t = position(keys_of(config.map_@), maps[n - 1]);
        if 0 <= t < config.map_@.len() {
            info_maps(config, maps, n - 1).push(
                (maps[n - 1], info_keys(config.map_@[t].1@, config.map_@[t].1@.len() as int)),
            )
        } else {
            info_maps(config, maps, n - 1)
        }
    }
}

/// What an object of maps tells: for each member its name and the strings
/// under `keys`, if every member is an object with just that array of strings.
pub open spec fn told_maps(j: Json) -> Option<Seq<(Seq<u8>, Seq<Seq<u8>>)>> {
    match j {
        Json::Object(o) => if forall|i: int|
            0 <= i < o@.len() ==> (#[trigger] o@[i]).1.members() == Some(1nat)
                && (match o@[i].1.field(
                lit("keys"),
            ) {
                Some(l) => l.texts() is Some,
                None => false,
            }) {
            Some(
                Seq::new(
                    o@.len(),
                    |i: int| (o@[i].0@, o@[i].1.field(lit("keys")).unwrap().texts().unwrap()),
                ),
            )
        } else {
            None
        },
        _ => None,
    }
}

fn text_list(l: &Vec<Vec<u8>>) -> (r: Json)
    ensures
        r.texts() == Some(views(l@)),
{
    let mut out: Vec<Json> = Vec::new();
    let mut i: usize = 0;
    while i < l.len()
        invariant
            i <= l@.len(),
            out@.len() == i,
            forall|k: int| 0 <= k < i ==> (#[trigger] out@[k]).text() == Some(l@[k]@),
        decreases l@.len() - i,
    {
        out.push(Json::Text(clone_bytes(l[i].as_slice())));
        i += 1;
    }
    let r = Json::List(out);
    assert(r.texts() is Some);
    assert(r.texts().unwrap() =~= views(l@));
    r
}

fn keys_of_defs(defs: &Vec<MapDef>) -> (r: Vec<Vec<u8>>)
    ensures
        views(r@) == info_keys(defs@, defs@.len() as int),
{
    let mut keys: Vec<Vec<u8>> = Vec::new();
    let mut i: usize = 0;
    assert(views(keys@) =~= Seq::<Seq<u8>>::empty());
    while i < defs.len()
        invariant
            i <= defs@.len(),
            views(keys@) == info_keys(defs@, i as int),
        decreases defs@.len() - i,
    {
        let m = &defs[i];
        let ghost before = views(keys@);
        match &m.key {
            Some(k) => {
                keys.push(clone_bytes(k.as_slice()));
                assert(views(keys@) =~= before.push(k@));
            },
            None => {},
        }
        let ghost with_key = views(keys@);
        let mut a: usize = 0;
        while a < m.keys.len()
            invariant
                a <= m.keys@.len(),
                views(keys@) == with_key + views(m.keys@).take(a as int),
            decreases m.keys@.len() - a,
        {
            let ghost prev = views(keys@);
            keys.push(clone_bytes(m.keys[a].as_slice()));
            assert(views(keys@) =~= prev.push(m.keys@[a as int]@));
            assert(views(m.keys@).take(a + 1) =~= views(m.keys@).take(a as int).push(
                m.keys@[a as int]@,
            ));
            a += 1;
        }
        assert(views(m.keys@).take(a as int) =~= views(m.keys@));
        let ghost with_keys = views(keys@);
        let mut c: usize = 0;
        while c < m.key_alias.len()
            invariant
                c <= m.key_alias@.len(),
                views(keys@) == with_keys + keys_of(m.key_alias@).take(c as int),
            decreases m.key_alias@.len() - c,
        {
            let ghost prev = views(keys@);
            keys.push(clone_bytes(m.key_alias[c].0.as_slice()));
            assert(views(keys@) =~= prev.push(m.key_alias@[c as int].0@));
            assert(keys_of(m.key_alias@).take(c + 1) =~= keys_of(m.key_alias@).take(c as int).push(
                m.key_alias@[c as int].0@,
            ));
            c += 1;
        }
        assert(keys_of(m.key_alias@).take(c as int) =~= keys_of(m.key_alias@));
        assert(views(keys@) =~= info_keys(defs@, i + 1));
        i += 1;
    }
    keys
}

impl Webnis {
    /// Tells which maps a domain offers and which key names each of them
    /// answers on: an object with the member `maps`, which holds an object
    /// for each map with the key names under `keys`.
    pub fn handle_info(&self, domain: &[u8]) -> (r: Reply)
        ensures
            ({
                let d = position(domain_names(self.config.domain@), domain@);
                if !(0 <= d < self.config.domain@.len()) {
                    is_error(r, 404, 404, lit("Domain not found"))
                } else {
                    r.status == 200 && r.body.members() == Some(1nat) && (r.body.field(
                        lit("result"),
                    ) matches Some(v) && v.members() == Some(1nat) && (v.field(
                        lit("maps"),
                    ) matches Some(m) && told_maps(m) == Some(
                        info_maps(
                            self.config,
                            views(self.config.domain@[d].maps@),
                            self.config.domain@[d].maps@.len() as int,
                        ),
                    )))
                }
            }),
    {
        proof {
            crate::text::lemma_position(domain_names(self.config.domain@), domain@);
        }
        let dom = match self.config.find_domain(domain) {
            None => {
                return json_error(404, None, "Domain not found".as_bytes());
            },
            Some(d) => d,
        };
        let ghost names = views(dom.maps@);
        let mut maps: Vec<(Vec<u8>, Json)> = Vec::new();
        let ghost mut told: Seq<(Seq<u8>, Seq<Seq<u8>>)> = Seq::empty();
        let mut i: usize = 0;
        while i < dom.maps.len()
            invariant
                i <= dom.maps@.len(),
                names == views(dom.maps@),
                told == info_maps(self.config, names, i as int),
                maps@.len() == told.len(),
                forall|k: int|
                    0 <= k < maps@.len() ==> (#[trigger] maps@[k]).0@ == told[k].0
                        && maps@[k].1.members()
                        == Some(1nat) && (maps@[k].1.field(lit("keys")) matches Some(l) && l.texts()
                        == Some(told[k].1)),
            decreases dom.maps@.len() - i,
        {
            assert(names[i as int] == dom.maps@[i as int]@);
            let t = find_key(&self.config.map_, dom.maps[i].as_slice());
            proof {
                crate::text::lemma_position(keys_of(self.config.map_@), names[i as int]);
            }
            if t < self.config.map_.len() {
                let keys = keys_of_defs(&self.config.map_[t].1);
                let entry = one_member("keys", text_list(&keys));
                proof {
                    told = told.push((names[i as int], views(keys@)));
                }
                maps.push((clone_bytes(dom.maps[i].as_slice()), entry));
            }
            i += 1;
        }
        let m = Json::Object(maps);
        proof {
            assert(told_maps(m) is Some);
            assert(told_maps(m).unwrap() =~= told);
        }
        json_result(200, one_member("maps", m))
    }
}

/// The kinds of address that the server answers at.
#[derive(PartialEq, Eq, Structural, Clone, Copy, Debug)]
pub enum Endpoint {
    /// A lookup in a map.
    Lookup,
    /// A login.
    Login,
    /// What a domain offers.
    Info,
}

/// The routes of the server: for each, the pattern of the path, the method
/// and the label. Each endpoint stands under `/webnis` and under
/// `/.well-known/webnis`.
pub open spec fn api_patterns() -> Seq<(Seq<u8>, Seq<u8>, Seq<u8>)> {
    seq![
        (lit("/webnis/:domain/map/:map"), lit("GET"), lit("map")),
        (lit("/webnis/:domain/auth"), lit("POST"), lit("auth")),
        (lit("/webnis/:domain/info"), lit("GET"), lit("info")),
        (lit("/.well-known/webnis/:domain/map/:map"), lit("GET"), lit("map")),
        (lit("/.well-known/webnis/:domain/auth"), lit("POST"), lit("auth")),
        (lit("/.well-known/webnis/:domain/info"), lit("GET"), lit("info")),
    ]
}

/// Whether a route is the one for a pattern, a method and a label.
pub open spec fn route_for(route: Route, p: (Seq<u8>, Seq<u8>, Seq<u8>)) -> bool {
    &&& Some(route.pattern@) == route_regex(p.0)
    &&& route.methods matches Some(l) && views(l@) == seq![p.1]
    &&& opt_view(route.label) == Some(p.2)
}

/// Whether the routes of a matcher are the first `n` routes of the server.
pub open spec fn serves(m: Matcher, n: int) -> bool {
    &&& !m.encoded_slashes_ok
    &&& m.routes@.len() == n
    &&& forall|i: int| 0 <= i < n ==> route_for(#[trigger] m.routes@[i], api_patterns()[i])
}

fn add_route(b: &mut Builder, pattern: &str, method: &str, label: &str) -> (r: bool)
    ensures
        r == route_regex(lit(pattern)) is Some,
        r ==> {
            &&& final(b).inner.encoded_slashes_ok == old(b).inner.encoded_slashes_ok
            &&& final(b).inner.routes@.len() == old(b).inner.routes@.len() + 1
            &&& final(b).inner.routes@.drop_last() == old(b).inner.routes@
            &&& route_for(final(b).inner.routes@.last(), (lit(pattern), lit(method), lit(label)))
        },
{
    if !b.add(pattern.as_bytes()) {
        return false;
    }
    b.method(method.as_bytes());
    b.label(label.as_bytes());
    true
}

/// The matcher for the server's routes; `None` if one of the patterns
/// cannot be turned into a regular expression.
pub fn api_routes() -> (r: Option<Matcher>)
    ensures
        r is Some <==> forall|i: int|
            0 <= i < 6 ==> route_regex(#[trigger] api_patterns()[i].0) is Some,
        r matches Some(m) ==> serves(m, 6),
{
    let ghost p = api_patterns();
    let mut b = Builder::new();
    if !add_route(&mut b, "/webnis/:domain/map/:map", "GET", "map") {
        assert(route_regex(p[0].0) is None);
        return None;
    }
    let ghost r1 = b.inner.routes@;
    if !add_route(&mut b, "/webnis/:domain/auth", "POST", "auth") {
        assert(route_regex(p[1].0) is None);
        return None;
    }
    let ghost r2 = b.inner.routes@;
    if !add_route(&mut b, "/webnis/:domain/info", "GET", "info") {
        assert(route_regex(p[2].0) is None);
        return None;
    }
    let ghost r3 = b.inner.routes@;
    if !add_route(&mut b, "/.well-known/webnis/:domain/map/:map", "GET", "map") {
        assert(route_regex(p[3].0) is None);
        return None;
    }
    let ghost r4 = b.inner.routes@;
    if !add_route(&mut b, "/.well-known/webnis/:domain/auth", "POST", "auth") {
        assert(route_regex(p[4].0) is None);
        return None;
    }
    let ghost r5 = b.inner.routes@;
    if !add_route(&mut b, "/.well-known/webnis/:domain/info", "GET", "info") {
        assert(route_regex(p[5].0) is None);
        return None;
    }
    let ghost r6 = b.inner.routes@;
    proof {
        assert(r6[5] == r6.last());
        assert(r6[4] == r6.drop_last()[4] && r5[4] == r5.last());
        assert(r6[3] == r6.drop_last()[3] && r5[3] == r5.drop_last()[3] && r4[3] == r4.last());
        assert(r6[2] == r6.drop_last()[2] && r5[2] == r5.drop_last()[2] && r4[2]
            == r4.drop_last()[2] && r3[2] == r3.last());
        assert(r6[1] == r6.drop_last()[1] && r5[1] == r5.drop_last()[1] && r4[1]
            == r4.drop_last()[1] && r3[1] == r3.drop_last()[1] && r2[1] == r2.last());
        assert(r6[0] == r6.drop_last()[0] && r5[0] == r5.drop_last()[0] && r4[0]
            == r4.drop_last()[0] && r3[0] == r3.drop_last()[0] && r2[0] == r2.drop_last()[0]
            && r1[0] == r1.last());
        assert(route_for(r6[0], p[0]));
        assert(route_for(r6[1], p[1]));
        assert(route_for(r6[2], p[2]));
        assert(route_for(r6[3], p[3]));
        assert(route_for(r6[4], p[4]));
        assert(route_for(r6[5], p[5]));
    }
    Some(b.compile())
}

/// The endpoint that a label of a route stands for.
pub open spec fn endpoint_of(label: Option<Seq<u8>>) -> Option<Endpoint> {
    match label {
        Some(l) => if l == lit("map") {
            Some(Endpoint::Lookup)
        } else if l == lit("auth") {
            Some(Endpoint::Login)
        } else if l == lit("info") {
            Some(Endpoint::Info)
        } else {
            None
        },
        None => None,
    }
}

/// Tells which endpoint a matched route stands for.
pub fn endpoint(hit: &Match) -> (r: Option<Endpoint>)
    ensures
        r == endpoint_of(opt_view(hit.label)),
{
    match &hit.label {
        Some(l) => {
            if bytes_eq(l.as_slice(), "map".as_bytes()) {
                Some(Endpoint::Lookup)
            } else if bytes_eq(l.as_slice(), "auth".as_bytes()) {
                Some(Endpoint::Login)
            } else if bytes_eq(l.as_slice(), "info".as_bytes()) {
                Some(Endpoint::Info)
            } else {
                None
            }
        },
        None => None,
    }
}

/// The media type that a content type names: what stands before the first
/// `;`, without the whitespace around it.
pub open spec fn media_type(content_type: Seq<u8>) -> Seq<u8> {
    trim(split(content_type, 0x3b)[0])
}

/// Whether the body of a login is JSON, going by its content type: a form
/// is not, `application/json` and `text/json` are, and any other media type
/// is refused with 415.
pub open spec fn login_media(content_type: Seq<u8>, r: Result<bool, Reject>) -> bool {
    let m = media_type(content_type);
    if m == lit("application/x-www-form-urlencoded") {
        r matches Ok(j) && !j
    } else if m == lit("application/json") || m == lit("text/json") {
        r matches Ok(j) && j
    } else {
        r matches Err(Reject::Status(c, t)) && c == 415 && t@ == lit(
            "content-type must be json or www-form\n",
        )
    }
}

/// Reads from the content type of a login whether its body is JSON.
pub fn login_body_kind(content_type: &[u8]) -> (r: Result<bool, Reject>)
    ensures
        login_media(content_type@, r),
{
    let parts = split_bytes(content_type, 0x3b);
    proof {
        crate::text::lemma_split_fields_clean(content_type@, 0x3b);
    }
    assert(views(parts@)[0] == parts@[0]@);
    let m = trim_bytes(parts[0].as_slice());
    if bytes_eq(m.as_slice(), "application/x-www-form-urlencoded".as_bytes()) {
        Ok(false)
    } else if bytes_eq(m.as_slice(), "application/json".as_bytes()) || bytes_eq(
        m.as_slice(),
        "text/json".as_bytes(),
    ) {
        Ok(true)
    } else {
        Err(
            Reject::Status(
                415,
                clone_bytes("content-type must be json or www-form\n".as_bytes()),
            ),
        )
    }
}

/// The answer that is sent for a refusal.
#[derive(Debug, PartialEq, Eq)]
pub struct Refusal {
    pub status: u16,
    pub content_type: Vec<u8>,
    /// The challenge to send in the `WWW-Authenticate` header.
    pub challenge: Option<Vec<u8>>,
    pub body: Vec<u8>,
}

impl Reject {
    /// The answer that is sent for this refusal: plain text with the
    /// message; for missing credentials the status 401, the challenge and a
    /// note; for nothing at the address the status 404.
    pub fn handle_rejection(&self) -> (r: Refusal)
        ensures
            r.content_type@ == lit("text/plain"),
            match *self {
                Reject::Status(c, m) => r.status == c && r.body@ == m@ && r.challenge is None,
                Reject::Unauthorized(c) => r.status == 401 && r.body@ == lit(
                    "credentials missing\n",
                ) && opt_view(r.challenge) == opt_view(c),
                Reject::NotFound => r.status == 404 && r.body@ == lit("Not Found\n")
                    && r.challenge is None,
            },
    {
        let content_type = clone_bytes("text/plain".as_bytes());
        match self {
            Reject::Status(c, m) => Refusal {
                status: *c,
                content_type,
                challenge: None,
                body: clone_bytes(m.as_slice()),
            },
            Reject::Unauthorized(c) => Refusal {
                status: 401,
                content_type,
                challenge: crate::text::clone_opt(c),
                body: clone_bytes("credentials missing\n".as_bytes()),
            },
            Reject::NotFound => Refusal {
                status: 404,
                content_type,
                challenge: None,
                body: clone_bytes("Not Found\n".as_bytes()),
            },
        }
    }
}

/// The limits to set, in order, to raise the number of open files to
/// `want`, given the soft limit `cur` and the hard limit `max`: nothing if
/// the soft limit is enough; else the soft limit as far as the hard limit
/// allows; and, if that is not enough, both limits at `want`. A step that
/// fails ends the attempt.
pub open spec fn rlimit_steps(cur: u64, max: u64, want: u64) -> Seq<(u64, u64)> {
    if cur >= want {
        Seq::empty()
    } else if cur < max {
        if max >= want {
            seq![(want, max)]
        } else {
            seq![(max, max), (want, want)]
        }
    } else {
        seq![(want, want)]
    }
}

/// Plans how to raise the limit on open files.
pub fn raise_rlimit_nofile(cur: u64, max: u64, want: u64) -> (r: Vec<(u64, u64)>)
    ensures
        r@ == rlimit_steps(cur, max, want),
{
    let mut steps: Vec<(u64, u64)> = Vec::new();
    if cur >= want {
        return steps;
    }
    if cur < max {
        let lim = if want < max {
            want
        } else {
            max
        };
        steps.push((lim, max));
        if lim >= want {
            assert(steps@ =~= rlimit_steps(cur, max, want));
            return steps;
        }
    }
    steps.push((want, want));
    assert(steps@ =~= rlimit_steps(cur, max, want));
    steps
}

} // verus!
