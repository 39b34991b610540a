//! Helpers of the map server's HTTP surface: credentials, form bodies,
//! replies, password hashes.

use vstd::prelude::*;
use vstd::string::StringSliceAdditionalSpecFns;
use vstd::utf8::valid_utf8;
use crate::config::Domain;
use crate::json::Json;
use crate::response::text_field;
use crate::percent::{
    EncodeSet, percent_decode_value, percent_decoded, percent_encode, percent_encoded,
    str_from_utf8,
};
use crate::text::{
    bytes_eq, clone_bytes, find_key, keys_of, lemma_position, lit, opt_view, pairs_view, position,
    push_all, put_bytes, put_pair, split, split_bytes, split_words, splitn, splitn_bytes, views,
    words,
};

verus! {

/// The character of the standard base64 alphabet for a value below 64.
pub open spec fn base64_char(v: int) -> u8 {
    if v < 26 {
        (65 + v) as u8
    } else if v < 52 {
        (71 + v) as u8
    } else if v < 62 {
        (v - 4) as u8
    } else if v == 62 {
        43
    } else {
        47
    }
}

/// The standard base64 encoding with padding: three bytes become four
/// characters; a last group of one or two bytes is padded with `=`.
pub open spec fn base64_encoded(s: Seq<u8>) -> Seq<u8>
    decreases s.len(),
{
    if s.len() == 0 {
        Seq::empty()
    } else if s.len() == 1 {
        seq![base64_char(s[0] as int / 4), base64_char((s[0] as int % 4) * 16), 61u8, 61u8]
    } else if s.len() == 2 {
        seq![
            base64_char(s[0] as int / 4),
            base64_char((s[0] as int % 4) * 16 + s[1] as int / 16),
            base64_char((s[1] as int % 16) * 4),
            61u8,
        ]
    } else {
        seq![
            base64_char(s[0] as int / 4),
            base64_char((s[0] as int % 4) * 16 + s[1] as int / 16),
            base64_char((s[1] as int % 16) * 4 + s[2] as int / 64),
            base64_char(s[2] as int % 64),
        ] + base64_encoded(s.skip(3))
    }
}

/// What `base64::decode` makes of a text: the bytes it stands for, or `None`
/// where the decoder refuses it.
pub uninterp spec fn base64_decoding(text: Seq<u8>) -> Option<Seq<u8>>;

/// `base64::encode`: the standard alphabet with padding.
#[verifier::external_body]
pub(crate) fn base64_encode(input: &[u8]) -> (r: Vec<u8>)
    ensures
        r@ == base64_encoded(input@),
{
    base64::encode(input).into_bytes()
}

/// `base64::decode`: the bytes that the text stands for, or `None` where the
/// decoder reports an error. The result depends on the text alone.
#[verifier::external_body]
pub(crate) fn base64_decode(text: &[u8]) -> (r: Option<Vec<u8>>)
    ensures
        r is Some <==> base64_decoding(text@) is Some,
        r matches Some(v) ==> base64_decoding(text@) == Some(v@),
{
    match base64::decode(text) {
        Ok(v) => Some(v),
        Err(_) => None,
    }
}


/// A message that ends in a line feed: one is added unless it is there.
pub open spec fn with_newline(msg: Seq<u8>) -> Seq<u8> {
    if msg.len() > 0 && msg.last() == 0x0a {
        msg
    } else {
        msg.push(0x0a)
    }
}

/// Makes a message end in a line feed.
pub fn stringnl(msg: Vec<u8>) -> (r: Vec<u8>)
    ensures
        r@ == with_newline(msg@),
{
    let mut msg = msg;
    if msg.len() == 0 || msg[msg.len() - 1] != 0x0a {
        msg.push(0x0a);
    }
    msg
}

/// The challenge sent with a refusal for lack of credentials: the schema,
/// for `Basic` with the domain as the realm, and a line feed.
pub open spec fn challenge(domain: Seq<u8>, schema: Seq<u8>) -> Seq<u8> {
    with_newline(
        if schema == lit("Basic") {
            schema + lit(" realm=\"") + domain + lit("\"")
        } else {
            schema
        },
    )
}

/// Builds the challenge for a domain, if it has a schema.
pub fn http_unauthorized(domain: &[u8], schema: Option<&Vec<u8>>) -> (r: Option<Vec<u8>>)
    ensures
        match schema {
            Some(s) => r matches Some(v) && v@ == challenge(domain@, s@),
            None => r is None,
        },
{
    match schema {
        None => None,
        Some(s) => {
            let mut v = clone_bytes(s.as_slice());
            if bytes_eq(s.as_slice(), "Basic".as_bytes()) {
                push_all(&mut v, " realm=\"".as_bytes());
                push_all(&mut v, domain);
                push_all(&mut v, "\"".as_bytes());
            }
            Some(stringnl(v))
        },
    }
}

/// The name and value that one part of a form gives, if it gives any. The
/// name is percent-decoded and must be UTF-8. The value of `password` is
/// kept as it is written; `password_raw` is dropped; any other value is
/// percent-decoded. A value that is not UTF-8 drops the part.
pub open spec fn form_pair(kv: Seq<u8>) -> Option<(Seq<u8>, Seq<u8>)> {
    let p = splitn(kv, 0x3d, 2);
    let k = percent_decoded(p[0]);
    let raw = if p.len() > 1 {
        p[1]
    } else {
        Seq::empty()
    };
    if !valid_utf8(k) {
        None
    } else if k == lit("password") {
        if valid_utf8(raw) {
            Some((k, raw))
        } else {
            None
        }
    } else if k == lit("password_raw") {
        None
    } else if valid_utf8(percent_decoded(raw)) {
        Some((k, percent_decoded(raw)))
    } else {
        None
    }
}

/// The names and values that the first `n` parts of a form give: a later
/// part takes the place of an earlier one of the same name.
pub open spec fn form_table(parts: Seq<Seq<u8>>, n: int) -> Seq<(Seq<u8>, Seq<u8>)>
    decreases n,
{
    if n <= 0 {
        Seq::empty()
    } else {
        match form_pair(parts[n - 1]) {
            Some((k, v)) => put_pair(form_table(parts, n - 1), k, v),
            None => form_table(parts, n - 1),
        }
    }
}

/// The names and values of a form body: its parts stand between `&`.
pub open spec fn form_of(body: Seq<u8>) -> Seq<(Seq<u8>, Seq<u8>)> {
    form_table(split(body, 0x26), split(body, 0x26).len() as int)
}

fn is_utf8(b: &[u8]) -> (r: bool)
    ensures
        r == valid_utf8(b@),
{
    match str_from_utf8(b) {
        Ok(_) => true,
        Err(_) => false,
    }
}

/// Reads a form body into names and values.
pub fn decode_post_body(body: &[u8]) -> (r: Vec<(Vec<u8>, Vec<u8>)>)
    ensures
        pairs_view(r@) == form_of(body@),
{
    let parts = split_bytes(body, 0x26);
    let mut hm: Vec<(Vec<u8>, Vec<u8>)> = Vec::new();
    let mut i: usize = 0;
    assert(pairs_view(hm@) =~= Seq::<(Seq<u8>, Seq<u8>)>::empty());
    while i < parts.len()
        invariant
            i <= parts@.len(),
            views(parts@) == split(body@, 0x26),
            pairs_view(hm@) == form_table(views(parts@), i as int),
        decreases parts@.len() - i,
    {
        assert(views(parts@)[i as int] == parts@[i as int]@);
        let mut w = splitn_bytes(parts[i].as_slice(), 0x3d, 2);
        let ghost p = views(w@);
        assert(p.len() >= 1);
        assert(p[0] == w@[0]@);
        let k = percent_decode_value(w[0].as_slice());
        let raw: Vec<u8> = if w.len() > 1 {
            assert(p[1] == w@[1]@);
            w.remove(1)
        } else {
            Vec::new()
        };
        if is_utf8(k.as_slice()) {
            if bytes_eq(k.as_slice(), "password".as_bytes()) {
                if is_utf8(raw.as_slice()) {
                    put_bytes(&mut hm, k, raw);
                }
            } else if bytes_eq(k.as_slice(), "password_raw".as_bytes()) {
            } else {
                let v = percent_decode_value(raw.as_slice());
                if is_utf8(v.as_slice()) {
                    put_bytes(&mut hm, k, v);
                }
            }
        }
        i += 1;
    }
    hm
}

/// What `pwhash::unix::verify` says of a password and a hash: whether the
/// hash is the one that the password gives under the scheme and salt that
/// the hash names.
pub uninterp spec fn unix_hash_accepts(pass: Seq<u8>, hash: Seq<u8>) -> bool;

/// Whether a hash can be handed to the verifier: it holds no byte below
/// 0x20 and not the character U+0080, which is written as the bytes 0xc2
/// and 0x80. The outside crate reads the characters of a salt as numbers
/// from 0x20 on and looks them up in a table of 96 entries: on a character
/// below that it fails outright, and so it does on U+0080.
pub open spec fn verifiable(hash: Seq<u8>) -> bool {
    forall|i: int|
        0 <= i < hash.len() ==> #[trigger] hash[i] >= 0x20 && !(hash[i] == 0xc2 && i + 1
            < hash.len() && hash[i + 1] == 0x80)
}

/// Tests whether a hash can be handed to the verifier.
pub fn can_verify(hash: &[u8]) -> (r: bool)
    ensures
        r == verifiable(hash@),
{
    let mut i: usize = 0;
    while i < hash.len()
        invariant
            i <= hash@.len(),
            forall|k: int|
                0 <= k < i ==> #[trigger] hash@[k] >= 0x20 && !(hash@[k] == 0xc2 && k + 1
                    < hash@.len() && hash@[k + 1] == 0x80),
        decreases hash@.len() - i,
    {
        if hash[i] < 0x20 {
            return false;
        }
        if hash[i] == 0xc2 && i + 1 < hash.len() && hash[i + 1] == 0x80 {
            return false;
        }
        i += 1;
    }
    true
}

/// `pwhash::unix::verify`: recognizes the scheme of the hash, computes the
/// hash of the password with the same salt and compares the two. The result
/// depends on the password and the hash alone. Hashes on which the crate's
/// decoder of salts fails outright are left out.
#[verifier::external_body]
fn unix_verify(pass: &[u8], hash: &str) -> (r: bool)
    requires
        verifiable(hash.spec_bytes()),
    ensures
        r == unix_hash_accepts(pass@, hash.spec_bytes()),
{
    pwhash::unix::verify(pass, hash)
}

/// A hash of the old DES scheme: thirteen bytes that do not start with `$`.
pub open spec fn des_hash(hash: Seq<u8>) -> bool {
    hash.len() == 13 && hash[0] != 0x24
}

/// Whether a hash accepts a percent-encoded password: the hash is not of
/// the DES scheme, is UTF-8 text that can be handed to the verifier, and is
/// the hash of the decoded password.
pub open spec fn hash_accepts(passwd: Seq<u8>, hash: Seq<u8>) -> bool {
    !des_hash(hash) && valid_utf8(hash) && verifiable(hash) && unix_hash_accepts(
        percent_decoded(passwd),
        hash,
    )
}

/// Checks a password against a hash of the Unix `crypt` family. The
/// password comes percent-encoded and is decoded first. A hash of the DES
/// scheme, a hash that is not UTF-8 text and a hash with a control
/// character or U+0080 in it never match.
pub fn check_unix_password(passwd: &[u8], pwhash: &[u8]) -> (r: bool)
    ensures
        r == hash_accepts(passwd@, pwhash@),
        des_hash(pwhash@) ==> !r,
        !verifiable(pwhash@) ==> !r,
{
    if pwhash.len() == 13 && pwhash[0] != 0x24 {
        return false;
    }
    if !can_verify(pwhash) {
        return false;
    }
    let pwbytes = percent_decode_value(passwd);
    match str_from_utf8(pwhash) {
        Ok(h) => unix_verify(pwbytes.as_slice(), h),
        Err(_) => false,
    }
}

/// The outcome of the check of the daemon's credentials.
#[derive(PartialEq, Eq, Structural, Clone, Copy, Debug)]
pub enum AuthResult {
    /// No authorization header, or one of another schema.
    NoAuth,
    /// The credentials are wrong.
    BadAuth,
    /// The credentials are right.
    AuthOk,
}

/// Whether a decoded credential is the token: it must have decoded, be
/// UTF-8 text, and equal the token.
pub open spec fn token_verdict(decoded: Option<Seq<u8>>, token: Seq<u8>) -> AuthResult {
    match decoded {
        Some(v) => if valid_utf8(v) && v == token {
            AuthResult::AuthOk
        } else {
            AuthResult::BadAuth
        },
        None => AuthResult::BadAuth,
    }
}

/// Compares a decoded credential with the token.
pub fn check_token(decoded: &Option<Vec<u8>>, token: &[u8]) -> (r: AuthResult)
    ensures
        r == token_verdict(opt_view(*decoded), token@),
{
    match decoded {
        Some(v) => {
            if is_utf8(v.as_slice()) && bytes_eq(v.as_slice(), token) {
                AuthResult::AuthOk
            } else {
                AuthResult::BadAuth
            }
        },
        None => AuthResult::BadAuth,
    }
}

/// What the check of an authorization header comes to. A domain without a
/// schema lets everyone in. A domain with a schema but without a token lets
/// no one in. Otherwise the header must be there and hold at least two
/// words, the first of them the schema; if not, there is no authorization.
/// The second word is the credential: with the encoding `base64` it is
/// decoded first, with any other encoding it is refused, with none it is
/// taken as it is; it must equal the token.
pub open spec fn http_auth(
    authz: Option<Seq<u8>>,
    schema: Option<Seq<u8>>,
    token: Option<Seq<u8>>,
    encoding: Option<Seq<u8>>,
) -> AuthResult {
    if schema is None {
        AuthResult::AuthOk
    } else if token is None {
        AuthResult::BadAuth
    } else if authz is None {
        AuthResult::NoAuth
    } else {
        let w = words(authz.unwrap());
        if w.len() < 2 || w[0] != schema.unwrap() {
            AuthResult::NoAuth
        } else {
            match encoding {
                Some(e) => if e == lit("base64") {
                    token_verdict(base64_decoding(w[1]), token.unwrap())
                } else {
                    AuthResult::BadAuth
                },
                None => if w[1] == token.unwrap() {
                    AuthResult::AuthOk
                } else {
                    AuthResult::BadAuth
                },
            }
        }
    }
}

/// Checks the authorization header of a request against a domain.
pub fn check_http_auth(authz: Option<&[u8]>, domain: &Domain) -> (r: AuthResult)
    ensures
        r == http_auth(
            match authz {
                Some(a) => Some(a@),
                None => None,
            },
            opt_view(domain.http_authschema),
            opt_view(domain.http_authtoken),
            opt_view(domain.http_authencoding),
        ),
{
    let schema = match &domain.http_authschema {
        Some(s) => s,
        None => {
            return AuthResult::AuthOk;
        },
    };
    let token = match &domain.http_authtoken {
        Some(t) => t,
        None => {
            return AuthResult::BadAuth;
        },
    };
    let hdr = match authz {
        Some(h) => h,
        None => {
            return AuthResult::NoAuth;
        },
    };
    let w = split_words(hdr);
    if w.len() < 2 {
        return AuthResult::NoAuth;
    }
    assert(views(w@)[0] == w@[0]@ && views(w@)[1] == w@[1]@);
    if !bytes_eq(w[0].as_slice(), schema.as_slice()) {
        return AuthResult::NoAuth;
    }
    match &domain.http_authencoding {
        Some(e) => {
            if bytes_eq(e.as_slice(), "base64".as_bytes()) {
                let decoded = base64_decode(w[1].as_slice());
                check_token(&decoded, token.as_slice())
            } else {
                AuthResult::BadAuth
            }
        },
        None => {
            if bytes_eq(w[1].as_slice(), token.as_slice()) {
                AuthResult::AuthOk
            } else {
                AuthResult::BadAuth
            }
        },
    }
}


/// A list of named values without the first entry of a name.
pub open spec fn drop_named<T>(t: Seq<(Vec<u8>, T)>, name: Seq<u8>) -> Seq<(Vec<u8>, T)> {
    let i = position(keys_of(t), name);
    if 0 <= i < t.len() {
        t.remove(i)
    } else {
        t
    }
}

/// The value under a name in a list of named values: that of the first entry of the name.
pub open spec fn named<T>(t: Seq<(Vec<u8>, T)>, name: Seq<u8>) -> Option<T> {
    let i = position(keys_of(t), name);
    if 0 <= i < t.len() {
        Some(t[i].1)
    } else {
        None
    }
}

fn take_named<T>(t: &mut Vec<(Vec<u8>, T)>, name: &str) -> (r: Option<T>)
    ensures
        r == named(old(t)@, lit(name)),
        final(t)@ == drop_named(old(t)@, lit(name)),
{
    let i = find_key(t, name.as_bytes());
    if i < t.len() {
        let e = t.remove(i);
        Some(e.1)
    } else {
        None
    }
}

/// The names and values of a form without the first `username` and, of
/// what is left, the first `password`.
pub open spec fn form_rest(f: Seq<(Seq<u8>, Seq<u8>)>) -> Seq<(Seq<u8>, Seq<u8>)> {
    let u = position(crate::text::pair_names(f), lit("username"));
    let f1 = if 0 <= u < f.len() {
        f.remove(u)
    } else {
        f
    };
    let p = position(crate::text::pair_names(f1), lit("password"));
    if 0 <= p < f1.len() {
        f1.remove(p)
    } else {
        f1
    }
}

/// Who wants to log in, with what password, and what else the request said.
/// The password is percent-encoded.
#[derive(Debug, PartialEq, Eq)]
pub struct AuthInfo {
    pub username: Vec<u8>,
    pub password: Vec<u8>,
    pub extra: Vec<(Vec<u8>, Json)>,
}

impl AuthInfo {
    /// Reads a login from a form body. The form must name `username` and
    /// `password`; its other fields are the extras, as strings.
    pub fn from_form(body: &[u8]) -> (r: Option<AuthInfo>)
        ensures
            ({
                let f = form_of(body@);
                let u = position(crate::text::pair_names(f), lit("username"));
                let p = position(crate::text::pair_names(f), lit("password"));
                &&& r is Some <==> u < f.len() && p < f.len()
                &&& r matches Some(a) ==> a.username@ == f[u].1 && a.password@ == f[p].1
                    && a.extra@.len() == f.len() - 2 && forall|i: int|
                    0 <= i < a.extra@.len() ==> (#[trigger] a.extra@[i]).0@ == form_rest(f)[i].0
                        && a.extra@[i].1.text() == Some(form_rest(f)[i].1)
            }),
    {
        let mut hm = decode_post_body(body);
        let ghost f = pairs_view(hm@);
        proof {
            assert(crate::text::pair_names(f) =~= keys_of(hm@));
            lemma_position(keys_of(hm@), lit("username"));
            lemma_position(keys_of(hm@), lit("password"));
        }
        let ghost before = hm@;
        let username = match take_named(&mut hm, "username") {
            Some(u) => u,
            None => {
                return None;
            },
        };
        let ghost mid = hm@;
        let ghost u = position(keys_of(before), lit("username"));
        let ghost p = position(keys_of(before), lit("password"));
        proof {
            lemma_position(keys_of(mid), lit("password"));
            let pm = position(keys_of(mid), lit("password"));
            assert(mid == before.remove(u));
            assert(keys_of(mid) =~= keys_of(before).remove(u));
            lemma_names_apart();
            if p < before.len() {
                assert(p != u);
                let q = if p < u {
                    p
                } else {
                    p - 1
                };
                assert(keys_of(mid)[q] == lit("password"));
                assert forall|k: int| 0 <= k < q implies keys_of(mid)[k] != lit("password") by {
                    if k < u {
                        assert(keys_of(mid)[k] == keys_of(before)[k]);
                    } else {
                        assert(keys_of(mid)[k] == keys_of(before)[k + 1]);
                    }
                }
                assert(pm == q);
                assert(mid[q].1 == before[p].1);
            } else {
                if pm < mid.len() {
                    let k = if pm < u {
                        pm
                    } else {
                        pm + 1
                    };
                    assert(keys_of(before)[k] == lit("password"));
                }
            }
        }
        let password = match take_named(&mut hm, "password") {
            Some(p) => p,
            None => {
                return None;
            },
        };
        let mut extra: Vec<(Vec<u8>, Json)> = Vec::new();
        let ghost rest = pairs_view(hm@);
        proof {
            assert(pairs_view(mid) =~= f.remove(u));
            assert(crate::text::pair_names(f.remove(u)) =~= keys_of(mid));
            assert(rest =~= form_rest(f));
        }
        while hm.len() > 0
            invariant
                extra@.len() + hm@.len() == rest.len(),
                pairs_view(hm@) == rest.skip(extra@.len() as int),
                forall|i: int|
                    0 <= i < extra@.len() ==> (#[trigger] extra@[i]).0@ == rest[i].0
                        && extra@[i].1.text() == Some(rest[i].1),
            decreases hm@.len(),
        {
            let ghost before = pairs_view(hm@);
            let e = hm.remove(0);
            proof {
                assert(before[0] == (e.0@, e.1@));
                assert(pairs_view(hm@) =~= before.skip(1));
                assert(before.skip(1) =~= rest.skip(extra@.len() as int + 1));
            }
            extra.push((e.0, Json::Text(e.1)));
        }
        Some(AuthInfo { username, password, extra })
    }

    /// Reads a login from a JSON body. The body must be an object with the
    /// strings `username` and `password`. The password is percent-encoded
    /// with the path segment set; the other members are the extras, but
    /// for `password_raw`.
    pub fn from_json(j: Json) -> (r: Option<AuthInfo>)
        ensures
            r is Some <==> text_field(j, lit("username")) is Some && text_field(
                j,
                lit("password"),
            ) is Some,
            r matches Some(a) ==> {
                &&& Some(a.username@) == j.field(lit("username")).unwrap().text()
                &&& a.password@ == percent_encoded(
                    EncodeSet::PathSegment,
                    j.field(lit("password")).unwrap().text().unwrap(),
                )
                &&& j matches Json::Object(o) && a.extra@ == drop_named(
                    drop_named(drop_named(o@, lit("username")), lit("password")),
                    lit("password_raw"),
                )
            },
    {
        let mut o = match j {
            Json::Object(o) => o,
            _ => {
                return None;
            },
        };
        let ghost before = o@;
        let ghost u = position(keys_of(before), lit("username"));
        let ghost p = position(keys_of(before), lit("password"));
        proof {
            lemma_position(keys_of(before), lit("username"));
            lemma_position(keys_of(before), lit("password"));
        }
        {
            let ui = find_key(&o, "username".as_bytes());
            let pi = find_key(&o, "password".as_bytes());
            if ui >= o.len() || pi >= o.len() {
                return None;
            }
            let ok = match (&o[ui].1, &o[pi].1) {
                (Json::Text(_), Json::Text(_)) => true,
                _ => false,
            };
            if !ok {
                return None;
            }
        }
        let username = match take_named(&mut o, "username") {
            Some(Json::Text(t)) => t,
            _ => {
                return None;
            },
        };
        let ghost mid = o@;
        proof {
            lemma_position(keys_of(mid), lit("password"));
            let pm = position(keys_of(mid), lit("password"));
            assert(keys_of(mid) =~= keys_of(before).remove(u));
            lemma_names_apart();
            assert(p != u);
            let q = if p < u {
                p
            } else {
                p - 1
            };
            assert(keys_of(mid)[q] == lit("password"));
            assert forall|k: int| 0 <= k < q implies keys_of(mid)[k] != lit("password") by {
                if k < u {
                    assert(keys_of(mid)[k] == keys_of(before)[k]);
                } else {
                    assert(keys_of(mid)[k] == keys_of(before)[k + 1]);
                }
            }
            assert(pm == q);
            assert(mid[q].1 == before[p].1);
        }
        let password = match take_named(&mut o, "password") {
            Some(Json::Text(t)) => percent_encode(t.as_slice(), EncodeSet::PathSegment),
            _ => {
                return None;
            },
        };
        let _ = take_named(&mut o, "password_raw");
        Some(AuthInfo { username, password, extra: o })
    }

    /// Reads a login from the body of a request. A JSON body comes with
    /// what it was read as, or with nothing if it could not be read.
    pub fn from_post_body(body: &[u8], is_json: bool, parsed: Option<Json>) -> (r: Option<AuthInfo>)
        ensures
            is_json && parsed is None ==> r is None,
            is_json && parsed is Some ==> AuthInfo::from_json.ensures((parsed.unwrap(),), r),
            !is_json ==> AuthInfo::from_form.ensures((body,), r),
    {
        if is_json {
            match parsed {
                Some(j) => AuthInfo::from_json(j),
                None => None,
            }
        } else {
            AuthInfo::from_form(body)
        }
    }
}

/// The names `username` and `password` differ.
pub proof fn lemma_names_apart()
    ensures
        lit("username") != lit("password"),
{
    reveal_strlit("username");
    reveal_strlit("password");
    broadcast use vstd::string::group_string_axioms;
    assert("username"@.len() == 8 && vstd::string::is_ascii("username"));
    assert("password"@.len() == 8 && vstd::string::is_ascii("password"));
    assert(lit("username")[0] == 0x75);
    assert(lit("password")[0] == 0x70);
}

} // verus!
