//! The binding daemon's side of a session: reading a command line, deciding
//! what to ask the servers, and the rules for retrying and failing over.

use vstd::prelude::*;
use crate::bind::{Config, Context, HttpClient};
use crate::json::Json;
use crate::percent::{EncodeSet, percent_encode, percent_encoded};
use crate::response::{error, error_line};
use crate::text::{
    bytes_eq, clone_bytes, decimal, has_prefix, lit, lower_seq, parse_u32, parse_unsigned,
    push_all, push_decimal, splitn, splitn_bytes, starts_with, to_lower, views,
};
use crate::util::{base64_encode, base64_encoded};

verus! {

/// Attempts after which a request is given up.
pub const MAX_TRIES: u32 = 8;

/// The number of the first attempt of a request.
pub const FIRST_TRY: u32 = 1;

/// Pause before a retry, in milliseconds.
pub const RETRY_DELAY_MS: u64 = 250;

/// Time allowed for one request and its complete answer, in milliseconds.
pub const REQUEST_TIMEOUT_MS: u64 = 1000;

/// The commands of the daemon's protocol.
#[derive(PartialEq, Eq, Structural, Clone, Copy, Debug)]
pub enum Cmd {
    Auth,
    GetPwNam,
    GetPwUid,
    GetGrNam,
    GetGrGid,
    GetGidList,
    Servers,
}

/// A command with its arguments. `arg0` is the number that `getpwuid` and
/// `getgrgid` ask about, 0 for the other commands.
#[derive(Debug, PartialEq, Eq)]
pub struct Request {
    pub cmd: Cmd,
    pub args: Vec<Vec<u8>>,
    pub arg0: u32,
}

/// A verb in lower case. Verbs of more than 16 bytes are left as they are.
pub open spec fn verb_lower(s: Seq<u8>) -> Seq<u8> {
    if s.len() <= 16 {
        lower_seq(s)
    } else {
        s
    }
}

/// Lower-cases a verb of at most 16 bytes.
pub fn tolower(s: &[u8]) -> (r: Vec<u8>)
    ensures
        r@ == verb_lower(s@),
{
    if s.len() > 16 {
        clone_bytes(s)
    } else {
        to_lower(s)
    }
}

/// The command that a lower-case verb names, with the least and the greatest
/// number of arguments it takes.
pub open spec fn command(verb: Seq<u8>) -> Option<(Cmd, nat, nat)> {
    if verb == lit("auth") {
        Some((Cmd::Auth, 2, 4))
    } else if verb == lit("getpwnam") {
        Some((Cmd::GetPwNam, 1, 1))
    } else if verb == lit("getpwuid") {
        Some((Cmd::GetPwUid, 1, 1))
    } else if verb == lit("getgrnam") {
        Some((Cmd::GetGrNam, 1, 1))
    } else if verb == lit("getgrgid") {
        Some((Cmd::GetGrGid, 1, 1))
    } else if verb == lit("getgidlist") {
        Some((Cmd::GetGidList, 1, 1))
    } else if verb == lit("servers") {
        Some((Cmd::Servers, 0, 0))
    } else {
        None
    }
}

/// The complaint about a wrong number of arguments.
pub open spec fn arity_message(verb: Seq<u8>, min: nat, max: nat) -> Seq<u8> {
    if min == max {
        verb + lit(" needs ") + decimal(min) + lit(" arguments")
    } else {
        verb + lit(" needs ") + decimal(min) + lit("-") + decimal(max) + lit(" arguments")
    }
}

/// What a command line means. The line is cut at single spaces into a verb
/// and at most four arguments, the last of which takes the rest of the line.
/// The verb is matched without regard to case.
pub open spec fn parse_spec(input: Seq<u8>) -> Result<(Cmd, Seq<Seq<u8>>, u32), Seq<u8>> {
    let parts = splitn(input, 0x20, 5);
    let verb = verb_lower(parts[0]);
    let args = parts.skip(1);
    match command(verb) {
        None => Err(lit("unknown command ") + verb),
        Some((cmd, min, max)) => if args.len() < min || args.len() > max {
            Err(arity_message(verb, min, max))
        } else if cmd == Cmd::GetPwUid || cmd == Cmd::GetGrGid {
            match parse_unsigned(args[0], 0xffff_ffff) {
                Some(n) => Ok((cmd, args, n as u32)),
                None => Err(lit("Not a number")),
            }
        } else {
            Ok((cmd, args, 0u32))
        },
    }
}

fn lookup_command(verb: &[u8]) -> (r: Option<(Cmd, usize, usize)>)
    ensures
        match command(verb@) {
            Some((c, min, max)) => r == Some((c, min as usize, max as usize)),
            None => r is None,
        },
{
    if bytes_eq(verb, "auth".as_bytes()) {
        Some((Cmd::Auth, 2, 4))
    } else if bytes_eq(verb, "getpwnam".as_bytes()) {
        Some((Cmd::GetPwNam, 1, 1))
    } else if bytes_eq(verb, "getpwuid".as_bytes()) {
        Some((Cmd::GetPwUid, 1, 1))
    } else if bytes_eq(verb, "getgrnam".as_bytes()) {
        Some((Cmd::GetGrNam, 1, 1))
    } else if bytes_eq(verb, "getgrgid".as_bytes()) {
        Some((Cmd::GetGrGid, 1, 1))
    } else if bytes_eq(verb, "getgidlist".as_bytes()) {
        Some((Cmd::GetGidList, 1, 1))
    } else if bytes_eq(verb, "servers".as_bytes()) {
        Some((Cmd::Servers, 0, 0))
    } else {
        None
    }
}

fn arity_error(verb: &[u8], min: usize, max: usize) -> (r: Vec<u8>)
    ensures
        r@ == arity_message(verb@, min as nat, max as nat),
{
    let mut r: Vec<u8> = Vec::new();
    push_all(&mut r, verb);
    push_all(&mut r, " needs ".as_bytes());
    push_decimal(&mut r, min as u64);
    if min != max {
        push_all(&mut r, "-".as_bytes());
        push_decimal(&mut r, max as u64);
    }
    push_all(&mut r, " arguments".as_bytes());
    assert(r@ =~= arity_message(verb@, min as nat, max as nat));
    r
}

impl Request {
    /// Reads a command line. The error is the text to send back with code 400.
    pub fn parse(input: &[u8]) -> (r: Result<Request, Vec<u8>>)
        ensures
            match parse_spec(input@) {
                Ok((cmd, args, n)) => r matches Ok(q) && q.cmd == cmd && views(q.args@) == args
                    && q.arg0 == n,
                Err(m) => r matches Err(e) && e@ == m,
            },
    {
        let mut parts = splitn_bytes(input, 0x20, 5);
        let ghost all = views(parts@);
        assert(all.len() >= 1);
        let first = parts.remove(0);
        assert(views(parts@) =~= all.skip(1));
        let verb = tolower(first.as_slice());
        let found = lookup_command(verb.as_slice());
        let (cmd, argsmin, argsmax) = match found {
            Some(t) => t,
            None => {
                let mut e: Vec<u8> = Vec::new();
                push_all(&mut e, "unknown command ".as_bytes());
                push_all(&mut e, verb.as_slice());
                return Err(e);
            },
        };
        if parts.len() < argsmin || parts.len() > argsmax {
            return Err(arity_error(verb.as_slice(), argsmin, argsmax));
        }
        let arg0: u32 = if cmd == Cmd::GetPwUid || cmd == Cmd::GetGrGid {
            match parse_u32(parts[0].as_slice()) {
                Some(n) => n,
                None => {
                    return Err(clone_bytes("Not a number".as_bytes()));
                },
            }
        } else {
            0
        };
        Ok(Request { cmd, args: parts, arg0 })
    }
}


/// The command line in what was read from the socket up to a line feed:
/// what was read without the line feed at its end and without a carriage
/// return before that.
pub open spec fn command_line(raw: Seq<u8>) -> Seq<u8> {
    let l = if raw.len() > 0 && raw.last() == 0x0a {
        raw.drop_last()
    } else {
        raw
    };
    if l.len() > 0 && l.last() == 0x0d {
        l.drop_last()
    } else {
        l
    }
}

/// Takes the end of the line off what was read from the socket.
pub fn line_of(raw: &[u8]) -> (r: Vec<u8>)
    ensures
        r@ == command_line(raw@),
{
    let mut n: usize = raw.len();
    if n > 0 && raw[n - 1] == 0x0a {
        n -= 1;
    }
    if n > 0 && raw[n - 1] == 0x0d {
        n -= 1;
    }
    let r = crate::text::copy_range(raw, 0, n);
    proof {
        let l = if raw@.len() > 0 && raw@.last() == 0x0a {
            raw@.drop_last()
        } else {
            raw@
        };
        assert(l =~= raw@.subrange(0, l.len() as int));
        assert(r@ =~= command_line(raw@));
    }
    r
}

/// What the daemon does with a command line.
#[derive(Debug, PartialEq, Eq)]
pub enum Action {
    /// Answer at once with this line.
    Reply(Vec<u8>),
    /// Report the servers of the pool and which one is active.
    Servers,
    /// Ask the active server. A request with a body is a POST of a form,
    /// one without is a GET.
    Fetch { path: Vec<u8>, authorization: Vec<u8>, body: Option<Vec<u8>>, try_no: u32 },
}

/// Whether a session may not look up what it asks for: with
/// `restrict_getpwuid`, a session of a uid other than 0 may only look up its
/// own uid; with `restrict_getgrgid`, it may only look up gids below 1000
/// and its own gid.
pub open spec fn forbidden(ctx: Context, cmd: Cmd, arg0: u32) -> bool {
    ||| ctx.config.restrict_getpwuid && cmd == Cmd::GetPwUid && ctx.uid > 0 && arg0 != ctx.uid
    ||| ctx.config.restrict_getgrgid && cmd == Cmd::GetGrGid && ctx.uid > 0 && arg0 >= 1000
        && arg0 != ctx.gid
}

/// The value of the `Authorization` header: the schema, a space, and the
/// token, base64-encoded where the settings say so.
pub open spec fn authorization_of(config: Config) -> Seq<u8> {
    config.http_authschema@ + seq![0x20u8] + (match config.http_authencoding {
        Some(e) => if e@ == lit("base64") {
            base64_encoded(config.http_authtoken@)
        } else {
            config.http_authtoken@
        },
        None => config.http_authtoken@,
    })
}

/// The path of the login endpoint of a domain.
pub open spec fn auth_path(domain: Seq<u8>) -> Seq<u8> {
    lit("/") + percent_encoded(EncodeSet::Default, domain) + lit("/auth")
}

/// The form that a login sends. The password is passed on as it came: the
/// client has percent-encoded it already.
pub open spec fn auth_body(args: Seq<Seq<u8>>) -> Seq<u8> {
    lit("username=") + percent_encoded(EncodeSet::Query, args[0]) + lit("&password=") + args[1]
        + (if args.len() > 2 {
        lit("&service=") + percent_encoded(EncodeSet::Query, args[2])
    } else {
        Seq::empty()
    }) + (if args.len() > 3 {
        lit("&remote=") + percent_encoded(EncodeSet::Query, args[3])
    } else {
        Seq::empty()
    })
}

/// The map that a lookup command reads and the key it reads it by.
pub open spec fn map_and_key(cmd: Cmd) -> (Seq<u8>, Seq<u8>) {
    match cmd {
        Cmd::GetPwNam => (lit("passwd"), lit("username")),
        Cmd::GetPwUid => (lit("passwd"), lit("uid")),
        Cmd::GetGrNam => (lit("group"), lit("group")),
        Cmd::GetGrGid => (lit("group"), lit("gid")),
        _ => (lit("gidlist"), lit("username")),
    }
}

/// The path and query of a map lookup.
pub open spec fn map_path(domain: Seq<u8>, cmd: Cmd, arg: Seq<u8>, uid: u32) -> Seq<u8> {
    lit("/") + percent_encoded(EncodeSet::Default, domain) + lit("/map/") + percent_encoded(
        EncodeSet::Default,
        map_and_key(cmd).0,
    ) + lit("?") + percent_encoded(EncodeSet::Query, map_and_key(cmd).1) + lit("=")
        + percent_encoded(EncodeSet::Query, arg) + lit("&cred_uid=") + decimal(uid as nat)
}

/// The reply to a command that is refused by a restriction.
pub open spec fn forbidden_line() -> Seq<u8> {
    error_line(403, lit("Forbidden"))
}

/// Builds the value of the `Authorization` header.
pub fn authorization(config: &Config) -> (r: Vec<u8>)
    ensures
        r@ == authorization_of(*config),
{
    let mut r: Vec<u8> = Vec::new();
    push_all(&mut r, config.http_authschema.as_slice());
    r.push(0x20);
    let encoded = match &config.http_authencoding {
        Some(e) => bytes_eq(e.as_slice(), "base64".as_bytes()),
        None => false,
    };
    if encoded {
        let t = base64_encode(config.http_authtoken.as_slice());
        push_all(&mut r, t.as_slice());
    } else {
        push_all(&mut r, config.http_authtoken.as_slice());
    }
    r
}

fn build_auth_body(args: &Vec<Vec<u8>>) -> (r: Vec<u8>)
    requires
        args@.len() >= 2,
    ensures
        r@ == auth_body(views(args@)),
{
    let mut r: Vec<u8> = Vec::new();
    push_all(&mut r, "username=".as_bytes());
    let u = percent_encode(args[0].as_slice(), EncodeSet::Query);
    push_all(&mut r, u.as_slice());
    push_all(&mut r, "&password=".as_bytes());
    push_all(&mut r, args[1].as_slice());
    if args.len() > 2 {
        push_all(&mut r, "&service=".as_bytes());
        let s = percent_encode(args[2].as_slice(), EncodeSet::Query);
        push_all(&mut r, s.as_slice());
    }
    if args.len() > 3 {
        push_all(&mut r, "&remote=".as_bytes());
        let s = percent_encode(args[3].as_slice(), EncodeSet::Query);
        push_all(&mut r, s.as_slice());
    }
    assert(r@ =~= auth_body(views(args@)));
    r
}

fn build_map_path(domain: &[u8], cmd: Cmd, arg: &[u8], uid: u32) -> (r: Vec<u8>)
    ensures
        r@ == map_path(domain@, cmd, arg@, uid),
{
    let (map, key) = match cmd {
        Cmd::GetPwNam => ("passwd".as_bytes(), "username".as_bytes()),
        Cmd::GetPwUid => ("passwd".as_bytes(), "uid".as_bytes()),
        Cmd::GetGrNam => ("group".as_bytes(), "group".as_bytes()),
        Cmd::GetGrGid => ("group".as_bytes(), "gid".as_bytes()),
        _ => ("gidlist".as_bytes(), "username".as_bytes()),
    };
    let mut r: Vec<u8> = Vec::new();
    push_all(&mut r, "/".as_bytes());
    let d = percent_encode(domain, EncodeSet::Default);
    push_all(&mut r, d.as_slice());
    push_all(&mut r, "/map/".as_bytes());
    let m = percent_encode(map, EncodeSet::Default);
    push_all(&mut r, m.as_slice());
    push_all(&mut r, "?".as_bytes());
    let k = percent_encode(key, EncodeSet::Query);
    push_all(&mut r, k.as_slice());
    push_all(&mut r, "=".as_bytes());
    let a = percent_encode(arg, EncodeSet::Query);
    push_all(&mut r, a.as_slice());
    push_all(&mut r, "&cred_uid=".as_bytes());
    push_decimal(&mut r, uid as u64);
    assert(r@ =~= map_path(domain@, cmd, arg@, uid));
    r
}

/// Whether `r` is what the daemon does with a command line. A line that
/// cannot be read is answered with code 400 and the parser's complaint; a
/// lookup that a restriction forbids is answered with `403 Forbidden` and
/// never reaches a server; `servers` is answered from the daemon's own
/// state; a login becomes a form to post; any other command becomes a map
/// lookup. The first attempt of either is numbered 1.
pub open spec fn answers(ctx: Context, line: Seq<u8>, r: Action) -> bool {
    match parse_spec(line) {
        Err(m) => r matches Action::Reply(l) && l@ == error_line(400, m),
        Ok((cmd, args, arg0)) => if forbidden(ctx, cmd, arg0) {
            r matches Action::Reply(l) && l@ == forbidden_line()
        } else if cmd == Cmd::Auth {
            r matches Action::Fetch { path, authorization, body, try_no } && path@ == auth_path(
                ctx.config.domain@,
            ) && authorization@ == authorization_of(ctx.config) && (body matches Some(b) && b@
                == auth_body(args)) && try_no == FIRST_TRY
        } else if cmd == Cmd::Servers {
            r is Servers
        } else {
            r matches Action::Fetch { path, authorization, body, try_no } && path@ == map_path(
                ctx.config.domain@,
                cmd,
                args[0],
                ctx.uid,
            ) && authorization@ == authorization_of(ctx.config) && body is None && try_no
                == FIRST_TRY
        },
    }
}

/// Decides what to do with a command line of a session.
pub fn process(ctx: &Context, line: &[u8]) -> (r: Action)
    ensures
        answers(*ctx, line@, r),
{
    let request = match Request::parse(line) {
        Ok(req) => req,
        Err(e) => {
            return Action::Reply(error(400, e.as_slice()));
        },
    };
    if ctx.config.restrict_getpwuid && request.cmd == Cmd::GetPwUid {
        if ctx.uid > 0 && request.arg0 != ctx.uid {
            return Action::Reply(error(403, "Forbidden".as_bytes()));
        }
    }
    if ctx.config.restrict_getgrgid && request.cmd == Cmd::GetGrGid {
        if ctx.uid > 0 && request.arg0 >= 1000 && request.arg0 != ctx.gid {
            return Action::Reply(error(403, "Forbidden".as_bytes()));
        }
    }
    let authorization = authorization(&ctx.config);
    if request.cmd == Cmd::Auth {
        let mut path: Vec<u8> = Vec::new();
        push_all(&mut path, "/".as_bytes());
        let d = percent_encode(ctx.config.domain.as_slice(), EncodeSet::Default);
        push_all(&mut path, d.as_slice());
        push_all(&mut path, "/auth".as_bytes());
        let body = build_auth_body(&request.args);
        return Action::Fetch { path, authorization, body: Some(body), try_no: FIRST_TRY };
    }
    if request.cmd == Cmd::Servers {
        return Action::Servers;
    }
    let path = build_map_path(
        ctx.config.domain.as_slice(),
        request.cmd,
        request.args[0].as_slice(),
        ctx.uid,
    );
    Action::Fetch { path, authorization, body: None, try_no: FIRST_TRY }
}

/// `s` without the slashes at its end.
pub open spec fn trim_slashes(s: Seq<u8>) -> Seq<u8>
    decreases s.len(),
{
    if s.len() > 0 && s.last() == 0x2f {
        trim_slashes(s.drop_last())
    } else {
        s
    }
}

/// The address to ask for `path` on `host`. A host that starts with
/// `http://` or `https://` is a base address and is used as it is, without
/// the slashes at its end. Any other host gets the well-known prefix: over
/// plain HTTP for `localhost`, with or without a port, over HTTPS otherwise.
pub open spec fn uri_of(host: Seq<u8>, path: Seq<u8>) -> Seq<u8> {
    if starts_with(host, lit("http://")) || starts_with(host, lit("https://")) {
        trim_slashes(host) + path
    } else if host == lit("localhost") || starts_with(host, lit("localhost:")) {
        lit("http://") + host + lit("/.well-known/webnis") + path
    } else {
        lit("https://") + host + lit("/.well-known/webnis") + path
    }
}

/// Builds the address to ask for `path` on `host`.
pub fn build_uri(host: &[u8], path: &[u8]) -> (r: Vec<u8>)
    ensures
        r@ == uri_of(host@, path@),
{
    let mut r: Vec<u8> = Vec::new();
    if has_prefix(host, "http://".as_bytes()) || has_prefix(host, "https://".as_bytes()) {
        let mut n: usize = host.len();
        proof {
            assert(host@.take(n as int) == host@);
        }
        while n > 0 && host[n - 1] == 0x2f
            invariant
                n <= host@.len(),
                trim_slashes(host@) == trim_slashes(host@.take(n as int)),
            decreases n,
        {
            proof {
                assert(host@.take(n as int).drop_last() == host@.take(n - 1));
            }
            n -= 1;
        }
        let mut i: usize = 0;
        while i < n
            invariant
                i <= n <= host@.len(),
                r@ == host@.take(i as int),
            decreases n - i,
        {
            r.push(host[i]);
            assert(host@.take(i + 1) == host@.take(i as int).push(host@[i as int]));
            i += 1;
        }
        push_all(&mut r, path);
    } else {
        if bytes_eq(host, "localhost".as_bytes()) || has_prefix(host, "localhost:".as_bytes()) {
            push_all(&mut r, "http://".as_bytes());
        } else {
            push_all(&mut r, "https://".as_bytes());
        }
        push_all(&mut r, host);
        push_all(&mut r, "/.well-known/webnis".as_bytes());
        push_all(&mut r, path);
        assert(r@ =~= uri_of(host@, path@));
    }
    r
}


/// The ways in which one request to a server can fail before a reply body
/// has been read.
#[derive(Debug, PartialEq, Eq)]
pub enum Failure {
    /// The HTTPS client reported a connect, TLS or stream error; the text
    /// is the client's description of it.
    Client(Vec<u8>),
    /// A response came that is not read: its content type is not
    /// `application/json`, or its status is neither a success nor final.
    Status { status: u16, is_json: bool },
    /// The body of the response could not be read.
    Body,
    /// No complete answer within the time allowed.
    Timeout,
}

/// Code that marks a failure of the HTTPS client itself.
pub const CLIENT_STUCK: i64 = 550;

/// The code that stands for a failure: 550 for a client error, 416 for a
/// success status with the wrong content type, the status itself for any
/// other response that is not read, 400 for an unreadable body, 408 for a
/// time-out.
pub open spec fn failure_code(f: Failure) -> int {
    match f {
        Failure::Client(_) => 550,
        Failure::Status { status, is_json } => if !is_json && 200 <= status < 300 {
            416
        } else {
            status as int
        },
        Failure::Body => 400,
        Failure::Timeout => 408,
    }
}

/// The text sent with a failure's code.
pub open spec fn failure_text(f: Failure) -> Seq<u8> {
    match f {
        Failure::Client(e) => lit("GET error: ") + e@,
        Failure::Status { status, is_json } => if !is_json && 200 <= status < 300 {
            lit("expected application/json")
        } else {
            lit("HTTP error")
        },
        Failure::Body => lit("GET body error"),
        Failure::Timeout => lit("request timeout"),
    }
}

/// Whether a failure is final: the server has spoken and said no.
pub open spec fn is_final_code(code: int) -> bool {
    code == 401 || code == 403 || code == 404
}

/// Whether another attempt follows a failure: the code is not final, the
/// client is still there, and attempts are left.
pub open spec fn retries(code: int, eof: bool, try_no: u32) -> bool {
    !is_final_code(code) && !eof && try_no < MAX_TRIES
}

/// The pool after a failed attempt that is followed by another. Nothing
/// changes if another session has moved the sequence number on since the
/// attempt began. Otherwise a failure of the client itself drops the client,
/// and any other failure moves on to the next server.
pub open spec fn pool_after_failure(pool: HttpClient, seqno: usize, code: int) -> HttpClient {
    if pool.seqno != seqno {
        pool
    } else if code == 550 {
        HttpClient { has_client: false, seqno: pool.seqno }
    } else {
        HttpClient { has_client: pool.has_client, seqno: (pool.seqno + 1) as usize }
    }
}

/// The pool once an attempt has begun: a missing client is created, which
/// moves the sequence number on by one.
pub open spec fn pool_at_attempt(pool: HttpClient) -> HttpClient {
    if pool.has_client {
        pool
    } else {
        HttpClient { has_client: true, seqno: (pool.seqno + 1) as usize }
    }
}

/// Tells whether a response announces JSON: its content type is
/// `application/json`, written just so.
pub fn json_content(content_type: Option<&[u8]>) -> (r: bool)
    ensures
        r == (content_type matches Some(t) && t@ == lit("application/json")),
{
    match content_type {
        Some(t) => bytes_eq(t, "application/json".as_bytes()),
        None => false,
    }
}

/// What is done with a response once its status and content type are
/// known. A JSON response with a success status or with one of the final
/// codes 401, 403 and 404 is read: its body is reshaped into the reply. Any
/// other response is a failure and is not read.
pub fn on_response(status: u16, is_json: bool) -> (r: Option<Failure>)
    ensures
        r == (if is_json && ((200 <= status < 300) || is_final_code(status as int)) {
            None::<Failure>
        } else {
            Some(Failure::Status { status, is_json })
        }),
{
    if is_json && ((200 <= status && status < 300) || status == 401 || status == 403 || status
        == 404) {
        None
    } else {
        Some(Failure::Status { status, is_json })
    }
}

/// What follows a failed attempt.
#[derive(Debug, PartialEq, Eq)]
pub enum Next {
    /// Try again, as attempt `try_no`.
    Retry { try_no: u32 },
    /// Give up and send this line.
    Done(Vec<u8>),
}

/// The code and text of a failure.
pub fn describe(f: &Failure) -> (r: (i64, Vec<u8>))
    ensures
        r.0 == failure_code(*f),
        r.1@ == failure_text(*f),
{
    match f {
        Failure::Client(e) => {
            let mut t: Vec<u8> = Vec::new();
            push_all(&mut t, "GET error: ".as_bytes());
            push_all(&mut t, e.as_slice());
            (CLIENT_STUCK, t)
        },
        Failure::Status { status, is_json } => {
            if !*is_json && 200 <= *status && *status < 300 {
                (416, clone_bytes("expected application/json".as_bytes()))
            } else {
                (*status as i64, clone_bytes("HTTP error".as_bytes()))
            }
        },
        Failure::Body => (400, clone_bytes("GET body error".as_bytes())),
        Failure::Timeout => (408, clone_bytes("request timeout".as_bytes())),
    }
}

/// Begins an attempt: tells which sequence number the attempt runs under
/// and whether a new HTTPS client has to be created. The sequence number
/// never falls. To be called with the pool locked.
pub fn begin_attempt(pool: &mut HttpClient) -> (r: (usize, bool))
    requires
        old(pool).seqno < usize::MAX,
    ensures
        *final(pool) == pool_at_attempt(*old(pool)),
        r.0 == final(pool).seqno,
        r.1 == !old(pool).has_client,
        final(pool).has_client,
        final(pool).seqno >= old(pool).seqno,
{
    let create = !pool.has_client;
    if create {
        pool.has_client = true;
        pool.seqno = pool.seqno + 1;
    }
    (pool.seqno, create)
}

/// Whether attempt `try_no` waits for the retry delay before it is made:
/// every attempt but the first does.
pub fn delay_before(try_no: u32) -> (r: bool)
    ensures
        r == (try_no > FIRST_TRY),
{
    try_no > FIRST_TRY
}

/// A request makes `MAX_TRIES` attempts at most: an attempt that is
/// followed by another has a number below `MAX_TRIES`, the attempts are
/// numbered from `FIRST_TRY` on, one by one, and after the failure of
/// attempt `MAX_TRIES` no other follows.
pub proof fn law_attempts_are_counted(code: int, eof: bool, try_no: u32)
    ensures
        retries(code, eof, try_no) ==> FIRST_TRY <= try_no + 1 <= MAX_TRIES,
        !retries(code, eof, MAX_TRIES),
        FIRST_TRY == 1,
{
}

/// Settles a failed attempt that ran under `seqno` as attempt `try_no`.
/// A final code, a closed session or the end of the attempts ends the
/// request with the failure's line, and the pool stays as it is. Otherwise
/// the pool is updated and the request is tried again. The sequence number
/// never falls. To be called with the pool locked.
pub fn after_failure(
    pool: &mut HttpClient,
    seqno: usize,
    failure: &Failure,
    eof: bool,
    try_no: u32,
) -> (r: Next)
    requires
        old(pool).seqno < usize::MAX,
    ensures
        retries(failure_code(*failure), eof, try_no) ==> r == (Next::Retry {
            try_no: (try_no + 1) as u32,
        }) && *final(pool) == pool_after_failure(*old(pool), seqno, failure_code(*failure)),
        !retries(failure_code(*failure), eof, try_no) ==> *final(pool) == *old(pool) && (
        r matches Next::Done(l) && l@ == error_line(
            failure_code(*failure),
            failure_text(*failure),
        )),
        final(pool).seqno >= old(pool).seqno,
{
    let (code, text) = describe(failure);
    if code != 401 && code != 403 && code != 404 && !eof && try_no < MAX_TRIES {
        if pool.seqno == seqno {
            if code == CLIENT_STUCK {
                pool.has_client = false;
            } else {
                pool.seqno = pool.seqno + 1;
            }
        }
        Next::Retry { try_no: try_no + 1 }
    } else {
        Next::Done(error(code, text.as_slice()))
    }
}

/// A session that has the pool to itself runs each attempt under the
/// sequence number after that of the attempt before: a failed attempt that
/// is retried either moves the sequence number on, or drops the client, and
/// the client's creation at the next attempt moves it on.
pub proof fn law_next_attempt_moves_on(pool: HttpClient, code: int)
    requires
        pool.seqno + 2 <= usize::MAX,
    ensures
        ({
            let begun = pool_at_attempt(pool);
            let failed = pool_after_failure(begun, begun.seqno, code);
            pool_at_attempt(failed).seqno == begun.seqno + 1 && pool_at_attempt(failed).has_client
        }),
{
}

/// How many of the `m` consecutive sequence numbers from `start` on name
/// server `j` of a pool of `n`.
pub open spec fn tries_on(start: int, m: nat, n: int, j: int) -> nat
    decreases m,
{
    if m == 0 {
        0
    } else {
        tries_on(start, (m - 1) as nat, n, j) + if (start + m - 1) % n == j {
            1nat
        } else {
            0nat
        }
    }
}


/// The tries over a run of sequence numbers are those over its first part
/// and those over the rest.
pub proof fn lemma_tries_split(start: int, a: nat, b: nat, n: int, j: int)
    ensures
        tries_on(start, a + b, n, j) == tries_on(start, a, n, j) + tries_on(start + a, b, n, j),
    decreases b,
{
    if b > 0 {
        lemma_tries_split(start, a, (b - 1) as nat, n, j);
        assert((a + b - 1) as nat == a + (b - 1) as nat);
    }
}

/// Among `n` consecutive sequence numbers, each server of a pool of `n` is named.
pub proof fn lemma_tries_window(start: int, n: int, j: int)
    requires
        n > 0,
        0 <= j < n,
        start >= 0,
    ensures
        tries_on(start, n as nat, n, j) >= 1,
{
    let r = start % n;
    let q = start / n;
    vstd::arithmetic::div_mod::lemma_fundamental_div_mod(start, n);
    let k: int = if j >= r {
        j - r
    } else {
        j - r + n
    };
    assert(0 <= k < n);
    if j >= r {
        assert(start + k == q * n + j) by (nonlinear_arith)
            requires
                start == n * q + r,
                k == j - r,
        ;
        vstd::arithmetic::div_mod::lemma_fundamental_div_mod_converse(start + k, n, q, j);
    } else {
        assert(start + k == (q + 1) * n + j) by (nonlinear_arith)
            requires
                start == n * q + r,
                k == j - r + n,
        ;
        vstd::arithmetic::div_mod::lemma_fundamental_div_mod_converse(start + k, n, q + 1, j);
    }
    assert((start + k) % n == j);
    lemma_tries_split(start, (k + 1) as nat, (n - k - 1) as nat, n, j);
    assert(((k + 1) as nat + (n - k - 1) as nat) as nat == n as nat);
    assert(tries_on(start, (k + 1) as nat, n, j) >= 1);
}

/// Among `m` consecutive sequence numbers, each server of a pool of `n` is
/// named at least `m / n` times.
pub proof fn lemma_tries_spread(start: int, m: nat, n: int, j: int)
    requires
        n > 0,
        0 <= j < n,
        start >= 0,
    ensures
        tries_on(start, m, n, j) >= m as int / n,
    decreases m,
{
    if m < n {
        vstd::arithmetic::div_mod::lemma_basic_div(m as int, n);
    } else {
        lemma_tries_window(start, n, j);
        lemma_tries_spread(start + n, (m - n) as nat, n, j);
        lemma_tries_split(start, n as nat, (m - n) as nat, n, j);
        assert((n as nat + (m - n) as nat) as nat == m);
        vstd::arithmetic::div_mod::lemma_div_plus_one(m - n, n);
        assert(n + (m - n) == m as int);
    }
}

/// The sequence number under which the next attempt runs.
pub open spec fn next_seqno(pool: HttpClient) -> int {
    if pool.has_client {
        pool.seqno as int
    } else {
        pool.seqno + 1
    }
}

/// The sequence numbers under which a session that has the pool to itself
/// runs its attempts, starting from `pool`: one attempt for each code of
/// `codes`, which are the codes that the attempts fail with, each failure
/// followed by another attempt.
pub open spec fn attempts_of(pool: HttpClient, codes: Seq<int>) -> Seq<int>
    decreases codes.len(),
{
    if codes.len() == 0 {
        Seq::empty()
    } else {
        let begun = pool_at_attempt(pool);
        seq![begun.seqno as int] + attempts_of(
            pool_after_failure(begun, begun.seqno, codes[0]),
            codes.skip(1),
        )
    }
}

/// How many of the sequence numbers `used` name server `j` of a pool of `n`.
pub open spec fn tries_of(used: Seq<int>, n: int, j: int) -> nat
    decreases used.len(),
{
    if used.len() == 0 {
        0
    } else {
        tries_of(used.drop_last(), n, j) + if used.last() % n == j {
            1nat
        } else {
            0nat
        }
    }
}

/// The attempts of a session that has the pool to itself run under
/// consecutive sequence numbers.
pub proof fn lemma_attempts_consecutive(pool: HttpClient, codes: Seq<int>)
    requires
        next_seqno(pool) + codes.len() <= usize::MAX,
    ensures
        attempts_of(pool, codes) == Seq::new(codes.len(), |k: int| next_seqno(pool) + k),
    decreases codes.len(),
{
    if codes.len() > 0 {
        let begun = pool_at_attempt(pool);
        let failed = pool_after_failure(begun, begun.seqno, codes[0]);
        assert(begun.seqno == next_seqno(pool));
        assert(next_seqno(failed) == next_seqno(pool) + 1);
        lemma_attempts_consecutive(failed, codes.skip(1));
        assert(attempts_of(pool, codes) =~= Seq::new(
            codes.len(),
            |k: int| next_seqno(pool) + k,
        ));
    } else {
        assert(attempts_of(pool, codes) =~= Seq::new(
            codes.len(),
            |k: int| next_seqno(pool) + k,
        ));
    }
}

/// Counting over a run of consecutive sequence numbers.
pub proof fn lemma_tries_of_run(start: int, m: nat, n: int, j: int)
    ensures
        tries_of(Seq::new(m, |k: int| start + k), n, j) == tries_on(start, m, n, j),
    decreases m,
{
    if m > 0 {
        let run = Seq::new(m, |k: int| start + k);
        assert(run.drop_last() =~= Seq::new((m - 1) as nat, |k: int| start + k));
        assert(run.last() == start + m - 1);
        lemma_tries_of_run(start, (m - 1) as nat, n, j);
    }
}

/// After any number of failed attempts of a session that has the pool to
/// itself, each server of a pool of `n` has been tried at least as often as
/// `n` goes into the number of attempts: after `MAX_TRIES` attempts, at
/// least `MAX_TRIES / n` times.
pub proof fn law_failover_covers_pool(pool: HttpClient, codes: Seq<int>, n: int, j: int)
    requires
        n > 0,
        0 <= j < n,
        pool.seqno + codes.len() < usize::MAX,
    ensures
        tries_of(attempts_of(pool, codes), n, j) >= codes.len() as int / n,
        codes.len() == MAX_TRIES ==> tries_of(attempts_of(pool, codes), n, j) >= MAX_TRIES as int
            / n,
{
    lemma_attempts_consecutive(pool, codes);
    lemma_tries_of_run(next_seqno(pool), codes.len(), n, j);
    lemma_tries_spread(next_seqno(pool), codes.len(), n, j);
}

/// A lookup by uid that `restrict_getpwuid` forbids is answered with code 403.
pub proof fn law_restricted_uid_is_forbidden(ctx: Context, line: Seq<u8>)
    requires
        ctx.config.restrict_getpwuid,
        ctx.uid > 0,
        parse_spec(line) matches Ok((cmd, args, arg0)) && cmd == Cmd::GetPwUid && arg0 != ctx.uid,
    ensures
        parse_spec(line) matches Ok((cmd, args, arg0)) && forbidden(ctx, cmd, arg0),
        forbidden_line() == lit("403") + lit(" ") + lit("Forbidden"),
{
    reveal_with_fuel(decimal, 4);
    reveal_strlit("403");
    reveal_strlit(" ");
    broadcast use vstd::string::group_string_axioms;
    assert(decimal(403) =~= seq![0x34u8, 0x30u8, 0x33u8]);
    assert("403"@.len() == 3 && vstd::string::is_ascii("403"));
    assert(" "@.len() == 1 && vstd::string::is_ascii(" "));
    assert(lit("403") =~= seq![0x34u8, 0x30u8, 0x33u8]);
    assert(lit(" ") =~= seq![0x20u8]);
    assert(forbidden_line() =~= lit("403") + lit(" ") + lit("Forbidden"));
}


/// The reply to `servers`: the code 200 and what is reported, as JSON text.
pub fn servers_line(report: &[u8]) -> (r: Vec<u8>)
    ensures
        r@ == lit("200 ") + report@,
{
    let mut r: Vec<u8> = Vec::new();
    push_all(&mut r, "200 ".as_bytes());
    push_all(&mut r, report);
    r
}

/// What `servers` reports: an object with the sequence number, the active
/// server, or null while there is no client, and the servers of the pool.
pub fn servers_reply(pool: &HttpClient, config: &Config) -> (r: Json)
    requires
        config.servers@.len() > 0,
    ensures
        r.members() == Some(3nat),
        r.field(lit("seqno")) == Some(Json::Int(pool.seqno as i128)),
        r.field(lit("active")) matches Some(a) && (if pool.has_client {
            a.text() == Some(config.servers@[pool.seqno as int % config.servers@.len() as int]@)
        } else {
            a is Null
        }),
        r.field(lit("servers")) matches Some(l) && l.texts() == Some(views(config.servers@)),
{
    let active = match pool.active(config.servers.len()) {
        Some(i) => Json::Text(clone_bytes(config.servers[i].as_slice())),
        None => Json::Null,
    };
    let mut list: Vec<Json> = Vec::new();
    let mut i: usize = 0;
    while i < config.servers.len()
        invariant
            i <= config.servers@.len(),
            list@.len() == i,
            forall|k: int| 0 <= k < i ==> (#[trigger] list@[k]).text() == Some(config.servers@[k]@),
        decreases config.servers@.len() - i,
    {
        list.push(Json::Text(clone_bytes(config.servers[i].as_slice())));
        i += 1;
    }
    let servers = Json::List(list);
    assert(servers.texts() is Some);
    assert(servers.texts().unwrap() =~= views(config.servers@));
    let mut o: Vec<(Vec<u8>, Json)> = Vec::new();
    o.push((clone_bytes("seqno".as_bytes()), Json::Int(pool.seqno as i128)));
    o.push((clone_bytes("active".as_bytes()), active));
    o.push((clone_bytes("servers".as_bytes()), servers));
    proof {
        reveal_strlit("seqno");
        reveal_strlit("active");
        reveal_strlit("servers");
        broadcast use vstd::string::group_string_axioms;
        assert("seqno"@.len() == 5 && vstd::string::is_ascii("seqno"));
        assert("active"@.len() == 6 && vstd::string::is_ascii("active"));
        assert("servers"@.len() == 7 && vstd::string::is_ascii("servers"));
        assert(lit("seqno").len() == 5);
        assert(lit("active").len() == 6);
        assert(lit("servers").len() == 7);
        let k = crate::text::keys_of(o@);
        assert(k =~= seq![lit("seqno"), lit("active"), lit("servers")]);
        crate::text::lemma_position(k, lit("seqno"));
        crate::text::lemma_position(k, lit("active"));
        crate::text::lemma_position(k, lit("servers"));
        assert(crate::text::position(k, lit("seqno")) == 0);
        assert(crate::text::position(k, lit("active")) == 1);
        assert(crate::text::position(k, lit("servers")) == 2);
    }
    Json::Object(o)
}

} // verus!
