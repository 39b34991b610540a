//! The authentication adapter, I/O aside: the module's arguments, the
//! request it sends to the daemon, what the daemon's answer means, and when
//! the exchange is tried again.

use vstd::prelude::*;
use vstd::utf8::valid_utf8;
use crate::errors::IoFailure;
use crate::percent::{
    EncodeSet, in_set, lemma_decode_encode, lemma_encoded_clean, percent_decoded,
    percent_encode, percent_encoded, str_from_utf8,
};
use crate::text::whitespace_at;
use crate::text::{
    bytes_eq, contains_whitespace, has_whitespace, lit, parse_number, parse_unsigned, push_all,
    splitn, splitn_bytes, views,
};

verus! {

/// Exchanges with the daemon after which a login is given up.
pub const MAX_TRIES: u32 = 2;

/// Pause before the exchange is tried again, in milliseconds.
pub const RETRY_DELAY_MS: u64 = 2500;

/// Time allowed for reading the daemon's reply, in milliseconds.
pub const REQUEST_READ_TIMEOUT_MS: u64 = 2500;

/// Time allowed for writing the request, in milliseconds.
pub const REQUEST_WRITE_TIMEOUT_MS: u64 = 1000;

/// The outcomes that the adapter reports to the host.
#[derive(PartialEq, Eq, Structural, Clone, Copy, Debug)]
pub enum PamError {
    Success,
    AuthErr,
    UserUnknown,
    AuthinfoUnavail,
}

impl PamError {
    /// The number that the host knows the outcome by.
    pub fn code(&self) -> (r: i32)
        ensures
            r == (match *self {
                PamError::Success => 0i32,
                PamError::AuthErr => 7i32,
                PamError::AuthinfoUnavail => 9i32,
                PamError::UserUnknown => 10i32,
            }),
    {
        match self {
            PamError::Success => 0,
            PamError::AuthErr => 7,
            PamError::AuthinfoUnavail => 9,
            PamError::UserUnknown => 10,
        }
    }
}

/// The outcome that a number of the host stands for, as far as the adapter
/// tells outcomes apart: anything but success, a failed login and an
/// unknown user means that the matter is open.
pub fn to_pam_error(e: i32) -> (r: PamError)
    ensures
        r == (if e == 0 {
            PamError::Success
        } else if e == 7 {
            PamError::AuthErr
        } else if e == 10 {
            PamError::UserUnknown
        } else {
            PamError::AuthinfoUnavail
        }),
{
    if e == 0 {
        PamError::Success
    } else if e == 7 {
        PamError::AuthErr
    } else if e == 10 {
        PamError::UserUnknown
    } else {
        PamError::AuthinfoUnavail
    }
}

/// The arguments that the module takes in the host's configuration.
#[derive(Debug, PartialEq, Eq)]
pub struct PamArgs {}

/// Bit for the argument `debug`.
pub const DEBUG: u32 = 1;

/// Bit for the argument `use_first_pass`, which is how the module works anyway.
pub const USE_FIRST_PASS: u32 = 2;

/// The bit that an argument stands for; 0 for an argument that is not known.
pub open spec fn arg_bit(a: Seq<u8>) -> u32 {
    if a == lit("debug") {
        DEBUG
    } else if a == lit("use_first_pass") {
        USE_FIRST_PASS
    } else {
        0
    }
}

/// The bits of the first `n` arguments, or-ed together.
pub open spec fn args_bits(args: Seq<Seq<u8>>, n: int) -> u32
    decreases n,
{
    if n <= 0 {
        0
    } else {
        args_bits(args, n - 1) | arg_bit(args[n - 1])
    }
}

impl PamArgs {
    /// Reads the module's arguments into a set of bits.
    pub fn parse(args: &Vec<Vec<u8>>) -> (r: u32)
        ensures
            r == args_bits(views(args@), args@.len() as int),
    {
        let mut a: u32 = 0;
        let mut i: usize = 0;
        while i < args.len()
            invariant
                i <= args@.len(),
                a == args_bits(views(args@), i as int),
            decreases args@.len() - i,
        {
            assert(views(args@)[i as int] == args@[i as int]@);
            if bytes_eq(args[i].as_slice(), "debug".as_bytes()) {
                a = a | DEBUG;
            } else if bytes_eq(args[i].as_slice(), "use_first_pass".as_bytes()) {
                a = a | USE_FIRST_PASS;
            } else {
                assert(a | 0u32 == a) by (bit_vector);
            }
            i += 1;
        }
        a
    }
}

/// Whether a name can be sent: it is UTF-8 text without white space.
pub open spec fn sendable(s: Seq<u8>) -> bool {
    valid_utf8(s) && !has_whitespace(s)
}

/// The line that asks the daemon to check a login. The password is
/// percent-encoded with the path segment set, which escapes white space,
/// `%` and `/` among others.
pub open spec fn auth_line(
    user: Seq<u8>,
    authtok: Seq<u8>,
    service: Seq<u8>,
    rhost: Option<Seq<u8>>,
) -> Seq<u8> {
    lit("auth ") + user + seq![0x20u8] + percent_encoded(EncodeSet::PathSegment, authtok) + seq![
        0x20u8,
    ] + service + (match rhost {
        Some(r) => seq![0x20u8] + r,
        None => Seq::empty(),
    }) + seq![0x0au8]
}

/// What the adapter makes of a login: the line to send, or the outcome to
/// report at once. A missing user is `UserUnknown`. A user, service or
/// remote host that is not UTF-8 text or holds white space, a missing
/// password and a missing service are `AuthErr`.
pub open spec fn prepared(
    user: Option<Seq<u8>>,
    authtok: Option<Seq<u8>>,
    service: Option<Seq<u8>>,
    rhost: Option<Seq<u8>>,
) -> Result<Seq<u8>, PamError> {
    if user is None {
        Err(PamError::UserUnknown)
    } else if !sendable(user.unwrap()) {
        Err(PamError::AuthErr)
    } else if authtok is None {
        Err(PamError::AuthErr)
    } else if has_whitespace(percent_encoded(EncodeSet::PathSegment, authtok.unwrap())) {
        Err(PamError::AuthErr)
    } else if service is None || !sendable(service.unwrap()) {
        Err(PamError::AuthErr)
    } else if rhost is Some && !sendable(rhost.unwrap()) {
        Err(PamError::AuthErr)
    } else {
        Ok(auth_line(user.unwrap(), authtok.unwrap(), service.unwrap(), rhost))
    }
}

fn can_send(s: &[u8]) -> (r: bool)
    ensures
        r == sendable(s@),
{
    match str_from_utf8(s) {
        Ok(_) => !contains_whitespace(s),
        Err(_) => false,
    }
}

/// Checks what the host knows about a login and builds the request for the daemon.
pub fn prepare(
    user: Option<&[u8]>,
    authtok: Option<&[u8]>,
    service: Option<&[u8]>,
    rhost: Option<&[u8]>,
) -> (r: Result<Vec<u8>, PamError>)
    ensures
        match prepared(
            match user {
                Some(x) => Some(x@),
                None => None,
            },
            match authtok {
                Some(x) => Some(x@),
                None => None,
            },
            match service {
                Some(x) => Some(x@),
                None => None,
            },
            match rhost {
                Some(x) => Some(x@),
                None => None,
            },
        ) {
            Ok(l) => r matches Ok(v) && v@ == l,
            Err(e) => r == Err::<Vec<u8>, PamError>(e),
        },
{
    let user = match user {
        Some(u) => u,
        None => {
            return Err(PamError::UserUnknown);
        },
    };
    if !can_send(user) {
        return Err(PamError::AuthErr);
    }
    let pass = match authtok {
        Some(p) => percent_encode(p, EncodeSet::PathSegment),
        None => {
            return Err(PamError::AuthErr);
        },
    };
    if contains_whitespace(pass.as_slice()) {
        return Err(PamError::AuthErr);
    }
    let service = match service {
        Some(s) => s,
        None => {
            return Err(PamError::AuthErr);
        },
    };
    if !can_send(service) {
        return Err(PamError::AuthErr);
    }
    let mut line: Vec<u8> = Vec::new();
    push_all(&mut line, "auth ".as_bytes());
    push_all(&mut line, user);
    line.push(0x20);
    push_all(&mut line, pass.as_slice());
    line.push(0x20);
    push_all(&mut line, service);
    match rhost {
        Some(r) => {
            if !can_send(r) {
                return Err(PamError::AuthErr);
            }
            line.push(0x20);
            push_all(&mut line, r);
        },
        None => {},
    }
    line.push(0x0a);
    assert(line@ =~= auth_line(
        user@,
        authtok.unwrap()@,
        service@,
        match rhost {
            Some(x) => Some(x@),
            None => None,
        },
    ));
    Ok(line)
}

/// What came of one exchange with the daemon.
#[derive(Debug, PartialEq, Eq)]
pub enum Exchange {
    /// The daemon answered with this line.
    Reply(Vec<u8>),
    /// Connecting, writing or reading failed.
    Failed(IoFailure),
}

/// What one exchange means: a code from 200 to 299 accepts the login; 401,
/// 403 and 404 reject it; any other code, a line that does not start with a
/// code, and a failure of the socket leave the matter open.
pub open spec fn exchange_meaning(x: Exchange) -> PamError {
    match x {
        Exchange::Failed(_) => PamError::AuthinfoUnavail,
        Exchange::Reply(line) => match parse_unsigned(splitn(line@, 0x20, 2)[0], 0xffff) {
            None => PamError::AuthinfoUnavail,
            Some(code) => if 200 <= code <= 299 {
                PamError::Success
            } else if code == 401 || code == 403 || code == 404 {
                PamError::AuthErr
            } else {
                PamError::AuthinfoUnavail
            },
        },
    }
}

/// Reads the outcome of one exchange.
pub fn classify(x: &Exchange) -> (r: PamError)
    ensures
        r == exchange_meaning(*x),
{
    match x {
        Exchange::Failed(_) => PamError::AuthinfoUnavail,
        Exchange::Reply(line) => {
            let parts = splitn_bytes(line.as_slice(), 0x20, 2);
            assert(views(parts@).len() >= 1);
            match parse_number(parts[0].as_slice(), 0xffff) {
                None => PamError::AuthinfoUnavail,
                Some(code) => {
                    if 200 <= code && code <= 299 {
                        PamError::Success
                    } else if code == 401 || code == 403 || code == 404 {
                        PamError::AuthErr
                    } else {
                        PamError::AuthinfoUnavail
                    }
                },
            }
        },
    }
}

/// What follows an exchange.
#[derive(PartialEq, Eq, Structural, Clone, Copy, Debug)]
pub enum AuthStep {
    /// Report this outcome to the host.
    Return(PamError),
    /// Try again after a pause of so many milliseconds.
    Retry { sleep_ms: u64 },
}

/// Decides what follows exchange number `tries`, counted from 0, that ended
/// with `outcome`. Acceptance and rejection are reported at once. An open
/// matter is tried again after the retry delay while exchanges are left,
/// and reported as `AuthinfoUnavail` after the last one.
pub fn wnbind_auth(outcome: PamError, tries: u32) -> (r: AuthStep)
    ensures
        r == (match outcome {
            PamError::Success => AuthStep::Return(PamError::Success),
            PamError::AuthErr => AuthStep::Return(PamError::AuthErr),
            _ => if tries + 1 < MAX_TRIES {
                AuthStep::Retry { sleep_ms: RETRY_DELAY_MS }
            } else {
                AuthStep::Return(PamError::AuthinfoUnavail)
            },
        }),
{
    match outcome {
        PamError::Success => AuthStep::Return(PamError::Success),
        PamError::AuthErr => AuthStep::Return(PamError::AuthErr),
        _ => {
            if tries < MAX_TRIES - 1 {
                AuthStep::Retry { sleep_ms: RETRY_DELAY_MS }
            } else {
                AuthStep::Return(PamError::AuthinfoUnavail)
            }
        },
    }
}


/// A password survives the way from the adapter to the server's check of
/// the hash: as the adapter sends it, it holds no white space, so that it
/// stays one word of the request, and what the server decodes before it
/// computes the hash is the password again.
pub proof fn law_password_round_trip(password: Seq<u8>)
    ensures
        !has_whitespace(percent_encoded(EncodeSet::PathSegment, password)),
        percent_decoded(percent_encoded(EncodeSet::PathSegment, password)) == password,
{
    let sent = percent_encoded(EncodeSet::PathSegment, password);
    lemma_decode_encode(EncodeSet::PathSegment, password);
    assert forall|i: int| 0 <= i < sent.len() implies !whitespace_at(sent, i) by {
        lemma_encoded_clean(EncodeSet::PathSegment, password, i);
        assert(sent[i] == 0x25 || !in_set(EncodeSet::PathSegment, sent[i]));
    }
}

} // verus!
