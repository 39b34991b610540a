//! Error kinds of the map server and of the name-service adapter.

use vstd::prelude::*;
use crate::text::{lit, split, split_bytes, views};

verus! {

/// Failures of a map lookup on the server.
#[derive(PartialEq, Eq, Structural, Clone, Copy, Debug)]
pub enum WnError {
    /// The key is not in the map.
    KeyNotFound,
    /// The map, or its backing file, does not exist.
    MapNotFound,
    /// The backend could not be read.
    DbOther,
    /// A value could not be turned into JSON, or JSON text could not be read.
    SerializeJson,
    /// A record does not have the shape its format asks for.
    DeserializeData,
    /// The format name is not one of the known formats.
    UnknownFormat,
    /// The map type name is not one of the known types.
    UnknownMapType,
    /// A script function raised an error.
    LuaError,
    /// The named script function does not exist.
    LuaFunctionNotFound,
    /// Any other failure.
    Other,
}

impl WnError {
    /// The name of the variant, as diagnostics print it.
    pub open spec fn debug_name(self) -> Seq<u8> {
        match self {
            WnError::KeyNotFound => lit("KeyNotFound"),
            WnError::MapNotFound => lit("MapNotFound"),
            WnError::DbOther => lit("DbOther"),
            WnError::SerializeJson => lit("SerializeJson"),
            WnError::DeserializeData => lit("DeserializeData"),
            WnError::UnknownFormat => lit("UnknownFormat"),
            WnError::UnknownMapType => lit("UnknownMapType"),
            WnError::LuaError => lit("LuaError"),
            WnError::LuaFunctionNotFound => lit("LuaFunctionNotFound"),
            WnError::Other => lit("Other"),
        }
    }

    /// Writes the name of the variant.
    pub fn debug_bytes(&self) -> (r: &'static [u8])
        ensures
            r@ == self.debug_name(),
    {
        match self {
            WnError::KeyNotFound => "KeyNotFound".as_bytes(),
            WnError::MapNotFound => "MapNotFound".as_bytes(),
            WnError::DbOther => "DbOther".as_bytes(),
            WnError::SerializeJson => "SerializeJson".as_bytes(),
            WnError::DeserializeData => "DeserializeData".as_bytes(),
            WnError::UnknownFormat => "UnknownFormat".as_bytes(),
            WnError::UnknownMapType => "UnknownMapType".as_bytes(),
            WnError::LuaError => "LuaError".as_bytes(),
            WnError::LuaFunctionNotFound => "LuaFunctionNotFound".as_bytes(),
            WnError::Other => "Other".as_bytes(),
        }
    }

    /// What the user of a map is told about the failure.
    pub open spec fn message_text(self) -> Seq<u8> {
        match self {
            WnError::KeyNotFound => lit("No such key in map"),
            WnError::MapNotFound => lit("No such map"),
            WnError::DbOther => lit("Database error"),
            WnError::SerializeJson => lit("Json serialization failed"),
            WnError::DeserializeData => lit("Data deserialization failed"),
            WnError::UnknownFormat => lit("Unknown format"),
            WnError::UnknownMapType => lit("Unknown map type"),
            WnError::LuaError => lit("Failed to execute script function"),
            WnError::LuaFunctionNotFound => lit("Script function not found"),
            WnError::Other => lit("Failed"),
        }
    }

    /// The text of the failure.
    pub fn message(&self) -> (r: &'static [u8])
        ensures
            r@ == self.message_text(),
    {
        match self {
            WnError::KeyNotFound => "No such key in map".as_bytes(),
            WnError::MapNotFound => "No such map".as_bytes(),
            WnError::DbOther => "Database error".as_bytes(),
            WnError::SerializeJson => "Json serialization failed".as_bytes(),
            WnError::DeserializeData => "Data deserialization failed".as_bytes(),
            WnError::UnknownFormat => "Unknown format".as_bytes(),
            WnError::UnknownMapType => "Unknown map type".as_bytes(),
            WnError::LuaError => "Failed to execute script function".as_bytes(),
            WnError::LuaFunctionNotFound => "Script function not found".as_bytes(),
            WnError::Other => "Failed".as_bytes(),
        }
    }
}

/// What can go wrong while a record is laid out in a caller's buffer.
#[derive(PartialEq, Eq, Structural, Clone, Copy, Debug)]
pub enum BufferFillError {
    InsufficientBuffer,
    NullPointerError,
    ZeroByteInString,
    DecodeError,
}

/// What can go wrong while the daemon is asked for a record.
#[derive(PartialEq, Eq, Structural, Clone, Copy, Debug)]
pub enum ConnxRetrievalError {
    NotFound,
    Unavailable,
    TryAgain,
}

/// Outcome kinds of the name-service adapter.
#[derive(PartialEq, Eq, Structural, Clone, Copy, Debug)]
pub enum NssError {
    /// The caller's buffer is too small for the record.
    InsufficientBuffer,
    /// The entry does not exist.
    NotFound,
    /// Something went permanently wrong.
    Unavailable,
    /// Something went temporarily wrong; try again at a later time.
    TryAgainLater,
    /// Something went temporarily wrong; try again within the retry budget.
    TryAgainNow,
    /// The daemon did not answer in time.
    TimedOut,
}

/// The kinds of socket failure that the adapters tell apart.
#[derive(PartialEq, Eq, Structural, Clone, Copy, Debug)]
pub enum IoFailure {
    TimedOut,
    Interrupted,
    ConnectionRefused,
    ConnectionReset,
    ConnectionAborted,
    NotConnected,
    BrokenPipe,
    UnexpectedEof,
    Other,
}

/// Status values handed back to the name-service switch.
pub const NSS_STATUS_TRYAGAIN: i32 = -2;

pub const NSS_STATUS_UNAVAIL: i32 = -1;

pub const NSS_STATUS_NOTFOUND: i32 = 0;

pub const NSS_STATUS_SUCCESS: i32 = 1;

/// Error numbers stored for the host: no such entry, try again, result too
/// large, timed out.
pub const ENOENT: i32 = 2;

pub const EAGAIN: i32 = 11;

pub const ERANGE: i32 = 34;

pub const ETIMEDOUT: i32 = 110;

/// The error number and status that stand for an error kind.
pub open spec fn nss_error_codes(err: NssError) -> (i32, i32) {
    match err {
        NssError::InsufficientBuffer => (ERANGE, NSS_STATUS_TRYAGAIN),
        NssError::NotFound => (ENOENT, NSS_STATUS_NOTFOUND),
        NssError::Unavailable => (EAGAIN, NSS_STATUS_UNAVAIL),
        NssError::TryAgainLater => (EAGAIN, NSS_STATUS_TRYAGAIN),
        NssError::TryAgainNow => (EAGAIN, NSS_STATUS_TRYAGAIN),
        NssError::TimedOut => (ETIMEDOUT, NSS_STATUS_TRYAGAIN),
    }
}

impl NssError {
    /// The adapter's error kind for a socket failure: time-outs and interrupts
    /// are `TimedOut`, a lost or refused connection is `TryAgainNow`, anything
    /// else is `Unavailable`.
    pub fn from_io(kind: IoFailure) -> (r: NssError)
        ensures
            r == (match kind {
                IoFailure::TimedOut | IoFailure::Interrupted => NssError::TimedOut,
                IoFailure::Other => NssError::Unavailable,
                _ => NssError::TryAgainNow,
            }),
    {
        match kind {
            IoFailure::TimedOut | IoFailure::Interrupted => NssError::TimedOut,
            IoFailure::ConnectionRefused
            | IoFailure::ConnectionReset
            | IoFailure::ConnectionAborted
            | IoFailure::NotConnected
            | IoFailure::BrokenPipe
            | IoFailure::UnexpectedEof => NssError::TryAgainNow,
            IoFailure::Other => NssError::Unavailable,
        }
    }
}

/// The error number to store and the status to return for an error.
pub fn nss_error(err: NssError) -> (r: (i32, i32))
    ensures
        r == nss_error_codes(err),
{
    match err {
        NssError::InsufficientBuffer => (ERANGE, NSS_STATUS_TRYAGAIN),
        NssError::NotFound => (ENOENT, NSS_STATUS_NOTFOUND),
        NssError::Unavailable => (EAGAIN, NSS_STATUS_UNAVAIL),
        NssError::TryAgainLater => (EAGAIN, NSS_STATUS_TRYAGAIN),
        NssError::TryAgainNow => (EAGAIN, NSS_STATUS_TRYAGAIN),
        NssError::TimedOut => (ETIMEDOUT, NSS_STATUS_TRYAGAIN),
    }
}

/// The status for a finished lookup, and the error number to store if it failed.
pub fn nss_result(res: Result<(), NssError>) -> (r: (Option<i32>, i32))
    ensures
        res is Ok ==> r == (None::<i32>, NSS_STATUS_SUCCESS),
        res matches Err(e) ==> r == (Some(nss_error_codes(e).0), nss_error_codes(e).1),
{
    match res {
        Ok(_) => (None, NSS_STATUS_SUCCESS),
        Err(e) => {
            let (errno, status) = nss_error(e);
            (Some(errno), status)
        },
    }
}


/// The lines among the first `n` parts of a text that are not empty.
pub open spec fn filled(parts: Seq<Seq<u8>>, n: int) -> Seq<Seq<u8>>
    decreases n,
{
    if n <= 0 {
        Seq::empty()
    } else if parts[n - 1].len() > 0 {
        filled(parts, n - 1).push(parts[n - 1])
    } else {
        filled(parts, n - 1)
    }
}

/// The lines of a message of several lines, empty lines left out.
pub fn multiline(s: &[u8]) -> (r: Vec<Vec<u8>>)
    ensures
        views(r@) == filled(split(s@, 0x0a), split(s@, 0x0a).len() as int),
{
    let mut parts = split_bytes(s, 0x0a);
    let ghost all = views(parts@);
    let mut r: Vec<Vec<u8>> = Vec::new();
    let ghost mut n: int = 0;
    assert(views(r@) =~= Seq::<Seq<u8>>::empty());
    while parts.len() > 0
        invariant
            0 <= n <= all.len(),
            n + parts@.len() == all.len(),
            views(parts@) == all.skip(n),
            views(r@) == filled(all, n),
        decreases parts@.len(),
    {
        let ghost before = views(parts@);
        let ghost done = views(r@);
        let line = parts.remove(0);
        proof {
            assert(before[0] == line@);
            assert(all[n] == line@);
            assert(views(parts@) =~= before.skip(1));
            assert(before.skip(1) =~= all.skip(n + 1));
        }
        if line.len() > 0 {
            r.push(line);
            assert(views(r@) =~= done.push(line@));
        }
        proof {
            n = n + 1;
        }
    }
    r
}

} // verus!
