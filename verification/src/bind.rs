//! The binding daemon's settings and the state it shares between sessions.

use vstd::prelude::*;
use crate::text::{clone_bytes, lit};

verus! {

/// Settings of the binding daemon.
#[derive(Debug, PartialEq, Eq)]
pub struct Config {
    /// Domain to ask the servers about; `default` where none is set.
    pub domain: Vec<u8>,
    /// A single server, as an alternative to `servers`.
    pub server: Option<Vec<u8>>,
    /// The pool of servers.
    pub servers: Vec<Vec<u8>>,
    pub http_authschema: Vec<u8>,
    pub http_authtoken: Vec<u8>,
    pub http_authencoding: Option<Vec<u8>>,
    pub http2_only: Option<bool>,
    pub concurrency: Option<usize>,
    /// A session of a uid other than 0 may only look up its own uid.
    pub restrict_getpwuid: bool,
    /// A session of a uid other than 0 may only look up gids below 1000 and its own.
    pub restrict_getgrgid: bool,
}

/// What a session knows: the settings, and the uid and gid of the process at
/// the other end of the socket.
#[derive(Debug, PartialEq, Eq)]
pub struct Context {
    pub config: Config,
    pub uid: u32,
    pub gid: u32,
}

/// Uid and gid of a session whose peer credentials could not be read.
pub const UNKNOWN_ID: u32 = 0xfffffffe;

/// Time after which a session is closed, in seconds.
pub const SESSION_TIMEOUT_SECS: u64 = 10;

/// Number of sessions served at once where the settings name none.
pub const DEFAULT_CONCURRENCY: usize = 32;

/// Least number of sessions served at once when only HTTP/2 is spoken.
pub const HTTP2_CONCURRENCY: usize = 100;

/// The pool of servers as sessions share it: whether an HTTPS client exists,
/// and the sequence number whose remainder by the pool's size names the
/// active server.
#[derive(Debug, PartialEq, Eq)]
pub struct HttpClient {
    pub has_client: bool,
    pub seqno: usize,
}

/// The settings as the daemon runs on them: a single `server` joins the
/// pool, and an empty domain becomes `default`. `None` where no server is
/// defined at all.
pub fn complete(config: Config) -> (r: Option<Config>)
    ensures
        (config.server is None && config.servers@.len() == 0) <==> r is None,
        r matches Some(c) ==> {
            &&& c.server is None
            &&& c.servers@ == (match config.server {
                Some(s) => config.servers@.push(s),
                None => config.servers@,
            })
            &&& c.servers@.len() > 0
            &&& c.domain@ == (if config.domain@.len() == 0 {
                lit("default")
            } else {
                config.domain@
            })
            &&& c.http_authschema == config.http_authschema
            &&& c.http_authtoken == config.http_authtoken
            &&& c.http_authencoding == config.http_authencoding
            &&& c.http2_only == config.http2_only
            &&& c.concurrency == config.concurrency
            &&& c.restrict_getpwuid == config.restrict_getpwuid
            &&& c.restrict_getgrgid == config.restrict_getgrgid
        },
{
    let mut config = config;
    let server = config.server;
    config.server = None;
    match server {
        Some(s) => {
            config.servers.push(s);
        },
        None => {},
    }
    if config.servers.len() == 0 {
        return None;
    }
    if config.domain.len() == 0 {
        config.domain = clone_bytes("default".as_bytes());
    }
    Some(config)
}

/// How many sessions are served at once: what the settings say, 32 where
/// they say nothing, and at least 100 when only HTTP/2 is spoken.
pub fn concurrency(config: &Config) -> (r: usize)
    ensures
        r == ({
            let c = match config.concurrency {
                Some(n) => n,
                None => DEFAULT_CONCURRENCY,
            };
            if config.http2_only == Some(true) && c < HTTP2_CONCURRENCY {
                HTTP2_CONCURRENCY
            } else {
                c
            }
        }),
{
    let http2_only = match config.http2_only {
        Some(b) => b,
        None => false,
    };
    let c = match config.concurrency {
        Some(n) => n,
        None => DEFAULT_CONCURRENCY,
    };
    if http2_only && c < HTTP2_CONCURRENCY {
        HTTP2_CONCURRENCY
    } else {
        c
    }
}

impl HttpClient {
    /// The state at start-up: no client yet, and a sequence number taken
    /// from the process id so that daemons spread over the pool.
    pub fn new(pid: u32, servers: usize) -> (r: HttpClient)
        requires
            servers > 0,
        ensures
            !r.has_client,
            r.seqno == pid as int % servers as int,
    {
        HttpClient { has_client: false, seqno: (pid as usize) % servers }
    }

    /// Index of the active server in a pool of `servers`, if a client exists.
    pub fn active(&self, servers: usize) -> (r: Option<usize>)
        requires
            servers > 0,
        ensures
            r == (if self.has_client {
                Some((self.seqno % servers) as usize)
            } else {
                None
            }),
    {
        if self.has_client {
            Some(self.seqno % servers)
        } else {
            None
        }
    }
}


} // verus!
