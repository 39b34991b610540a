//! Webnis: identity resolution and authentication over HTTPS.
//!
//! The library holds the rules of the three parts of the system: the binding
//! daemon that fronts a pool of map servers, the map server with its record
//! formats and access checks, and the adapters that hand records to the host's
//! name-service and authentication frameworks. All wire data is handled as
//! bytes; every function carries a contract over the byte sequences involved.

pub mod bind;
pub mod buffer;
pub mod config;
pub mod datalog;
pub mod db;
pub mod errors;
pub mod format;
pub mod iplist;
pub mod json;
pub mod login;
pub mod lookup;
pub mod lua;
pub mod nss;
pub mod nss_client;
pub mod pam;
pub mod percent;
pub mod request;
pub mod response;
pub mod routematcher;
pub mod session;
pub mod text;
pub mod util;
pub mod webnis;
pub mod wire;
