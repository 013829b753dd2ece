//! Verified core of a small HTTP/1.1 server: request framing and parsing,
//! routing with content-encoding negotiation, response serialization, and
//! the decisions behind a fixed-size worker pool. Socket and file I/O stay
//! outside; this crate works on plain bytes handed in and out.
use vstd::prelude::*;

pub mod bytes;
pub mod dec;
pub mod http;
pub mod parse;
pub mod gzip;
pub mod route;
pub mod serialize;
pub mod response;
pub mod pool;

verus! {

} // verus!
