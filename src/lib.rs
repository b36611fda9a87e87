//! The core of a CoAP (RFC 7252) runtime: a bit-exact message codec, requests and the
//! responses derived from them, and an event-driven runtime that correlates replies by id.
use vstd::prelude::*;

pub mod msg;
pub mod opts;
pub mod req;
pub mod resp;
pub mod event;
pub mod slots;
pub mod runtime;
pub mod server;

verus! {

/// The heap-backed configuration: every buffer of this library is a `Vec`.
#[derive(Debug, Clone, Copy)]
pub struct Alloc;

} // verus!
