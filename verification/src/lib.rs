//! Pinger: a rendezvous relay that lets two anonymous clients exchange a
//! short, end-to-end encrypted "ping" (a timestamped geographic position).
//!
//! The crate holds the verified core: the cryptographic envelope codec, the
//! X25519 key agreement plumbing, the JSON wire codec, the server's
//! connection registry and per-connection pump logic, and the client's
//! exchange state machine.

pub mod b64;
pub mod crypto;
pub mod exchange;
pub mod pump;
pub mod registry;
pub mod wire;

use vstd::prelude::*;

verus! {

/// A Ping ID, a 2- or 3-digit number assigned by the server to a live
/// connection.
#[derive(Clone, Copy, Debug, PartialEq, Eq, Structural, Hash)]
pub struct Id(pub u16);

} // verus!
