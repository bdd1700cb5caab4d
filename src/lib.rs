//! A small in-memory key-value server core: a line-based wire protocol
//! decoder and encoder, an expiring key-value store, a command dispatcher
//! and the replica handshake, all verified with Verus.

use vstd::prelude::*;

pub mod text;
pub mod resp;
pub mod storage;
pub mod server;
pub mod handshake;

verus! {

} // verus!
