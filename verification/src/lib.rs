//! An in-memory key-value server core: a wire-protocol codec, a command
//! parser and dispatcher over a keyed store with millisecond expirations,
//! and a decoder for the binary snapshot format that seeds the store.

pub mod ascii;
pub mod rdb;
pub mod response;
pub mod session;
pub mod resp;
pub mod command;
pub mod dispatch;
pub mod server;
pub mod store;

use vstd::prelude::*;

verus! {


} // verus!
