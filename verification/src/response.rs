//! The standalone PING reply, kept apart from the dispatcher for callers
//! that answer a bare PING without consulting any state.

use vstd::prelude::*;

verus! {

use crate::command::{PingCommand, kw_pong};
use crate::resp::{RespDataType, RespEncoder, SpecFrame, spec_encode};

/// The reply to a bare PING.
#[derive(Debug)]
pub struct PingResponse;

impl PingResponse {
    /// The encoded reply bytes: the simple string PONG on the wire.
    pub fn reply_bytes(&self) -> (r: Vec<u8>)
        ensures
            r@ == spec_encode(SpecFrame::Simple(kw_pong())),
    {
        RespEncoder::encode(PingCommand.generate_reply())
    }
}

} // verus!
