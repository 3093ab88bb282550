//! The per-connection request pipeline, socket left to the caller: bytes
//! are buffered until a whole frame has arrived, the frame becomes a
//! command, the command runs against the shared state at the wall-time of
//! the call, and the reply (or the error reply) is encoded back to bytes.
//! Within one connection requests are handled strictly in arrival order, so
//! replies leave in the order the requests came.

use vstd::prelude::*;

verus! {

use crate::ascii::vec_of;
use crate::command::{CommandError, parse_command, spec_parse_command, views_of};
use crate::dispatch::{dispatch, dispatch_post};
use crate::resp::{RespDataType, RespDecoder, RespDecoderError, RespEncoder, SpecFrame,
    SpecDecoded, spec_decode, spec_encode, frame_view};
use crate::server::{ServerConfig, ServerInfo};
use crate::store::Store;

/// The error-reply text of each command error.
pub open spec fn error_text(e: CommandError) -> Seq<u8> {
    match e {
        CommandError::InvalidCommand => seq![
            69u8, 82u8, 82u8, 32u8, 117u8, 110u8, 107u8, 110u8, 111u8, 119u8, 110u8, 32u8, 99u8,
            111u8, 109u8, 109u8, 97u8, 110u8, 100u8,
        ],
        CommandError::InvalidFormat => seq![
            69u8, 82u8, 82u8, 32u8, 119u8, 114u8, 111u8, 110u8, 103u8, 32u8, 110u8, 117u8, 109u8,
            98u8, 101u8, 114u8, 32u8, 111u8, 102u8, 32u8, 97u8, 114u8, 103u8, 117u8, 109u8, 101u8,
            110u8, 116u8, 115u8,
        ],
        CommandError::InvalidCommandOptionName => seq![
            69u8, 82u8, 82u8, 32u8, 117u8, 110u8, 107u8, 110u8, 111u8, 119u8, 110u8, 32u8, 111u8,
            112u8, 116u8, 105u8, 111u8, 110u8,
        ],
        CommandError::InvalidCommandOptionValue => seq![
            69u8, 82u8, 82u8, 32u8, 98u8, 97u8, 100u8, 32u8, 111u8, 112u8, 116u8, 105u8, 111u8,
            110u8, 32u8, 118u8, 97u8, 108u8, 117u8, 101u8,
        ],
        CommandError::InvalidInfoArg => seq![
            69u8, 82u8, 82u8, 32u8, 117u8, 110u8, 115u8, 117u8, 112u8, 112u8, 111u8, 114u8, 116u8,
            101u8, 100u8, 32u8, 105u8, 110u8, 102u8, 111u8, 32u8, 115u8, 101u8, 99u8, 116u8, 105u8,
            111u8, 110u8,
        ],
        CommandError::EmptyCommand => seq![
            69u8, 82u8, 82u8, 32u8, 101u8, 109u8, 112u8, 116u8, 121u8, 32u8, 99u8, 111u8, 109u8,
            109u8, 97u8, 110u8, 100u8,
        ],
        CommandError::Unimplemented => seq![
            69u8, 82u8, 82u8, 32u8, 117u8, 110u8, 105u8, 109u8, 112u8, 108u8, 101u8, 109u8, 101u8,
            110u8, 116u8, 101u8, 100u8,
        ],
    }
}

/// The error-reply frame of a command error.
pub fn error_reply(e: &CommandError) -> (r: RespDataType)
    ensures
        r@ == SpecFrame::ErrorMsg(error_text(*e)),
{
    match e {
        CommandError::InvalidCommand => {
            let pat: [u8; 19] = [69, 82, 82, 32, 117, 110, 107, 110, 111, 119, 110, 32, 99, 111,
                109, 109, 97, 110, 100];
            proof {
                assert(pat@ =~= error_text(*e));
            }
            RespDataType::ErrorString(vec_of(pat.as_slice()))
        },
        CommandError::InvalidFormat => {
            let pat: [u8; 29] = [69, 82, 82, 32, 119, 114, 111, 110, 103, 32, 110, 117, 109, 98,
                101, 114, 32, 111, 102, 32, 97, 114, 103, 117, 109, 101, 110, 116, 115];
            proof {
                assert(pat@ =~= error_text(*e));
            }
            RespDataType::ErrorString(vec_of(pat.as_slice()))
        },
        CommandError::InvalidCommandOptionName => {
            let pat: [u8; 18] = [69, 82, 82, 32, 117, 110, 107, 110, 111, 119, 110, 32, 111, 112,
                116, 105, 111, 110];
            proof {
                assert(pat@ =~= error_text(*e));
            }
            RespDataType::ErrorString(vec_of(pat.as_slice()))
        },
        CommandError::InvalidCommandOptionValue => {
            let pat: [u8; 20] = [69, 82, 82, 32, 98, 97, 100, 32, 111, 112, 116, 105, 111, 110, 32,
                118, 97, 108, 117, 101];
            proof {
                assert(pat@ =~= error_text(*e));
            }
            RespDataType::ErrorString(vec_of(pat.as_slice()))
        },
        CommandError::InvalidInfoArg => {
            let pat: [u8; 28] = [69, 82, 82, 32, 117, 110, 115, 117, 112, 112, 111, 114, 116, 101,
                100, 32, 105, 110, 102, 111, 32, 115, 101, 99, 116, 105, 111, 110];
            proof {
                assert(pat@ =~= error_text(*e));
            }
            RespDataType::ErrorString(vec_of(pat.as_slice()))
        },
        CommandError::EmptyCommand => {
            let pat: [u8; 17] = [69, 82, 82, 32, 101, 109, 112, 116, 121, 32, 99, 111, 109, 109,
                97, 110, 100];
            proof {
                assert(pat@ =~= error_text(*e));
            }
            RespDataType::ErrorString(vec_of(pat.as_slice()))
        },
        CommandError::Unimplemented => {
            let pat: [u8; 17] = [69, 82, 82, 32, 117, 110, 105, 109, 112, 108, 101, 109, 101, 110,
                116, 101, 100];
            proof {
                assert(pat@ =~= error_text(*e));
            }
            RespDataType::ErrorString(vec_of(pat.as_slice()))
        },
    }
}

/// Whether a command error closes the connection rather than earning an
/// error reply: only the empty command does, beside frame-level corruption.
pub open spec fn closes_connection(e: CommandError) -> bool {
    e == CommandError::EmptyCommand
}

/// The buffered bytes of one connection. Bytes arrive in chunks; a frame is
/// taken off the front only when it is complete, and the bytes after it are
/// kept for the next request, so a pipelined connection loses nothing.
pub struct ConnectionBuffer {
    data: Vec<u8>,
}

impl View for ConnectionBuffer {
    type V = Seq<u8>;

    closed spec fn view(&self) -> Seq<u8> {
        self.data@
    }
}

impl ConnectionBuffer {
    /// An empty buffer.
    pub fn new() -> (r: Self)
        ensures
            r@ == Seq::<u8>::empty(),
    {
        let out = ConnectionBuffer { data: Vec::new() };
        proof {
            assert(out@ =~= Seq::<u8>::empty());
        }
        out
    }

    /// Appends a chunk read from the socket.
    pub fn feed(&mut self, chunk: &Vec<u8>)
        ensures
            final(self)@ == old(self)@ + chunk@,
    {
        crate::ascii::push_all(&mut self.data, chunk);
    }

    /// Takes the frame at the head of the buffer, if a whole one has
    /// arrived, leaving every byte after it in place; asks for more bytes
    /// with `None`; reports corruption, on which the connection must close.
    pub fn try_next(&mut self) -> (r: Result<Option<RespDataType>, RespDecoderError>)
        ensures
            match r {
                Ok(Some(f)) => exists|n: int|
                    spec_decode(old(self)@, 0) == SpecDecoded::Frame(f@, n) && 0 < n
                        <= old(self)@.len() && final(self)@ == old(self)@.subrange(
                        n,
                        old(self)@.len() as int,
                    ),
                Ok(None) => final(self)@ == old(self)@ && spec_decode(old(self)@, 0)
                    is Incomplete,
                Err(e) => final(self)@ == old(self)@ && spec_decode(old(self)@, 0) is Invalid && e
                    == RespDecoderError::InvalidRespDataType,
            },
    {
        match RespDecoder::decode(&self.data) {
            Ok((f, n)) => {
                let mut rest: Vec<u8> = Vec::new();
                let mut i: usize = n;
                while i < self.data.len()
                    invariant
                        n <= i <= self.data@.len(),
                        rest@ =~= self.data@.subrange(n as int, i as int),
                    decreases self.data@.len() - i,
                {
                    let b = self.data[i];
                    rest.push(b);
                    assert(rest@ =~= self.data@.subrange(n as int, i + 1));
                    i = i + 1;
                }
                proof {
                    assert(rest@ =~= self.data@.subrange(n as int, self.data@.len() as int));
                }
                self.data = rest;
                Ok(Some(f))
            },
            Err(RespDecoderError::Incomplete) => Ok(None),
            Err(RespDecoderError::InvalidRespDataType) => Err(
                RespDecoderError::InvalidRespDataType,
            ),
        }
    }
}

/// Everything `handle_frame` promises: how the reply bytes and the store
/// after the call follow from the request frame, the state, and the
/// wall-time.
pub open spec fn handle_post(
    f: SpecFrame,
    m0: Map<Seq<u8>, crate::store::SpecStoreValue>,
    m1: Map<Seq<u8>, crate::store::SpecStoreValue>,
    config: crate::server::SpecServerConfig,
    info: crate::server::SpecServerInfo,
    now: u64,
    r: Result<Vec<u8>, CommandError>,
) -> bool {
    match spec_parse_command(f) {
        Ok((name, args)) => exists|rep: Result<RespDataType, CommandError>|
            #[trigger] dispatch_post(name, args, m0, m1, config, info, now, rep) && (match rep {
                Ok(g) => r matches Ok(b) && b@ == spec_encode(frame_view(g)),
                Err(e) => r matches Ok(b) && b@ == spec_encode(SpecFrame::ErrorMsg(error_text(e))),
            }),
        Err(e) => m1 == m0 && if closes_connection(e) {
            r == Err::<Vec<u8>, CommandError>(e)
        } else {
            r matches Ok(b) && b@ == spec_encode(SpecFrame::ErrorMsg(error_text(e)))
        },
    }
}

/// Handles one request frame at wall-time `now_ms`: parse, dispatch against
/// the shared state, and encode the reply. A command error earns an encoded
/// error reply; only an empty command (and frame corruption, upstream)
/// closes the connection, reported as `Err`.
pub fn handle_frame(
    frame: &RespDataType,
    store: &mut Store,
    config: &ServerConfig,
    info: &ServerInfo,
    now_ms: u64,
) -> (r: Result<Vec<u8>, CommandError>)
    requires
        old(store).wf(),
    ensures
        final(store).wf(),
        handle_post(frame@, old(store)@, final(store)@, config@, info@, now_ms, r),
{
    match parse_command(frame) {
        Ok(cmd) => {
            let reply = dispatch(&cmd, store, config, info, now_ms);
            let ghost grep = reply;
            let out: Result<Vec<u8>, CommandError> = match reply {
                Ok(f) => Ok(RespEncoder::encode(f)),
                Err(e) => Ok(RespEncoder::encode(error_reply(&e))),
            };
            proof {
                assert(dispatch_post(
                    cmd.name,
                    views_of(cmd.args@),
                    old(store)@,
                    store@,
                    config@,
                    info@,
                    now_ms,
                    grep,
                ));
                assert(match grep {
                    Ok(g) => out matches Ok(b) && b@ == spec_encode(frame_view(g)),
                    Err(e2) => out matches Ok(b) && b@ == spec_encode(
                        SpecFrame::ErrorMsg(error_text(e2)),
                    ),
                });
                assert(spec_parse_command(frame@)->Ok_0.0 == cmd.name);
                assert(spec_parse_command(frame@)->Ok_0.1 == views_of(cmd.args@));
                assert(dispatch_post(
                    spec_parse_command(frame@)->Ok_0.0,
                    spec_parse_command(frame@)->Ok_0.1,
                    old(store)@,
                    store@,
                    config@,
                    info@,
                    now_ms,
                    grep,
                ));
                assert(handle_post(frame@, old(store)@, store@, config@, info@, now_ms, out));
            }
            out
        },
        Err(e) => {
            let out: Result<Vec<u8>, CommandError> = match e {
                CommandError::EmptyCommand => Err(e),
                _ => Ok(RespEncoder::encode(error_reply(&e))),
            };
            proof {
                assert(handle_post(frame@, old(store)@, store@, config@, info@, now_ms, out));
            }
            out
        },
    }
}

/// Relies on `chrono::Utc::now` and `chrono::DateTime::timestamp_millis`:
/// the wall-clock time, in milliseconds since the Unix epoch. The value
/// depends on the machine's clock, so nothing is promised of it.
#[verifier::external_body]
fn now_millis() -> i64 {
    chrono::Utc::now().timestamp_millis()
}

/// Handles one request frame at the wall-time of the call; a clock before
/// the epoch reads as zero.
pub fn handle_frame_now(
    frame: &RespDataType,
    store: &mut Store,
    config: &ServerConfig,
    info: &ServerInfo,
) -> (r: Result<Vec<u8>, CommandError>)
    requires
        old(store).wf(),
    ensures
        final(store).wf(),
        exists|now: u64|
            #[trigger] handle_post(frame@, old(store)@, final(store)@, config@, info@, now, r),
{
    let t = now_millis();
    let now_ms: u64 = if t < 0 {
        0
    } else {
        t as u64
    };
    handle_frame(frame, store, config, info, now_ms)
}

} // verus!
