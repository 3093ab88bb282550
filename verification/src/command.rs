//! Command parsing: a request arrives as an array frame of bulk strings.
//! Its bulk-string elements become the argument vector; the first element
//! (or the first two joined by a space, when there are two or more) is the
//! command name, matched case-insensitively by prefix against the
//! recognized commands.

use vstd::prelude::*;

verus! {

use crate::ascii::{is_prefix, to_upper, upper_seq, push_all, has_prefix, vec_of, u64_dec_digits,
    dec_digits};
use crate::resp::{RespDataType, SpecFrame, frames_view, frame_view, lemma_frames_view_index};
use crate::store::clone_bytes;

/// The bytes of `"PING"`.
pub open spec fn kw_ping() -> Seq<u8> {
    seq![80u8, 73u8, 78u8, 71u8]
}

/// The bytes of `"ECHO"`.
pub open spec fn kw_echo() -> Seq<u8> {
    seq![69u8, 67u8, 72u8, 79u8]
}

/// The bytes of `"SET"`.
pub open spec fn kw_set() -> Seq<u8> {
    seq![83u8, 69u8, 84u8]
}

/// The bytes of `"GET"`.
pub open spec fn kw_get() -> Seq<u8> {
    seq![71u8, 69u8, 84u8]
}

/// The bytes of `"CONFIG GET"`.
pub open spec fn kw_config_get() -> Seq<u8> {
    seq![67u8, 79u8, 78u8, 70u8, 73u8, 71u8, 32u8, 71u8, 69u8, 84u8]
}

/// The bytes of `"KEYS"`.
pub open spec fn kw_keys() -> Seq<u8> {
    seq![75u8, 69u8, 89u8, 83u8]
}

/// The bytes of `"INFO"`.
pub open spec fn kw_info() -> Seq<u8> {
    seq![73u8, 78u8, 70u8, 79u8]
}

/// The bytes of `"PX"`.
pub open spec fn kw_px() -> Seq<u8> {
    seq![80u8, 88u8]
}

/// The bytes of `"PONG"`.
pub open spec fn kw_pong() -> Seq<u8> {
    seq![80u8, 79u8, 78u8, 71u8]
}

/// The bytes of `"OK"`.
pub open spec fn kw_ok() -> Seq<u8> {
    seq![79u8, 75u8]
}

/// The bytes of `"*"`.
pub open spec fn kw_star() -> Seq<u8> {
    seq![42u8]
}

/// The bytes of `"REPLCONF"`.
pub open spec fn kw_replconf() -> Seq<u8> {
    seq![82u8, 69u8, 80u8, 76u8, 67u8, 79u8, 78u8, 70u8]
}

/// The bytes of `"listening-port"`.
pub open spec fn kw_listening_port() -> Seq<u8> {
    seq![108u8, 105u8, 115u8, 116u8, 101u8, 110u8, 105u8, 110u8, 103u8, 45u8, 112u8, 111u8, 114u8,
        116u8]
}

/// The bytes of `"capa"`.
pub open spec fn kw_capa() -> Seq<u8> {
    seq![99u8, 97u8, 112u8, 97u8]
}

/// The command-level errors. Each is local to one request: it becomes an
/// error reply (or, for an empty command, closes the connection) and never
/// touches the store.
#[derive(Debug, Clone, Copy, PartialEq, Eq)]
pub enum CommandError {
    /// The request frame is not an array, or its name matches no command.
    InvalidCommand,
    /// A required argument is missing.
    InvalidFormat,
    /// A SET option other than PX was named.
    InvalidCommandOptionName,
    /// The PX option's value is missing or is not a non-negative integer.
    InvalidCommandOptionValue,
    /// INFO was asked for a section other than replication.
    InvalidInfoArg,
    /// The request array holds no bulk strings.
    EmptyCommand,
    /// KEYS was asked for a pattern other than `*`.
    Unimplemented,
}

/// The recognized commands.
#[derive(Debug, Clone, Copy, PartialEq, Eq)]
pub enum CommandName {
    Ping,
    Echo,
    SetCmd,
    Get,
    ConfigGet,
    Keys,
    Info,
}

/// The views of a vector of byte vectors.
pub open spec fn views_of(s: Seq<Vec<u8>>) -> Seq<Seq<u8>> {
    Seq::new(s.len(), |i: int| s[i]@)
}

/// The bulk-string payloads of a frame sequence, in order; frames of any
/// other type are skipped.
pub open spec fn bulk_args(fs: Seq<SpecFrame>) -> Seq<Seq<u8>>
    decreases fs,
{
    if fs.len() == 0 {
        Seq::empty()
    } else {
        bulk_args(fs.drop_last()) + (match fs.last() {
            SpecFrame::Bulk(b) => seq![b],
            _ => Seq::empty(),
        })
    }
}

/// The name text of a request: its first argument, or its first two joined
/// by a space when there are two or more, so that a multi-word command is
/// recognized by prefix.
pub open spec fn command_text(args: Seq<Seq<u8>>) -> Seq<u8> {
    if args.len() == 1 {
        args[0]
    } else {
        args[0] + seq![32u8] + args[1]
    }
}

/// Case-folded prefix dispatch over the recognized command names, tried in
/// a fixed order.
pub open spec fn classify_name(n: Seq<u8>) -> Option<CommandName> {
    let u = upper_seq(n);
    if is_prefix(kw_ping(), u) {
        Some(CommandName::Ping)
    } else if is_prefix(kw_echo(), u) {
        Some(CommandName::Echo)
    } else if is_prefix(kw_set(), u) {
        Some(CommandName::SetCmd)
    } else if is_prefix(kw_get(), u) {
        Some(CommandName::Get)
    } else if is_prefix(kw_config_get(), u) {
        Some(CommandName::ConfigGet)
    } else if is_prefix(kw_keys(), u) {
        Some(CommandName::Keys)
    } else if is_prefix(kw_info(), u) {
        Some(CommandName::Info)
    } else {
        None
    }
}

/// What parsing a request frame yields: the command and the full argument
/// vector (command words included), or the error the request earns.
pub open spec fn spec_parse_command(f: SpecFrame) -> Result<
    (CommandName, Seq<Seq<u8>>),
    CommandError,
> {
    match f {
        SpecFrame::Arr(fs) => {
            let args = bulk_args(fs);
            if args.len() == 0 {
                Err(CommandError::EmptyCommand)
            } else {
                match classify_name(command_text(args)) {
                    Some(n) => Ok((n, args)),
                    None => Err(CommandError::InvalidCommand),
                }
            }
        },
        _ => Err(CommandError::InvalidCommand),
    }
}

/// A parsed request: the command, and every bulk-string element of the
/// request array in order, the command words included.
pub struct ParsedCommand {
    pub name: CommandName,
    pub args: Vec<Vec<u8>>,
}

/// Turns a request frame into a command, exactly as `spec_parse_command`
/// says.
pub fn parse_command(frame: &RespDataType) -> (r: Result<ParsedCommand, CommandError>)
    ensures
        match r {
            Ok(pc) => spec_parse_command(frame@) == Ok::<
                (CommandName, Seq<Seq<u8>>),
                CommandError,
            >((pc.name, views_of(pc.args@))),
            Err(e) => spec_parse_command(frame@) == Err::<
                (CommandName, Seq<Seq<u8>>),
                CommandError,
            >(e),
        },
{
    match frame {
        RespDataType::Array(items) => {
            let mut args: Vec<Vec<u8>> = Vec::new();
            let mut i: usize = 0;
            proof {
                assert(items@.subrange(0, 0) =~= Seq::<RespDataType>::empty());
                assert(views_of(args@) =~= bulk_args(frames_view(items@.subrange(0, 0))));
            }
            while i < items.len()
                invariant
                    i <= items@.len(),
                    views_of(args@) == bulk_args(frames_view(items@.subrange(0, i as int))),
                decreases items@.len() - i,
            {
                let ghost pre = items@.subrange(0, i as int);
                let ghost apre = args@;
                match &items[i] {
                    RespDataType::BulkString(b) => {
                        args.push(clone_bytes(b));
                    },
                    _ => {},
                }
                proof {
                    assert(items@.subrange(0, i + 1).drop_last() =~= pre);
                    assert(items@.subrange(0, i + 1).last() == items@[i as int]);
                    let fv = frames_view(items@.subrange(0, i + 1));
                    assert(fv == frames_view(pre).push(frame_view(items@[i as int])));
                    assert(fv.drop_last() =~= frames_view(pre));
                    assert(views_of(args@) =~= bulk_args(fv));
                }
                i = i + 1;
            }
            proof {
                assert(items@.subrange(0, items@.len() as int) =~= items@);
            }
            if args.len() == 0 {
                return Err(CommandError::EmptyCommand);
            }
            let mut name: Vec<u8> = clone_bytes(&args[0]);
            if args.len() >= 2 {
                name.push(32);
                push_all(&mut name, &args[1]);
            }
            proof {
                assert(views_of(args@)[0] == args@[0]@);
                if args@.len() >= 2 {
                    assert(views_of(args@)[1] == args@[1]@);
                    assert(name@ =~= command_text(views_of(args@)));
                } else {
                    assert(name@ =~= command_text(views_of(args@)));
                }
            }
            let upper = to_upper(&name);
            let pat_ping: [u8; 4] = [80, 73, 78, 71];
            let pat_echo: [u8; 4] = [69, 67, 72, 79];
            let pat_set: [u8; 3] = [83, 69, 84];
            let pat_get: [u8; 3] = [71, 69, 84];
            let pat_config_get: [u8; 10] = [67, 79, 78, 70, 73, 71, 32, 71, 69, 84];
            let pat_keys: [u8; 4] = [75, 69, 89, 83];
            let pat_info: [u8; 4] = [73, 78, 70, 79];
            proof {
                assert(pat_ping@ =~= kw_ping());
                assert(pat_echo@ =~= kw_echo());
                assert(pat_set@ =~= kw_set());
                assert(pat_get@ =~= kw_get());
                assert(pat_config_get@ =~= kw_config_get());
                assert(pat_keys@ =~= kw_keys());
                assert(pat_info@ =~= kw_info());
            }
            let name = if has_prefix(&upper, pat_ping.as_slice()) {
                CommandName::Ping
            } else if has_prefix(&upper, pat_echo.as_slice()) {
                CommandName::Echo
            } else if has_prefix(&upper, pat_set.as_slice()) {
                CommandName::SetCmd
            } else if has_prefix(&upper, pat_get.as_slice()) {
                CommandName::Get
            } else if has_prefix(&upper, pat_config_get.as_slice()) {
                CommandName::ConfigGet
            } else if has_prefix(&upper, pat_keys.as_slice()) {
                CommandName::Keys
            } else if has_prefix(&upper, pat_info.as_slice()) {
                CommandName::Info
            } else {
                return Err(CommandError::InvalidCommand);
            };
            Ok(ParsedCommand { name, args })
        },
        _ => Err(CommandError::InvalidCommand),
    }
}

/// The PING command on its own: its reply, and the request a follower sends
/// during the handshake.
#[derive(Debug)]
pub struct PingCommand;

impl PingCommand {
    /// The reply to PING: the simple string PONG.
    pub fn generate_reply(&self) -> (r: RespDataType)
        ensures
            r@ == SpecFrame::Simple(kw_pong()),
    {
        let pat: [u8; 4] = [80, 79, 78, 71];
        proof {
            assert(pat@ =~= kw_pong());
        }
        RespDataType::SimpleString(vec_of(pat.as_slice()))
    }

    /// The PING request: an array holding the one word.
    pub fn generate_request(&self) -> (r: RespDataType)
        ensures
            r@ == SpecFrame::Arr(seq![SpecFrame::Bulk(kw_ping())]),
    {
        let pat: [u8; 4] = [80, 73, 78, 71];
        proof {
            assert(pat@ =~= kw_ping());
        }
        let mut items: Vec<RespDataType> = Vec::new();
        items.push(RespDataType::BulkString(vec_of(pat.as_slice())));
        proof {
            lemma_frames_view_index(items@);
            assert(frames_view(items@) =~= seq![SpecFrame::Bulk(kw_ping())]);
        }
        RespDataType::Array(items)
    }
}

/// The argument a REPLCONF handshake request carries.
#[derive(Debug)]
pub enum ReplconfCommandArg {
    ListeningPort(u16),
    Capa(Vec<u8>),
}

/// The REPLCONF command of the follower handshake.
#[derive(Debug)]
pub struct ReplconfCommand {
    pub arg: ReplconfCommandArg,
}

/// The frame a REPLCONF request encodes to, for either argument.
pub open spec fn spec_replconf_request(arg: &ReplconfCommandArg) -> SpecFrame {
    match arg {
        ReplconfCommandArg::ListeningPort(port) => SpecFrame::Arr(
            seq![
                SpecFrame::Bulk(kw_replconf()),
                SpecFrame::Bulk(kw_listening_port()),
                SpecFrame::Bulk(dec_digits(*port as nat)),
            ],
        ),
        ReplconfCommandArg::Capa(value) => SpecFrame::Arr(
            seq![
                SpecFrame::Bulk(kw_replconf()),
                SpecFrame::Bulk(kw_capa()),
                SpecFrame::Bulk(value@),
            ],
        ),
    }
}

impl ReplconfCommand {
    pub fn new(arg: ReplconfCommandArg) -> (r: Self)
        ensures
            r.arg == arg,
    {
        Self { arg }
    }

    /// The reply a leader gives to REPLCONF: the simple string OK.
    pub fn generate_reply(&self) -> (r: RespDataType)
        ensures
            r@ == SpecFrame::Simple(kw_ok()),
    {
        let pat: [u8; 2] = [79, 75];
        proof {
            assert(pat@ =~= kw_ok());
        }
        RespDataType::SimpleString(vec_of(pat.as_slice()))
    }

    /// The REPLCONF request: an array of bulk strings naming the command,
    /// the option, and its value.
    pub fn generate_request(&self) -> (r: RespDataType)
        ensures
            r@ == spec_replconf_request(&self.arg),
    {
        let pat_replconf: [u8; 8] = [82, 69, 80, 76, 67, 79, 78, 70];
        proof {
            assert(pat_replconf@ =~= kw_replconf());
        }
        let mut items: Vec<RespDataType> = Vec::new();
        items.push(RespDataType::BulkString(vec_of(pat_replconf.as_slice())));
        proof {
            assert(frame_view(items@[0]) == SpecFrame::Bulk(kw_replconf()));
        }
        match &self.arg {
            ReplconfCommandArg::ListeningPort(port) => {
                let pat: [u8; 14] = [108, 105, 115, 116, 101, 110, 105, 110, 103, 45, 112, 111,
                    114, 116];
                proof {
                    assert(pat@ =~= kw_listening_port());
                }
                items.push(RespDataType::BulkString(vec_of(pat.as_slice())));
                proof {
                    assert(frame_view(items@[1]) == SpecFrame::Bulk(kw_listening_port()));
                }
                items.push(RespDataType::BulkString(u64_dec_digits(*port as u64)));
                proof {
                    assert(frame_view(items@[2]) == SpecFrame::Bulk(dec_digits(*port as nat)));
                }
            },
            ReplconfCommandArg::Capa(value) => {
                let pat: [u8; 4] = [99, 97, 112, 97];
                proof {
                    assert(pat@ =~= kw_capa());
                }
                items.push(RespDataType::BulkString(vec_of(pat.as_slice())));
                proof {
                    assert(frame_view(items@[1]) == SpecFrame::Bulk(kw_capa()));
                }
                items.push(RespDataType::BulkString(clone_bytes(value)));
                proof {
                    assert(frame_view(items@[2]) == SpecFrame::Bulk(value@));
                }
            },
        }
        proof {
            lemma_frames_view_index(items@);
            assert(frames_view(items@).len() == 3);
            assert(frames_view(items@)[0] == frame_view(items@[0]));
            assert(frames_view(items@)[1] == frame_view(items@[1]));
            assert(frames_view(items@)[2] == frame_view(items@[2]));
            match self.arg {
                ReplconfCommandArg::ListeningPort(port) => {
                    assert(frames_view(items@) =~= seq![
                        SpecFrame::Bulk(kw_replconf()),
                        SpecFrame::Bulk(kw_listening_port()),
                        SpecFrame::Bulk(dec_digits(port as nat)),
                    ]);
                },
                ReplconfCommandArg::Capa(_) => {
                    assert(frames_view(items@) =~= seq![
                        SpecFrame::Bulk(kw_replconf()),
                        SpecFrame::Bulk(kw_capa()),
                        SpecFrame::Bulk(self.arg->Capa_0@),
                    ]);
                },
            }
        }
        RespDataType::Array(items)
    }
}

} // verus!
