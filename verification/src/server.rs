//! Server-level state: the configuration fixed at startup, the serving role,
//! the replication info that INFO reports, and the follower handshake's
//! request sequence.

use vstd::prelude::*;

verus! {

use crate::ascii::{dec_digits, push_all, u64_dec_digits, vec_of};
use crate::command::{PingCommand, ReplconfCommand, ReplconfCommandArg, kw_ping, kw_replconf,
    kw_listening_port, kw_capa};
use crate::resp::{RespDataType, SpecFrame, frames_view, frame_view, lemma_frames_view_index};
use crate::store::{Store, clone_bytes};

/// The bytes of `"master"`.
pub open spec fn kw_master() -> Seq<u8> {
    seq![109u8, 97u8, 115u8, 116u8, 101u8, 114u8]
}

/// The bytes of `"slave"`.
pub open spec fn kw_slave() -> Seq<u8> {
    seq![115u8, 108u8, 97u8, 118u8, 101u8]
}

/// The bytes of `"role:"`.
pub open spec fn kw_role_line() -> Seq<u8> {
    seq![114u8, 111u8, 108u8, 101u8, 58u8]
}

/// The bytes of `"master_replid:"`.
pub open spec fn kw_replid_line() -> Seq<u8> {
    seq![109u8, 97u8, 115u8, 116u8, 101u8, 114u8, 95u8, 114u8, 101u8, 112u8, 108u8, 105u8, 100u8,
        58u8]
}

/// The bytes of `"master_repl_offset:"`.
pub open spec fn kw_offset_line() -> Seq<u8> {
    seq![109u8, 97u8, 115u8, 116u8, 101u8, 114u8, 95u8, 114u8, 101u8, 112u8, 108u8, 95u8, 111u8,
        102u8, 102u8, 115u8, 101u8, 116u8, 58u8]
}

/// The bytes of `"psync2"`.
pub open spec fn kw_psync2() -> Seq<u8> {
    seq![112u8, 115u8, 121u8, 110u8, 99u8, 50u8]
}

/// The bytes of `"PSYNC"`.
pub open spec fn kw_psync() -> Seq<u8> {
    seq![80u8, 83u8, 89u8, 78u8, 67u8]
}

/// The bytes of `"?"`.
pub open spec fn kw_question() -> Seq<u8> {
    seq![63u8]
}

/// The bytes of `"-1"`.
pub open spec fn kw_minus_one() -> Seq<u8> {
    seq![45u8, 49u8]
}

/// The serving role: a leader, or a follower of the leader whose address
/// text (`host:port`) it carries.
#[derive(Debug, PartialEq, Eq)]
pub enum ServerRole {
    Master,
    Slave(Vec<u8>),
}

/// The mathematical shape of a role.
pub enum SpecServerRole {
    Master,
    Slave(Seq<u8>),
}

impl View for ServerRole {
    type V = SpecServerRole;

    open spec fn view(&self) -> SpecServerRole {
        match self {
            ServerRole::Master => SpecServerRole::Master,
            ServerRole::Slave(addr) => SpecServerRole::Slave(addr@),
        }
    }
}

/// The role's wire text: `master` or `slave`.
pub open spec fn spec_role_text(r: SpecServerRole) -> Seq<u8> {
    match r {
        SpecServerRole::Master => kw_master(),
        SpecServerRole::Slave(_) => kw_slave(),
    }
}

/// The role's wire text as bytes.
pub fn role_text(r: &ServerRole) -> (t: Vec<u8>)
    ensures
        t@ == spec_role_text(r@),
{
    match r {
        ServerRole::Master => {
            let pat: [u8; 6] = [109, 97, 115, 116, 101, 114];
            proof {
                assert(pat@ =~= kw_master());
            }
            vec_of(pat.as_slice())
        },
        ServerRole::Slave(_) => {
            let pat: [u8; 5] = [115, 108, 97, 118, 101];
            proof {
                assert(pat@ =~= kw_slave());
            }
            vec_of(pat.as_slice())
        },
    }
}

/// The server's startup and serving errors, as dispositions: which part
/// failed. The I/O detail stays with the caller that met it.
#[derive(Debug, Clone, Copy, PartialEq, Eq)]
pub enum ServerError {
    TcpListener,
    TcpReader,
    InvalidPath,
    InvalidCommand,
    RdbSync,
}

/// Configuration fixed at startup: the snapshot directory and filename, and
/// the serving role.
#[derive(Debug)]
pub struct ServerConfig {
    pub dir: Option<Vec<u8>>,
    pub dbfilename: Option<Vec<u8>>,
    pub role: ServerRole,
}

/// The mathematical shape of the configuration.
pub struct SpecServerConfig {
    pub dir: Option<Seq<u8>>,
    pub dbfilename: Option<Seq<u8>>,
    pub role: SpecServerRole,
}

impl View for ServerConfig {
    type V = SpecServerConfig;

    open spec fn view(&self) -> SpecServerConfig {
        SpecServerConfig {
            dir: match self.dir {
                Some(d) => Some(d@),
                None => None,
            },
            dbfilename: match self.dbfilename {
                Some(d) => Some(d@),
                None => None,
            },
            role: self.role@,
        }
    }
}

impl ServerConfig {
    /// The snapshot file's path — directory, separator, filename — when both
    /// parts are configured; nothing otherwise.
    pub fn get_rdb_path(&self) -> (r: Option<Vec<u8>>)
        ensures
            match r {
                Some(p) => self@.dir matches Some(d) && self@.dbfilename matches Some(f) && p@ == d
                    + seq![47u8] + f,
                None => self@.dir is None || self@.dbfilename is None,
            },
    {
        match (&self.dir, &self.dbfilename) {
            (Some(d), Some(f)) => {
                let mut p = clone_bytes(d);
                p.push(47);
                push_all(&mut p, f);
                Some(p)
            },
            _ => None,
        }
    }
}

/// Replication info, immutable after startup: the role, an opaque
/// replication id, and the replication offset (zero at startup for a
/// leader).
#[derive(Debug)]
pub struct ServerInfo {
    pub role: ServerRole,
    pub id: Vec<u8>,
    pub offset: u64,
}

/// The mathematical shape of the replication info.
pub struct SpecServerInfo {
    pub role: SpecServerRole,
    pub id: Seq<u8>,
    pub offset: u64,
}

impl View for ServerInfo {
    type V = SpecServerInfo;

    open spec fn view(&self) -> SpecServerInfo {
        SpecServerInfo { role: self.role@, id: self.id@, offset: self.offset }
    }
}

/// The INFO replication payload: `role:`, `master_replid:` and
/// `master_repl_offset:` lines in this order, each newline-terminated.
pub open spec fn spec_info_payload(info: SpecServerInfo) -> Seq<u8> {
    kw_role_line() + spec_role_text(info.role) + seq![10u8] + kw_replid_line() + info.id + seq![
        10u8,
    ] + kw_offset_line() + dec_digits(info.offset as nat) + seq![10u8]
}

/// Renders the INFO replication payload for one `ServerInfo`.
pub struct ServerInfoFormatter<'a> {
    pub info: &'a ServerInfo,
}

impl<'a> ServerInfoFormatter<'a> {
    pub fn new(info: &'a ServerInfo) -> (r: Self)
        ensures
            r.info == info,
    {
        Self { info }
    }

    /// The payload bytes, exactly `spec_info_payload`.
    pub fn format(&self) -> (r: Vec<u8>)
        ensures
            r@ == spec_info_payload(self.info@),
    {
        let pat_role: [u8; 5] = [114, 111, 108, 101, 58];
        let pat_replid: [u8; 14] = [109, 97, 115, 116, 101, 114, 95, 114, 101, 112, 108, 105, 100,
            58];
        let pat_offset: [u8; 19] = [109, 97, 115, 116, 101, 114, 95, 114, 101, 112, 108, 95, 111,
            102, 102, 115, 101, 116, 58];
        proof {
            assert(pat_role@ =~= kw_role_line());
            assert(pat_replid@ =~= kw_replid_line());
            assert(pat_offset@ =~= kw_offset_line());
        }
        let mut out = vec_of(pat_role.as_slice());
        let role = role_text(&self.info.role);
        push_all(&mut out, &role);
        out.push(10);
        push_all(&mut out, &vec_of(pat_replid.as_slice()));
        push_all(&mut out, &self.info.id);
        out.push(10);
        push_all(&mut out, &vec_of(pat_offset.as_slice()));
        push_all(&mut out, &u64_dec_digits(self.info.offset));
        out.push(10);
        assert(out@ =~= spec_info_payload(self.info@));
        out
    }
}

/// The server's verified core: its configuration and its store. The
/// listening address, the sockets and the tasks around them live with the
/// caller.
pub struct Server {
    pub config: ServerConfig,
    pub store: Store,
}

impl Server {
    /// A server in the given role, with no snapshot path and an empty store.
    pub fn new(role: ServerRole) -> (r: Server)
        ensures
            r.config.role == role,
            r.config.dir is None,
            r.config.dbfilename is None,
            r.store@ == Map::<Seq<u8>, crate::store::SpecStoreValue>::empty(),
            r.store.wf(),
    {
        Server {
            config: ServerConfig { dir: None, dbfilename: None, role },
            store: Store::new(),
        }
    }

    /// Sets the snapshot directory.
    pub fn with_dir(&mut self, dir: &Vec<u8>) -> (r: Result<(), ServerError>)
        ensures
            r is Ok,
            final(self).config.dir matches Some(d) && d@ == dir@,
            final(self).config.dbfilename == old(self).config.dbfilename,
            final(self).config.role == old(self).config.role,
            final(self).store == old(self).store,
    {
        self.config.dir = Some(clone_bytes(dir));
        Ok(())
    }

    /// Sets the snapshot filename.
    pub fn with_dbfilename(&mut self, dbfilename: &Vec<u8>) -> (r: Result<(), ServerError>)
        ensures
            r is Ok,
            final(self).config.dbfilename matches Some(d) && d@ == dbfilename@,
            final(self).config.dir == old(self).config.dir,
            final(self).config.role == old(self).config.role,
            final(self).store == old(self).store,
    {
        self.config.dbfilename = Some(clone_bytes(dbfilename));
        Ok(())
    }
}

/// The `i`-th handshake request a follower sends, each an array frame; after
/// the fourth the handshake is done.
pub open spec fn spec_handshake_request(i: int, port: u16) -> SpecFrame {
    if i == 0 {
        SpecFrame::Arr(seq![SpecFrame::Bulk(kw_ping())])
    } else if i == 1 {
        SpecFrame::Arr(
            seq![
                SpecFrame::Bulk(kw_replconf()),
                SpecFrame::Bulk(kw_listening_port()),
                SpecFrame::Bulk(dec_digits(port as nat)),
            ],
        )
    } else if i == 2 {
        SpecFrame::Arr(
            seq![
                SpecFrame::Bulk(kw_replconf()),
                SpecFrame::Bulk(kw_capa()),
                SpecFrame::Bulk(kw_psync2()),
            ],
        )
    } else {
        SpecFrame::Arr(
            seq![
                SpecFrame::Bulk(kw_psync()),
                SpecFrame::Bulk(kw_question()),
                SpecFrame::Bulk(kw_minus_one()),
            ],
        )
    }
}

/// The follower handshake, stepped once per acknowledged request: PING,
/// REPLCONF listening-port, REPLCONF capa psync2, PSYNC ? -1, in this
/// order. The caller sends each request, awaits a reply, then asks for the
/// next.
pub struct FollowerHandshake {
    pub port: u16,
    pub sent: u8,
}

impl FollowerHandshake {
    /// A handshake about to send its first request, for a follower
    /// listening on `port`.
    pub fn new(port: u16) -> (r: Self)
        ensures
            r.port == port,
            r.sent == 0,
    {
        Self { port, sent: 0 }
    }

    /// The next request to send, stepping the handshake; nothing once all
    /// four are out.
    pub fn next_request(&mut self) -> (r: Option<RespDataType>)
        ensures
            final(self).port == old(self).port,
            old(self).sent < 4 ==> final(self).sent == old(self).sent + 1 && (r matches Some(f)
                && f@ == spec_handshake_request(old(self).sent as int, old(self).port)),
            old(self).sent >= 4 ==> final(self).sent == old(self).sent && r is None,
    {
        if self.sent >= 4 {
            return None;
        }
        let step = self.sent;
        self.sent = self.sent + 1;
        if step == 0 {
            Some(PingCommand.generate_request())
        } else if step == 1 {
            Some(
                ReplconfCommand::new(
                    ReplconfCommandArg::ListeningPort(self.port),
                ).generate_request(),
            )
        } else if step == 2 {
            let pat: [u8; 6] = [112, 115, 121, 110, 99, 50];
            proof {
                assert(pat@ =~= kw_psync2());
            }
            Some(
                ReplconfCommand::new(
                    ReplconfCommandArg::Capa(vec_of(pat.as_slice())),
                ).generate_request(),
            )
        } else {
            let pat_psync: [u8; 5] = [80, 83, 89, 78, 67];
            let pat_q: [u8; 1] = [63];
            let pat_m1: [u8; 2] = [45, 49];
            proof {
                assert(pat_psync@ =~= kw_psync());
                assert(pat_q@ =~= kw_question());
                assert(pat_m1@ =~= kw_minus_one());
            }
            let mut items: Vec<RespDataType> = Vec::new();
            items.push(RespDataType::BulkString(vec_of(pat_psync.as_slice())));
            proof {
                assert(frame_view(items@[0]) == SpecFrame::Bulk(kw_psync()));
            }
            items.push(RespDataType::BulkString(vec_of(pat_q.as_slice())));
            proof {
                assert(frame_view(items@[1]) == SpecFrame::Bulk(kw_question()));
            }
            items.push(RespDataType::BulkString(vec_of(pat_m1.as_slice())));
            proof {
                assert(frame_view(items@[2]) == SpecFrame::Bulk(kw_minus_one()));
                lemma_frames_view_index(items@);
                assert(frames_view(items@).len() == 3);
                assert(frames_view(items@)[0] == frame_view(items@[0]));
                assert(frames_view(items@)[1] == frame_view(items@[1]));
                assert(frames_view(items@)[2] == frame_view(items@[2]));
                assert(frames_view(items@) =~= seq![
                    SpecFrame::Bulk(kw_psync()),
                    SpecFrame::Bulk(kw_question()),
                    SpecFrame::Bulk(kw_minus_one()),
                ]);
            }
            Some(RespDataType::Array(items))
        }
    }
}

} // verus!
