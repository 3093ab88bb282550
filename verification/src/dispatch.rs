//! Command execution: each command is a mapping from its arguments, the
//! store, the configuration and the replication info to a reply frame, with
//! the store touched by SET alone. Expiration is lazy: GET and KEYS judge an
//! entry against the wall-time they are given, and an entry expiring exactly
//! then counts as expired.

use vstd::prelude::*;

verus! {

use crate::ascii::{all_digits, dec_val, to_upper, upper_seq, bytes_eq_slice, parse_dec_range,
    vec_of};
use crate::command::{CommandError, CommandName, ParsedCommand, PingCommand, views_of, kw_px,
    kw_pong, kw_ok, kw_star};
use crate::resp::{RespDataType, SpecFrame, frames_view, frame_view, lemma_frames_view_index};
use crate::server::{ServerConfig, ServerInfo, ServerInfoFormatter, SpecServerConfig,
    SpecServerInfo, spec_info_payload};
use crate::store::{Store, SpecStoreValue, StoreValueBuilder, clone_bytes};

/// The bytes of `"dir"`.
pub open spec fn kw_dir() -> Seq<u8> {
    seq![100u8, 105u8, 114u8]
}

/// The bytes of `"dbfilename"`.
pub open spec fn kw_dbfilename() -> Seq<u8> {
    seq![100u8, 98u8, 102u8, 105u8, 108u8, 101u8, 110u8, 97u8, 109u8, 101u8]
}

/// The bytes of `"replication"`.
pub open spec fn kw_replication() -> Seq<u8> {
    seq![114u8, 101u8, 112u8, 108u8, 105u8, 99u8, 97u8, 116u8, 105u8, 111u8, 110u8]
}

/// An entry is live at `now` when it has no expiration or its expiration
/// lies strictly ahead; one expiring exactly at `now` is already expired.
pub open spec fn entry_live(e: SpecStoreValue, now: u64) -> bool {
    match e.exp {
        None => true,
        Some(t) => now < t,
    }
}

/// The key is bound and its entry is not lazily expired at `now`.
pub open spec fn live_key(m: Map<Seq<u8>, SpecStoreValue>, k: Seq<u8>, now: u64) -> bool {
    m.contains_key(k) && entry_live(m[k], now)
}

/// The absolute expiration `now + ms`, saturating at the top of the range.
pub open spec fn exp_at(now: u64, ms: int) -> u64 {
    if now + ms > u64::MAX {
        u64::MAX
    } else {
        (now + ms) as u64
    }
}

/// What the SET options from index `i` onward amount to: the expiration of
/// the last PX option, options applied left to right, or the error of the
/// first bad one. Option names fold case; a PX value must be a non-negative
/// decimal integer.
pub open spec fn spec_set_options(a: Seq<Seq<u8>>, i: int, now: u64, acc: Option<u64>) -> Result<
    Option<u64>,
    CommandError,
>
    decreases a.len() - i,
{
    if i >= a.len() {
        Ok(acc)
    } else if upper_seq(a[i]) == kw_px() {
        if i + 1 < a.len() {
            let v = a[i + 1];
            if v.len() >= 1 && all_digits(v) && dec_val(v) <= usize::MAX {
                spec_set_options(a, i + 2, now, Some(exp_at(now, dec_val(v))))
            } else {
                Err(CommandError::InvalidCommandOptionValue)
            }
        } else {
            Err(CommandError::InvalidCommandOptionValue)
        }
    } else {
        Err(CommandError::InvalidCommandOptionName)
    }
}

/// The KEYS reply body lists exactly the live keys: every element is a bulk
/// string holding a live key, every live key appears, and no element
/// repeats.
pub open spec fn keys_listing(
    fs: Seq<SpecFrame>,
    m: Map<Seq<u8>, SpecStoreValue>,
    now: u64,
) -> bool {
    &&& forall|i: int|
        0 <= i < fs.len() ==> ((#[trigger] fs[i]) matches SpecFrame::Bulk(k) && live_key(
            m,
            k,
            now,
        ))
    &&& forall|k: Seq<u8>|
        #[trigger] live_key(m, k, now) ==> exists|i: int|
            0 <= i < fs.len() && (#[trigger] fs[i]) == SpecFrame::Bulk(k)
    &&& forall|i: int, j: int|
        0 <= i < j < fs.len() ==> (#[trigger] fs[i]) != (#[trigger] fs[j])
}

/// Everything `dispatch` promises, per command: the reply frame and the
/// store after the call, as functions of the arguments, the store before
/// it, the configuration, the info and the wall-time.
pub open spec fn dispatch_post(
    name: CommandName,
    args: Seq<Seq<u8>>,
    m0: Map<Seq<u8>, SpecStoreValue>,
    m1: Map<Seq<u8>, SpecStoreValue>,
    config: SpecServerConfig,
    info: SpecServerInfo,
    now: u64,
    r: Result<RespDataType, CommandError>,
) -> bool {
    match name {
        CommandName::Ping => m1 == m0 && (r matches Ok(f) && frame_view(f) == SpecFrame::Simple(
            kw_pong(),
        )),
        CommandName::Echo => m1 == m0 && if args.len() >= 2 {
            r matches Ok(f) && frame_view(f) == SpecFrame::Bulk(args[1])
        } else {
            r == Err::<RespDataType, CommandError>(CommandError::InvalidFormat)
        },
        CommandName::SetCmd => {
            if args.len() < 3 {
                m1 == m0 && r == Err::<RespDataType, CommandError>(CommandError::InvalidFormat)
            } else {
                match spec_set_options(args, 3, now, None) {
                    Ok(exp) => m1 == m0.insert(args[1], SpecStoreValue { value: args[2], exp })
                        && (r matches Ok(f) && frame_view(f) == SpecFrame::Simple(kw_ok())),
                    Err(e) => m1 == m0 && r == Err::<RespDataType, CommandError>(e),
                }
            }
        },
        CommandName::Get => m1 == m0 && if args.len() < 2 {
            r == Err::<RespDataType, CommandError>(CommandError::InvalidFormat)
        } else if live_key(m0, args[1], now) {
            r matches Ok(f) && frame_view(f) == SpecFrame::Bulk(m0[args[1]].value)
        } else {
            r matches Ok(f) && frame_view(f) == SpecFrame::NullBulk
        },
        CommandName::Keys => m1 == m0 && if args.len() < 2 {
            r == Err::<RespDataType, CommandError>(CommandError::InvalidFormat)
        } else if args[1] == kw_star() {
            r matches Ok(f) && (frame_view(f) matches SpecFrame::Arr(fs) && keys_listing(
                fs,
                m0,
                now,
            ))
        } else {
            r == Err::<RespDataType, CommandError>(CommandError::Unimplemented)
        },
        CommandName::ConfigGet => m1 == m0 && if args.len() < 3 {
            r == Err::<RespDataType, CommandError>(CommandError::InvalidFormat)
        } else {
            let param = args[2];
            let looked = if param == kw_dir() {
                config.dir
            } else if param == kw_dbfilename() {
                config.dbfilename
            } else {
                None
            };
            match looked {
                Some(v) => r matches Ok(f) && frame_view(f) == SpecFrame::Arr(
                    seq![SpecFrame::Bulk(param), SpecFrame::Bulk(v)],
                ),
                None => r matches Ok(f) && frame_view(f) == SpecFrame::NullBulk,
            }
        },
        CommandName::Info => m1 == m0 && if args.len() < 2 {
            r == Err::<RespDataType, CommandError>(CommandError::InvalidFormat)
        } else if args[1] == kw_replication() {
            r matches Ok(f) && frame_view(f) == SpecFrame::Bulk(spec_info_payload(info))
        } else {
            r == Err::<RespDataType, CommandError>(CommandError::InvalidInfoArg)
        },
    }
}

/// Folds the SET options, mirroring `spec_set_options` step for step.
fn set_options_rec(args: &Vec<Vec<u8>>, i: usize, now: u64, acc: Option<u64>) -> (r: Result<
    Option<u64>,
    CommandError,
>)
    ensures
        r == spec_set_options(views_of(args@), i as int, now, acc),
    decreases args@.len() - i,
{
    let ghost a = views_of(args@);
    if i >= args.len() {
        return Ok(acc);
    }
    proof {
        assert(a[i as int] == args@[i as int]@);
    }
    let up = to_upper(&args[i]);
    let pat_px: [u8; 2] = [80, 88];
    proof {
        assert(pat_px@ =~= kw_px());
    }
    if bytes_eq_slice(&up, pat_px.as_slice()) {
        if i + 1 < args.len() {
            proof {
                assert(a[i + 1] == args@[i + 1]@);
            }
            let vlen = args[i + 1].len();
            proof {
                assert(args@[i + 1]@.subrange(0, vlen as int) =~= args@[i + 1]@);
            }
            match parse_dec_range(&args[i + 1], 0, vlen) {
                Some(v) => {
                    let ms = v as u64;
                    let exp = if ms > u64::MAX - now {
                        u64::MAX
                    } else {
                        now + ms
                    };
                    proof {
                        assert(exp == exp_at(now, dec_val(a[i + 1])));
                    }
                    set_options_rec(args, i + 2, now, Some(exp))
                },
                None => Err(CommandError::InvalidCommandOptionValue),
            }
        } else {
            Err(CommandError::InvalidCommandOptionValue)
        }
    } else {
        Err(CommandError::InvalidCommandOptionName)
    }
}

/// The ECHO reply: the first argument after the command word, as a bulk
/// string.
fn echo_reply(args: &Vec<Vec<u8>>) -> (r: Result<RespDataType, CommandError>)
    ensures
        match r {
            Ok(f) => views_of(args@).len() >= 2 && frame_view(f) == SpecFrame::Bulk(
                views_of(args@)[1],
            ),
            Err(e) => views_of(args@).len() < 2 && e == CommandError::InvalidFormat,
        },
{
    if args.len() < 2 {
        return Err(CommandError::InvalidFormat);
    }
    proof {
        assert(views_of(args@)[1] == args@[1]@);
    }
    Ok(RespDataType::BulkString(clone_bytes(&args[1])))
}

/// The SET reply: binds the key to the value with the expiration the
/// options give, then answers OK.
fn set_reply(args: &Vec<Vec<u8>>, store: &mut Store, now: u64) -> (r: Result<
    RespDataType,
    CommandError,
>)
    requires
        old(store).wf(),
    ensures
        final(store).wf(),
        ({
            let a = views_of(args@);
            if a.len() < 3 {
                final(store)@ == old(store)@ && r == Err::<RespDataType, CommandError>(
                    CommandError::InvalidFormat,
                )
            } else {
                match spec_set_options(a, 3, now, None) {
                    Ok(exp) => final(store)@ == old(store)@.insert(
                        a[1],
                        SpecStoreValue { value: a[2], exp },
                    ) && (r matches Ok(f) && frame_view(f) == SpecFrame::Simple(kw_ok())),
                    Err(e) => final(store)@ == old(store)@ && r == Err::<
                        RespDataType,
                        CommandError,
                    >(e),
                }
            }
        }),
{
    if args.len() < 3 {
        return Err(CommandError::InvalidFormat);
    }
    proof {
        assert(views_of(args@)[1] == args@[1]@);
        assert(views_of(args@)[2] == args@[2]@);
    }
    match set_options_rec(args, 3, now, None) {
        Ok(exp) => {
            let mut builder = StoreValueBuilder::new();
            builder.with_value(&args[2]);
            match exp {
                Some(t) => builder.with_exp(t),
                None => (),
            }
            let entry = builder.build();
            proof {
                assert(entry@ == SpecStoreValue { value: args@[2]@, exp });
            }
            store.set(&args[1], entry);
            let pat: [u8; 2] = [79, 75];
            proof {
                assert(pat@ =~= kw_ok());
            }
            Ok(RespDataType::SimpleString(vec_of(pat.as_slice())))
        },
        Err(e) => Err(e),
    }
}

/// The GET reply: the value as a bulk string when the key is live at `now`,
/// the null bulk string otherwise. The store is only read.
fn get_reply(args: &Vec<Vec<u8>>, store: &Store, now: u64) -> (r: Result<
    RespDataType,
    CommandError,
>)
    requires
        store.wf(),
    ensures
        ({
            let a = views_of(args@);
            if a.len() < 2 {
                r == Err::<RespDataType, CommandError>(CommandError::InvalidFormat)
            } else if live_key(store@, a[1], now) {
                r matches Ok(f) && frame_view(f) == SpecFrame::Bulk(store@[a[1]].value)
            } else {
                r matches Ok(f) && frame_view(f) == SpecFrame::NullBulk
            }
        }),
{
    if args.len() < 2 {
        return Err(CommandError::InvalidFormat);
    }
    proof {
        assert(views_of(args@)[1] == args@[1]@);
    }
    match store.get(&args[1]) {
        Some(entry) => {
            match entry.exp {
                Some(t) => {
                    if now < t {
                        Ok(RespDataType::BulkString(entry.value))
                    } else {
                        Ok(RespDataType::NullBulkString)
                    }
                },
                None => Ok(RespDataType::BulkString(entry.value)),
            }
        },
        None => Ok(RespDataType::NullBulkString),
    }
}

/// The KEYS * reply body: one bulk string per live key.
#[verifier::rlimit(100)]
fn live_key_frames(store: &Store, now: u64) -> (r: Vec<RespDataType>)
    requires
        store.wf(),
    ensures
        keys_listing(frames_view(r@), store@, now),
{
    let keys = store.get_all_keys();
    let mut out: Vec<RespDataType> = Vec::new();
    let mut i: usize = 0;
    proof {
        assert(frames_view(out@) =~= Seq::<SpecFrame>::empty());
    }
    while i < keys.len()
        invariant
            store.wf(),
            0 <= i <= keys@.len(),
            forall|a: int| 0 <= a < keys@.len() ==> store@.contains_key((#[trigger] keys@[a])@),
            forall|k: Seq<u8>|
                #[trigger] store@.contains_key(k) ==> exists|a: int|
                    0 <= a < keys@.len() && (#[trigger] keys@[a])@ == k,
            forall|a: int, b: int|
                0 <= a < b < keys@.len() ==> (#[trigger] keys@[a])@ != (#[trigger] keys@[b])@,
            forall|a: int|
                0 <= a < frames_view(out@).len() ==> exists|j: int|
                    0 <= j < i && (#[trigger] frames_view(out@)[a]) == SpecFrame::Bulk(
                        keys@[j]@,
                    ) && live_key(store@, keys@[j]@, now),
            forall|j: int|
                0 <= j < i && live_key(store@, (#[trigger] keys@[j])@, now) ==> exists|a: int|
                    0 <= a < frames_view(out@).len() && (#[trigger] frames_view(out@)[a])
                        == SpecFrame::Bulk(keys@[j]@),
            forall|a: int, b: int|
                0 <= a < b < frames_view(out@).len() ==> (#[trigger] frames_view(out@)[a]) != (
                #[trigger] frames_view(out@)[b]),
        decreases keys@.len() - i,
    {
        let ghost out0 = out@;
        let key = &keys[i];
        let mut live = false;
        match store.get(key) {
            Some(entry) => {
                match entry.exp {
                    Some(t) => {
                        live = now < t;
                    },
                    None => {
                        live = true;
                    },
                }
            },
            None => {
                live = false;
            },
        }
        proof {
            assert(live == live_key(store@, keys@[i as int]@, now));
        }
        if live {
            let kc = clone_bytes(key);
            proof {
                assert(kc@ == keys@[i as int]@);
            }
            out.push(RespDataType::BulkString(kc));
            proof {
                assert(out@.drop_last() =~= out0);
                assert(frames_view(out@) == frames_view(out@.drop_last()).push(
                    frame_view(out@.last()),
                ));
                assert(frames_view(out@.drop_last()) == frames_view(out0));
                assert(frame_view(out@.last()) == SpecFrame::Bulk(keys@[i as int]@));
                assert(frames_view(out@) == frames_view(out0).push(
                    SpecFrame::Bulk(keys@[i as int]@),
                ));
                assert(frames_view(out@).len() == frames_view(out0).len() + 1);
                assert(frames_view(out@).last() == SpecFrame::Bulk(keys@[i as int]@));
                assert forall|a: int|
                    0 <= a < frames_view(out@).len() implies exists|j: int|
                    0 <= j < i + 1 && (#[trigger] frames_view(out@)[a]) == SpecFrame::Bulk(
                        keys@[j]@,
                    ) && live_key(store@, keys@[j]@, now) by {
                    if a < frames_view(out0).len() {
                        assert(frames_view(out@)[a] == frames_view(out0)[a]);
                        let j = choose|j: int|
                            0 <= j < i && (#[trigger] frames_view(out0)[a]) == SpecFrame::Bulk(
                                keys@[j]@,
                            ) && live_key(store@, keys@[j]@, now);
                        assert(0 <= j < i + 1 && frames_view(out@)[a] == SpecFrame::Bulk(keys@[j]@)
                            && live_key(store@, keys@[j]@, now));
                    } else {
                        assert(frames_view(out@)[a] == SpecFrame::Bulk(keys@[i as int]@));
                    }
                }
                assert forall|j: int|
                    0 <= j < i + 1 && live_key(store@, (#[trigger] keys@[j])@, now) implies exists|
                    a: int,
                |
                    0 <= a < frames_view(out@).len() && (#[trigger] frames_view(out@)[a])
                        == SpecFrame::Bulk(keys@[j]@) by {
                    if j < i {
                        let a = choose|a: int|
                            0 <= a < frames_view(out0).len() && (#[trigger] frames_view(out0)[a])
                                == SpecFrame::Bulk(keys@[j]@);
                        assert(frames_view(out@)[a] == frames_view(out0)[a]);
                    } else {
                        let a = frames_view(out@).len() - 1;
                        assert(frames_view(out@)[a] == SpecFrame::Bulk(keys@[j]@));
                    }
                }
                assert forall|a: int, b: int|
                    0 <= a < b < frames_view(out@).len() implies (#[trigger] frames_view(
                    out@,
                )[a]) != (#[trigger] frames_view(out@)[b]) by {
                    if b < frames_view(out0).len() {
                        assert(frames_view(out@)[a] == frames_view(out0)[a]);
                        assert(frames_view(out@)[b] == frames_view(out0)[b]);
                    } else {
                        assert(frames_view(out@)[b] == SpecFrame::Bulk(keys@[i as int]@));
                        assert(frames_view(out@)[a] == frames_view(out0)[a]);
                        let j = choose|j: int|
                            0 <= j < i && (#[trigger] frames_view(out0)[a]) == SpecFrame::Bulk(
                                keys@[j]@,
                            ) && live_key(store@, keys@[j]@, now);
                        assert(keys@[j]@ != keys@[i as int]@);
                    }
                }
            }
        } else {
            proof {
                assert forall|j: int|
                    0 <= j < i + 1 && live_key(store@, (#[trigger] keys@[j])@, now) implies exists|
                    a: int,
                |
                    0 <= a < frames_view(out@).len() && (#[trigger] frames_view(out@)[a])
                        == SpecFrame::Bulk(keys@[j]@) by {
                    assert(j < i);
                }
            }
        }
        i = i + 1;
    }
    proof {
        let fs = frames_view(out@);
        assert forall|a: int|
            0 <= a < fs.len() implies ((#[trigger] fs[a]) matches SpecFrame::Bulk(k) && live_key(
            store@,
            k,
            now,
        )) by {
            let j = choose|j: int|
                0 <= j < i && (#[trigger] fs[a]) == SpecFrame::Bulk(keys@[j]@) && live_key(
                    store@,
                    keys@[j]@,
                    now,
                );
        }
        assert forall|k: Seq<u8>| #[trigger] live_key(store@, k, now) implies exists|a: int|
            0 <= a < fs.len() && (#[trigger] fs[a]) == SpecFrame::Bulk(k) by {
            assert(store@.contains_key(k));
            let j = choose|j: int| 0 <= j < keys@.len() && (#[trigger] keys@[j])@ == k;
            assert(live_key(store@, keys@[j]@, now));
            let a = choose|a: int|
                0 <= a < fs.len() && (#[trigger] fs[a]) == SpecFrame::Bulk(keys@[j]@);
        }
    }
    out
}

/// The KEYS reply: the live keys for pattern `*`; any other pattern is
/// unimplemented.
fn keys_reply(args: &Vec<Vec<u8>>, store: &Store, now: u64) -> (r: Result<
    RespDataType,
    CommandError,
>)
    requires
        store.wf(),
    ensures
        ({
            let a = views_of(args@);
            if a.len() < 2 {
                r == Err::<RespDataType, CommandError>(CommandError::InvalidFormat)
            } else if a[1] == kw_star() {
                r matches Ok(f) && (frame_view(f) matches SpecFrame::Arr(fs) && keys_listing(
                    fs,
                    store@,
                    now,
                ))
            } else {
                r == Err::<RespDataType, CommandError>(CommandError::Unimplemented)
            }
        }),
{
    if args.len() < 2 {
        return Err(CommandError::InvalidFormat);
    }
    proof {
        assert(views_of(args@)[1] == args@[1]@);
    }
    let pat: [u8; 1] = [42];
    proof {
        assert(pat@ =~= kw_star());
    }
    if bytes_eq_slice(&args[1], pat.as_slice()) {
        let frames = live_key_frames(store, now);
        Ok(RespDataType::Array(frames))
    } else {
        Err(CommandError::Unimplemented)
    }
}

/// The CONFIG GET reply: a two-element array of parameter and value for a
/// recognized, configured parameter; the null bulk string otherwise.
fn config_get_reply(args: &Vec<Vec<u8>>, config: &ServerConfig) -> (r: Result<
    RespDataType,
    CommandError,
>)
    ensures
        ({
            let a = views_of(args@);
            if a.len() < 3 {
                r == Err::<RespDataType, CommandError>(CommandError::InvalidFormat)
            } else {
                let param = a[2];
                let looked = if param == kw_dir() {
                    config@.dir
                } else if param == kw_dbfilename() {
                    config@.dbfilename
                } else {
                    None
                };
                match looked {
                    Some(v) => r matches Ok(f) && frame_view(f) == SpecFrame::Arr(
                        seq![SpecFrame::Bulk(param), SpecFrame::Bulk(v)],
                    ),
                    None => r matches Ok(f) && frame_view(f) == SpecFrame::NullBulk,
                }
            }
        }),
{
    if args.len() < 3 {
        return Err(CommandError::InvalidFormat);
    }
    proof {
        assert(views_of(args@)[2] == args@[2]@);
    }
    let pat_dir: [u8; 3] = [100, 105, 114];
    let pat_dbfilename: [u8; 10] = [100, 98, 102, 105, 108, 101, 110, 97, 109, 101];
    proof {
        assert(pat_dir@ =~= kw_dir());
        assert(pat_dbfilename@ =~= kw_dbfilename());
    }
    let looked: Option<&Vec<u8>> = if bytes_eq_slice(&args[2], pat_dir.as_slice()) {
        match &config.dir {
            Some(d) => Some(d),
            None => None,
        }
    } else if bytes_eq_slice(&args[2], pat_dbfilename.as_slice()) {
        match &config.dbfilename {
            Some(d) => Some(d),
            None => None,
        }
    } else {
        None
    };
    match looked {
        Some(v) => {
            let mut items: Vec<RespDataType> = Vec::new();
            items.push(RespDataType::BulkString(clone_bytes(&args[2])));
            proof {
                assert(frame_view(items@[0]) == SpecFrame::Bulk(args@[2]@));
            }
            items.push(RespDataType::BulkString(clone_bytes(v)));
            proof {
                assert(frame_view(items@[1]) == SpecFrame::Bulk(v@));
                lemma_frames_view_index(items@);
                assert(frames_view(items@).len() == 2);
                assert(frames_view(items@)[0] == frame_view(items@[0]));
                assert(frames_view(items@)[1] == frame_view(items@[1]));
                assert(frames_view(items@) =~= seq![
                    SpecFrame::Bulk(args@[2]@),
                    SpecFrame::Bulk(v@),
                ]);
            }
            Ok(RespDataType::Array(items))
        },
        None => Ok(RespDataType::NullBulkString),
    }
}

/// The INFO reply: the replication payload for section `replication`; any
/// other section is rejected.
fn info_reply(args: &Vec<Vec<u8>>, info: &ServerInfo) -> (r: Result<RespDataType, CommandError>)
    ensures
        ({
            let a = views_of(args@);
            if a.len() < 2 {
                r == Err::<RespDataType, CommandError>(CommandError::InvalidFormat)
            } else if a[1] == kw_replication() {
                r matches Ok(f) && frame_view(f) == SpecFrame::Bulk(spec_info_payload(info@))
            } else {
                r == Err::<RespDataType, CommandError>(CommandError::InvalidInfoArg)
            }
        }),
{
    if args.len() < 2 {
        return Err(CommandError::InvalidFormat);
    }
    proof {
        assert(views_of(args@)[1] == args@[1]@);
    }
    let pat: [u8; 11] = [114, 101, 112, 108, 105, 99, 97, 116, 105, 111, 110];
    proof {
        assert(pat@ =~= kw_replication());
    }
    if bytes_eq_slice(&args[1], pat.as_slice()) {
        let formatter = ServerInfoFormatter::new(info);
        Ok(RespDataType::BulkString(formatter.format()))
    } else {
        Err(CommandError::InvalidInfoArg)
    }
}

/// Executes one parsed command at wall-time `now_ms` against the shared
/// state, producing the reply frame; `dispatch_post` pins down the reply
/// and the store effect of every command.
pub fn dispatch(
    cmd: &ParsedCommand,
    store: &mut Store,
    config: &ServerConfig,
    info: &ServerInfo,
    now_ms: u64,
) -> (r: Result<RespDataType, CommandError>)
    requires
        old(store).wf(),
    ensures
        final(store).wf(),
        dispatch_post(
            cmd.name,
            views_of(cmd.args@),
            old(store)@,
            final(store)@,
            config@,
            info@,
            now_ms,
            r,
        ),
{
    match cmd.name {
        CommandName::Ping => Ok(PingCommand.generate_reply()),
        CommandName::Echo => echo_reply(&cmd.args),
        CommandName::SetCmd => set_reply(&cmd.args, store, now_ms),
        CommandName::Get => get_reply(&cmd.args, store, now_ms),
        CommandName::Keys => keys_reply(&cmd.args, store, now_ms),
        CommandName::ConfigGet => config_get_reply(&cmd.args, config),
        CommandName::Info => info_reply(&cmd.args, info),
    }
}

/// Law: a SET of a key with no options, immediately followed by a GET of the
/// same key, replies to the GET with exactly the value just set, whatever
/// wall-times the two commands saw.
pub proof fn lemma_set_then_get(
    aset: Seq<Seq<u8>>,
    aget: Seq<Seq<u8>>,
    m0: Map<Seq<u8>, SpecStoreValue>,
    m1: Map<Seq<u8>, SpecStoreValue>,
    m2: Map<Seq<u8>, SpecStoreValue>,
    config: SpecServerConfig,
    info: SpecServerInfo,
    now1: u64,
    now2: u64,
    r1: Result<RespDataType, CommandError>,
    r2: Result<RespDataType, CommandError>,
)
    requires
        aset.len() == 3,
        aget.len() == 2,
        aget[1] == aset[1],
        dispatch_post(CommandName::SetCmd, aset, m0, m1, config, info, now1, r1),
        dispatch_post(CommandName::Get, aget, m1, m2, config, info, now2, r2),
    ensures
        r1 matches Ok(f) && frame_view(f) == SpecFrame::Simple(kw_ok()),
        r2 matches Ok(f) && frame_view(f) == SpecFrame::Bulk(aset[2]),
        m2 == m1,
{
    assert(spec_set_options(aset, 3, now1, None) == Ok::<Option<u64>, CommandError>(None));
    assert(m1 == m0.insert(aset[1], SpecStoreValue { value: aset[2], exp: None }));
    assert(live_key(m1, aget[1], now2));
    assert(m1[aget[1]].value == aset[2]);
}

/// Law: a SET of a key with PX `t` (`t` a positive decimal), then a GET of
/// the same key: while the wall-time is before the absolute expiration the
/// GET replies with the value, and from the expiration on it replies with
/// the null bulk string.
pub proof fn lemma_set_px_then_get(
    aset: Seq<Seq<u8>>,
    aget: Seq<Seq<u8>>,
    m0: Map<Seq<u8>, SpecStoreValue>,
    m1: Map<Seq<u8>, SpecStoreValue>,
    m2: Map<Seq<u8>, SpecStoreValue>,
    config: SpecServerConfig,
    info: SpecServerInfo,
    now1: u64,
    now2: u64,
    r1: Result<RespDataType, CommandError>,
    r2: Result<RespDataType, CommandError>,
)
    requires
        aset.len() == 5,
        upper_seq(aset[3]) == kw_px(),
        aset[4].len() >= 1,
        all_digits(aset[4]),
        dec_val(aset[4]) <= usize::MAX,
        dec_val(aset[4]) > 0,
        aget.len() == 2,
        aget[1] == aset[1],
        dispatch_post(CommandName::SetCmd, aset, m0, m1, config, info, now1, r1),
        dispatch_post(CommandName::Get, aget, m1, m2, config, info, now2, r2),
    ensures
        r1 matches Ok(f) && frame_view(f) == SpecFrame::Simple(kw_ok()),
        now2 < exp_at(now1, dec_val(aset[4])) ==> (r2 matches Ok(f) && frame_view(f)
            == SpecFrame::Bulk(aset[2])),
        now2 >= exp_at(now1, dec_val(aset[4])) ==> (r2 matches Ok(f) && frame_view(f)
            == SpecFrame::NullBulk),
        m2 == m1,
{
    let exp = exp_at(now1, dec_val(aset[4]));
    assert(spec_set_options(aset, 5, now1, Some(exp)) == Ok::<Option<u64>, CommandError>(
        Some(exp),
    ));
    assert(spec_set_options(aset, 3, now1, None) == Ok::<Option<u64>, CommandError>(Some(exp)));
    assert(m1 == m0.insert(aset[1], SpecStoreValue { value: aset[2], exp: Some(exp) }));
    assert(m1.contains_key(aget[1]));
    assert(m1[aget[1]].exp == Some(exp));
    if now2 < exp {
        assert(live_key(m1, aget[1], now2));
    } else {
        assert(!entry_live(m1[aget[1]], now2));
    }
}

/// Law: the KEYS * reply is an array whose elements are exactly the keys not
/// lazily expired at the dispatch's wall-time, each once, in no promised
/// order, and the store is left untouched.
pub proof fn lemma_keys_lists_live_set(
    args: Seq<Seq<u8>>,
    m0: Map<Seq<u8>, SpecStoreValue>,
    m1: Map<Seq<u8>, SpecStoreValue>,
    config: SpecServerConfig,
    info: SpecServerInfo,
    now: u64,
    r: Result<RespDataType, CommandError>,
)
    requires
        args.len() >= 2,
        args[1] == kw_star(),
        dispatch_post(CommandName::Keys, args, m0, m1, config, info, now, r),
    ensures
        m1 == m0,
        r matches Ok(f) && (frame_view(f) matches SpecFrame::Arr(fs) && {
            &&& forall|k: Seq<u8>|
                #[trigger] live_key(m0, k, now) <==> exists|i: int|
                    0 <= i < fs.len() && (#[trigger] fs[i]) == SpecFrame::Bulk(k)
            &&& forall|i: int, j: int|
                0 <= i < j < fs.len() ==> (#[trigger] fs[i]) != (#[trigger] fs[j])
        }),
{
    let f = r->Ok_0;
    let fs = frame_view(f)->Arr_0;
    assert(keys_listing(fs, m0, now));
    assert forall|k: Seq<u8>|
        #[trigger] live_key(m0, k, now) <==> exists|i: int|
            0 <= i < fs.len() && (#[trigger] fs[i]) == SpecFrame::Bulk(k) by {
        if exists|i: int| 0 <= i < fs.len() && (#[trigger] fs[i]) == SpecFrame::Bulk(k) {
            let i = choose|i: int| 0 <= i < fs.len() && (#[trigger] fs[i]) == SpecFrame::Bulk(k);
            assert(fs[i] matches SpecFrame::Bulk(k2) && live_key(m0, k2, now));
        }
    }
}

} // verus!
