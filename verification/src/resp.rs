//! The wire-protocol codec. A frame is one unit of the protocol: a simple
//! string, an error string, a length-prefixed bulk string (which may hold any
//! bytes, delimiters included), the null bulk string, or an array of nested
//! frames. Frames are terminated by CR-LF; bulk strings and arrays carry a
//! decimal length header.
//!
//! The encoder and the decoder are both specified against a mathematical
//! grammar (`spec_encode`, `spec_decode`), and decoding an encoded
//! well-formed frame is proved to give the frame back exactly.

use vstd::prelude::*;

verus! {

use crate::ascii::{
    CR, LF, all_digits, dec_digits, dec_val, is_digit, lemma_dec_digits_are_digits,
    lemma_dec_val_of_dec_digits, parse_dec_range, push_all, push_dec_digits,
};

/// One unit of the wire protocol.
#[derive(Debug, PartialEq, Eq)]
pub enum RespDataType {
    /// `+text\r\n`; the text carries no CR or LF.
    SimpleString(Vec<u8>),
    /// `-text\r\n`; an error reply.
    ErrorString(Vec<u8>),
    /// `$len\r\n payload \r\n`; the payload may hold any bytes.
    BulkString(Vec<u8>),
    /// `$-1\r\n`; the absent value.
    NullBulkString,
    /// `*count\r\n` followed by `count` frames.
    Array(Vec<RespDataType>),
}

/// The mathematical shape of a frame: byte strings become sequences.
pub enum SpecFrame {
    Simple(Seq<u8>),
    ErrorMsg(Seq<u8>),
    Bulk(Seq<u8>),
    NullBulk,
    Arr(Seq<SpecFrame>),
}

pub open spec fn frame_view(f: RespDataType) -> SpecFrame
    decreases f,
{
    match f {
        RespDataType::SimpleString(t) => SpecFrame::Simple(t@),
        RespDataType::ErrorString(t) => SpecFrame::ErrorMsg(t@),
        RespDataType::BulkString(b) => SpecFrame::Bulk(b@),
        RespDataType::NullBulkString => SpecFrame::NullBulk,
        RespDataType::Array(items) => SpecFrame::Arr(frames_view(items@)),
    }
}

pub open spec fn frames_view(s: Seq<RespDataType>) -> Seq<SpecFrame>
    decreases s,
{
    if s.len() == 0 {
        Seq::empty()
    } else {
        frames_view(s.drop_last()).push(frame_view(s.last()))
    }
}

impl View for RespDataType {
    type V = SpecFrame;

    open spec fn view(&self) -> SpecFrame {
        frame_view(*self)
    }
}

pub proof fn lemma_frames_view_index(s: Seq<RespDataType>)
    ensures
        frames_view(s).len() == s.len(),
        forall|i: int| 0 <= i < s.len() ==> frames_view(s)[i] == frame_view(#[trigger] s[i]),
    decreases s,
{
    if s.len() > 0 {
        lemma_frames_view_index(s.drop_last());
        assert forall|i: int| 0 <= i < s.len() implies frames_view(s)[i] == frame_view(
            #[trigger] s[i],
        ) by {
            if i < s.len() - 1 {
                assert(s.drop_last()[i] == s[i]);
                assert(frames_view(s.drop_last())[i] == frame_view(s.drop_last()[i]));
            } else {
                assert(frames_view(s)[i] == frame_view(s.last()));
            }
        }
    }
}

pub proof fn lemma_frames_view_push(s: Seq<RespDataType>, f: RespDataType)
    ensures
        frames_view(s.push(f)) == frames_view(s).push(frame_view(f)),
{
    assert(s.push(f).drop_last() =~= s);
    assert(s.push(f).last() == f);
}

/// A text carries no frame delimiter bytes.
pub open spec fn no_crlf_bytes(t: Seq<u8>) -> bool {
    forall|i: int| 0 <= i < t.len() ==> t[i] != CR && #[trigger] t[i] != LF
}

/// A frame the encoder and decoder round-trip on: texts hold no delimiter
/// bytes, and declared lengths fit the machine.
pub open spec fn frame_wf(f: SpecFrame) -> bool
    decreases f,
{
    match f {
        SpecFrame::Simple(t) => no_crlf_bytes(t),
        SpecFrame::ErrorMsg(t) => no_crlf_bytes(t),
        SpecFrame::Bulk(b) => b.len() <= usize::MAX,
        SpecFrame::NullBulk => true,
        SpecFrame::Arr(fs) => fs.len() <= usize::MAX && forall|i: int|
            0 <= i < fs.len() ==> frame_wf(#[trigger] fs[i]),
    }
}

/// The bytes of a frame on the wire.
pub open spec fn spec_encode(f: SpecFrame) -> Seq<u8>
    decreases f,
{
    match f {
        SpecFrame::Simple(t) => seq![43u8] + t + seq![CR, LF],
        SpecFrame::ErrorMsg(t) => seq![45u8] + t + seq![CR, LF],
        SpecFrame::Bulk(b) => seq![36u8] + dec_digits(b.len()) + seq![CR, LF] + b + seq![CR, LF],
        SpecFrame::NullBulk => seq![36u8, 45u8, 49u8, CR, LF],
        SpecFrame::Arr(fs) => seq![42u8] + dec_digits(fs.len()) + seq![CR, LF] + spec_encode_seq(
            fs,
        ),
    }
}

pub open spec fn spec_encode_seq(fs: Seq<SpecFrame>) -> Seq<u8>
    decreases fs,
{
    if fs.len() == 0 {
        Seq::empty()
    } else {
        spec_encode_seq(fs.drop_last()) + spec_encode(fs.last())
    }
}

/// What decoding from a position yields: a frame and the position just after
/// it, a signal that more bytes are needed, or a malformed-frame signal.
pub enum SpecDecoded {
    Frame(SpecFrame, int),
    Incomplete,
    Invalid,
}

pub enum SpecDecodedSeq {
    Frames(Seq<SpecFrame>, int),
    Incomplete,
    Invalid,
}

/// The position of the first CR-LF pair at or after `p`.
pub open spec fn find_crlf(s: Seq<u8>, p: int) -> Option<int>
    decreases s.len() - p,
{
    if p < 0 || p + 1 >= s.len() {
        None
    } else if s[p] == CR && s[p + 1] == LF {
        Some(p)
    } else {
        find_crlf(s, p + 1)
    }
}

/// The wire grammar, read from position `p`. Unknown tag bytes and malformed
/// length headers are invalid; a frame cut short is incomplete.
pub open spec fn spec_decode(s: Seq<u8>, p: int) -> SpecDecoded
    decreases s.len() - p, 0int,
{
    if !(0 <= p < s.len()) {
        SpecDecoded::Incomplete
    } else if s[p] == 43 || s[p] == 45 {
        match find_crlf(s, p + 1) {
            Some(j) => {
                let t = s.subrange(p + 1, j);
                if s[p] == 43 {
                    SpecDecoded::Frame(SpecFrame::Simple(t), j + 2)
                } else {
                    SpecDecoded::Frame(SpecFrame::ErrorMsg(t), j + 2)
                }
            },
            None => SpecDecoded::Incomplete,
        }
    } else if s[p] == 36 {
        match find_crlf(s, p + 1) {
            Some(j) => {
                let t = s.subrange(p + 1, j);
                if t == seq![45u8, 49u8] {
                    SpecDecoded::Frame(SpecFrame::NullBulk, j + 2)
                } else if t.len() >= 1 && all_digits(t) && dec_val(t) <= usize::MAX {
                    let l = dec_val(t);
                    if j + 2 + l + 2 <= s.len() {
                        if s[j + 2 + l] == CR && s[j + 2 + l + 1] == LF {
                            SpecDecoded::Frame(
                                SpecFrame::Bulk(s.subrange(j + 2, j + 2 + l)),
                                j + 2 + l + 2,
                            )
                        } else {
                            SpecDecoded::Invalid
                        }
                    } else {
                        SpecDecoded::Incomplete
                    }
                } else {
                    SpecDecoded::Invalid
                }
            },
            None => SpecDecoded::Incomplete,
        }
    } else if s[p] == 42 {
        match find_crlf(s, p + 1) {
            Some(j) => {
                if j < p + 1 || j + 2 > s.len() {
                    SpecDecoded::Invalid
                } else {
                    let t = s.subrange(p + 1, j);
                    if t.len() >= 1 && all_digits(t) && dec_val(t) <= usize::MAX {
                        match spec_decode_n(s, j + 2, dec_val(t)) {
                            SpecDecodedSeq::Frames(fs, e) => SpecDecoded::Frame(
                                SpecFrame::Arr(fs),
                                e,
                            ),
                            SpecDecodedSeq::Incomplete => SpecDecoded::Incomplete,
                            SpecDecodedSeq::Invalid => SpecDecoded::Invalid,
                        }
                    } else {
                        SpecDecoded::Invalid
                    }
                }
            },
            None => SpecDecoded::Incomplete,
        }
    } else {
        SpecDecoded::Invalid
    }
}

/// `n` consecutive frames read from position `p`.
pub open spec fn spec_decode_n(s: Seq<u8>, p: int, n: int) -> SpecDecodedSeq
    decreases s.len() - p, 1int + n,
{
    if n <= 0 {
        SpecDecodedSeq::Frames(Seq::empty(), p)
    } else {
        match spec_decode(s, p) {
            SpecDecoded::Frame(f, p2) => {
                if p < p2 <= s.len() {
                    match spec_decode_n(s, p2, n - 1) {
                        SpecDecodedSeq::Frames(fs, e) => SpecDecodedSeq::Frames(seq![f] + fs, e),
                        SpecDecodedSeq::Incomplete => SpecDecodedSeq::Incomplete,
                        SpecDecodedSeq::Invalid => SpecDecodedSeq::Invalid,
                    }
                } else {
                    SpecDecodedSeq::Invalid
                }
            },
            SpecDecoded::Incomplete => SpecDecodedSeq::Incomplete,
            SpecDecoded::Invalid => SpecDecodedSeq::Invalid,
        }
    }
}

/// What decoding an array amounts to once its count is read: the outcome of
/// decoding that many frames, wrapped back up as a frame outcome.
pub open spec fn arr_result(r: SpecDecodedSeq) -> SpecDecoded {
    match r {
        SpecDecodedSeq::Frames(fs, e) => SpecDecoded::Frame(SpecFrame::Arr(fs), e),
        SpecDecodedSeq::Incomplete => SpecDecoded::Incomplete,
        SpecDecodedSeq::Invalid => SpecDecoded::Invalid,
    }
}

pub open spec fn seq_result_prepend(fs: Seq<SpecFrame>, r: SpecDecodedSeq) -> SpecDecodedSeq {
    match r {
        SpecDecodedSeq::Frames(rest, e) => SpecDecodedSeq::Frames(fs + rest, e),
        SpecDecodedSeq::Incomplete => SpecDecodedSeq::Incomplete,
        SpecDecodedSeq::Invalid => SpecDecodedSeq::Invalid,
    }
}

proof fn lemma_prepend_assoc(a: Seq<SpecFrame>, b: Seq<SpecFrame>, r: SpecDecodedSeq)
    ensures
        seq_result_prepend(a, seq_result_prepend(b, r)) == seq_result_prepend(a + b, r),
{
    match r {
        SpecDecodedSeq::Frames(rest, e) => {
            assert(a + (b + rest) =~= (a + b) + rest);
        },
        _ => {},
    }
}

/// The error signals of the decoder: a malformed frame, or input that stops
/// before the frame does.
#[derive(Debug, Clone, PartialEq, Eq)]
pub enum RespDecoderError {
    InvalidRespDataType,
    Incomplete,
}

/// No CR-LF pair starts in `[from, j)`; hence the search from `from` and the
/// search from `j` agree.
proof fn lemma_find_crlf_skip(s: Seq<u8>, from: int, j: int)
    requires
        0 <= from <= j,
        forall|k: int| from <= k < j ==> !(#[trigger] s[k] == CR && s[k + 1] == LF),
    ensures
        find_crlf(s, from) == find_crlf(s, j),
    decreases j - from,
{
    if from < j {
        lemma_find_crlf_skip(s, from + 1, j);
    }
}

proof fn lemma_find_crlf_bounds(s: Seq<u8>, p: int)
    ensures
        match find_crlf(s, p) {
            Some(j) => p <= j && j + 2 <= s.len() && s[j] == CR && s[j + 1] == LF,
            None => true,
        },
    decreases s.len() - p,
{
    if !(p < 0 || p + 1 >= s.len()) && !(s[p] == CR && s[p + 1] == LF) {
        lemma_find_crlf_bounds(s, p + 1);
    }
}

/// Finds the first CR-LF pair at or after `from`.
fn find_crlf_exec(bytes: &Vec<u8>, from: usize) -> (r: Option<usize>)
    ensures
        match r {
            Some(j) => find_crlf(bytes@, from as int) == Some(j as int) && from <= j && j + 2
                <= bytes@.len(),
            None => find_crlf(bytes@, from as int) is None,
        },
{
    let mut j: usize = from;
    loop
        invariant
            from <= j,
            find_crlf(bytes@, from as int) == find_crlf(bytes@, j as int),
        decreases bytes@.len() - j,
    {
        if j >= bytes.len() || j + 1 >= bytes.len() {
            return None;
        }
        if bytes[j] == CR && bytes[j + 1] == LF {
            return Some(j);
        }
        proof {
            lemma_find_crlf_skip(bytes@, j as int, j + 1);
        }
        j = j + 1;
    }
}

/// Copies `bytes[from..to]` into a fresh vector.
fn copy_range(bytes: &Vec<u8>, from: usize, to: usize) -> (r: Vec<u8>)
    requires
        from <= to <= bytes@.len(),
    ensures
        r@ == bytes@.subrange(from as int, to as int),
{
    let mut out: Vec<u8> = Vec::new();
    let mut i: usize = from;
    while i < to
        invariant
            from <= i <= to <= bytes@.len(),
            out@ =~= bytes@.subrange(from as int, i as int),
        decreases to - i,
    {
        out.push(bytes[i]);
        assert(out@ =~= bytes@.subrange(from as int, i + 1));
        i = i + 1;
    }
    out
}

/// The decoder half of the codec.
pub struct RespDecoder;

impl RespDecoder {
    /// Decodes the frame that starts at the head of `bytes`, returning it
    /// with the count of bytes it occupied.
    pub fn decode(bytes: &Vec<u8>) -> (r: Result<(RespDataType, usize), RespDecoderError>)
        ensures
            match r {
                Ok((f, end)) => spec_decode(bytes@, 0) == SpecDecoded::Frame(f@, end as int) && 0
                    < end <= bytes@.len(),
                Err(RespDecoderError::Incomplete) => spec_decode(bytes@, 0)
                    == SpecDecoded::Incomplete,
                Err(RespDecoderError::InvalidRespDataType) => spec_decode(bytes@, 0)
                    == SpecDecoded::Invalid,
            },
    {
        Self::decode_at(bytes, 0)
    }

    /// Decodes the frame that starts at `pos`.
    pub fn decode_at(bytes: &Vec<u8>, pos: usize) -> (r: Result<
        (RespDataType, usize),
        RespDecoderError,
    >)
        requires
            pos <= bytes@.len(),
        ensures
            match r {
                Ok((f, end)) => spec_decode(bytes@, pos as int) == SpecDecoded::Frame(
                    f@,
                    end as int,
                ) && pos < end <= bytes@.len(),
                Err(RespDecoderError::Incomplete) => spec_decode(bytes@, pos as int)
                    == SpecDecoded::Incomplete,
                Err(RespDecoderError::InvalidRespDataType) => spec_decode(bytes@, pos as int)
                    == SpecDecoded::Invalid,
            },
        decreases bytes@.len() - pos,
    {
        let ghost s = bytes@;
        if pos >= bytes.len() {
            return Err(RespDecoderError::Incomplete);
        }
        let tag = bytes[pos];
        if tag == 43 || tag == 45 {
            match find_crlf_exec(bytes, pos + 1) {
                Some(j) => {
                    let t = copy_range(bytes, pos + 1, j);
                    if tag == 43 {
                        Ok((RespDataType::SimpleString(t), j + 2))
                    } else {
                        Ok((RespDataType::ErrorString(t), j + 2))
                    }
                },
                None => Err(RespDecoderError::Incomplete),
            }
        } else if tag == 36 {
            match find_crlf_exec(bytes, pos + 1) {
                Some(j) => {
                    let ghost t = s.subrange(pos + 1, j as int);
                    if j - (pos + 1) == 2 && bytes[pos + 1] == 45 && bytes[pos + 2] == 49 {
                        proof {
                            assert(t =~= seq![45u8, 49u8]);
                        }
                        Ok((RespDataType::NullBulkString, j + 2))
                    } else {
                        proof {
                            if t == seq![45u8, 49u8] {
                                assert(s[pos + 1] == 45 && s[pos + 2] == 49 && j - (pos + 1) == 2);
                            }
                        }
                        match parse_dec_range(bytes, pos + 1, j) {
                            Some(l) => {
                                let rem = bytes.len() - (j + 2);
                                if rem < 2 || l > rem - 2 {
                                    return Err(RespDecoderError::Incomplete);
                                }
                                if bytes[j + 2 + l] == CR && bytes[j + 2 + l + 1] == LF {
                                    let payload = copy_range(bytes, j + 2, j + 2 + l);
                                    Ok((RespDataType::BulkString(payload), j + 2 + l + 2))
                                } else {
                                    Err(RespDecoderError::InvalidRespDataType)
                                }
                            },
                            None => Err(RespDecoderError::InvalidRespDataType),
                        }
                    }
                },
                None => Err(RespDecoderError::Incomplete),
            }
        } else if tag == 42 {
            match find_crlf_exec(bytes, pos + 1) {
                Some(j) => {
                    match parse_dec_range(bytes, pos + 1, j) {
                        Some(n) => {
                            let ghost start = (j + 2) as int;
                            let mut items: Vec<RespDataType> = Vec::new();
                            let mut cur: usize = j + 2;
                            let mut k: usize = 0;
                            proof {
                                assert(frames_view(items@) =~= Seq::<SpecFrame>::empty());
                                assert(seq_result_prepend(
                                    frames_view(items@),
                                    spec_decode_n(s, cur as int, n - k),
                                ) == spec_decode_n(s, start, n as int)) by {
                                    match spec_decode_n(s, start, n as int) {
                                        SpecDecodedSeq::Frames(rest, e) => {
                                            assert(Seq::<SpecFrame>::empty() + rest =~= rest);
                                        },
                                        _ => {},
                                    }
                                }
                            }
                            proof {
                                assert(spec_decode(s, pos as int) == arr_result(
                                    spec_decode_n(s, start, n as int),
                                ));
                            }
                            while k < n
                                invariant
                                    pos < cur <= s.len(),
                                    k <= n,
                                    s == bytes@,
                                    frames_view(items@).len() == k,
                                    spec_decode(s, pos as int) == arr_result(
                                        spec_decode_n(s, start, n as int),
                                    ),
                                    spec_decode_n(s, start, n as int) == seq_result_prepend(
                                        frames_view(items@),
                                        spec_decode_n(s, cur as int, n - k),
                                    ),
                                decreases n - k,
                            {
                                match Self::decode_at(bytes, cur) {
                                    Ok((f, end)) => {
                                        proof {
                                            let fs0 = frames_view(items@);
                                            let tail = spec_decode_n(s, end as int, n - k - 1);
                                            assert(spec_decode_n(s, cur as int, n - k)
                                                == seq_result_prepend(seq![f@], tail));
                                            lemma_prepend_assoc(fs0, seq![f@], tail);
                                            lemma_frames_view_push(items@, f);
                                            assert(fs0 + seq![f@] =~= fs0.push(f@));
                                        }
                                        items.push(f);
                                        cur = end;
                                        k = k + 1;
                                    },
                                    Err(e) => {
                                        proof {
                                            assert(n - k >= 1);
                                            match e {
                                                RespDecoderError::Incomplete => {
                                                    assert(spec_decode_n(s, cur as int, n - k)
                                                        == SpecDecodedSeq::Incomplete);
                                                    assert(spec_decode_n(s, start, n as int)
                                                        == SpecDecodedSeq::Incomplete);
                                                    assert(spec_decode(s, pos as int)
                                                        == SpecDecoded::Incomplete);
                                                },
                                                RespDecoderError::InvalidRespDataType => {
                                                    assert(spec_decode_n(s, cur as int, n - k)
                                                        == SpecDecodedSeq::Invalid);
                                                    assert(spec_decode_n(s, start, n as int)
                                                        == SpecDecodedSeq::Invalid);
                                                    assert(spec_decode(s, pos as int)
                                                        == SpecDecoded::Invalid);
                                                },
                                            }
                                        }
                                        return Err(e);
                                    },
                                }
                            }
                            proof {
                                assert(spec_decode_n(s, cur as int, 0) == SpecDecodedSeq::Frames(
                                    Seq::<SpecFrame>::empty(),
                                    cur as int,
                                ));
                                let fs0 = frames_view(items@);
                                assert(fs0 + Seq::<SpecFrame>::empty() =~= fs0);
                                assert(spec_decode_n(s, start, n as int) == SpecDecodedSeq::Frames(
                                    fs0,
                                    cur as int,
                                ));
                            }
                            Ok((RespDataType::Array(items), cur))
                        },
                        None => Err(RespDecoderError::InvalidRespDataType),
                    }
                },
                None => Err(RespDecoderError::Incomplete),
            }
        } else {
            Err(RespDecoderError::InvalidRespDataType)
        }
    }
}

/// The encoder half of the codec.
pub struct RespEncoder;

impl RespEncoder {
    /// The wire bytes of a frame. Deterministic, and exactly `spec_encode`.
    pub fn encode(data_type: RespDataType) -> (r: Vec<u8>)
        ensures
            r@ == spec_encode(data_type@),
    {
        let mut out: Vec<u8> = Vec::new();
        Self::encode_into(&data_type, &mut out);
        assert(out@ =~= spec_encode(data_type@));
        out
    }

    /// Appends the wire bytes of `f` to `out`.
    pub fn encode_into(f: &RespDataType, out: &mut Vec<u8>)
        ensures
            final(out)@ == old(out)@ + spec_encode(f@),
        decreases *f,
    {
        match f {
            RespDataType::SimpleString(t) => {
                out.push(43);
                push_all(out, t);
                out.push(CR);
                out.push(LF);
                assert(final(out)@ =~= old(out)@ + spec_encode(f@));
            },
            RespDataType::ErrorString(t) => {
                out.push(45);
                push_all(out, t);
                out.push(CR);
                out.push(LF);
                assert(final(out)@ =~= old(out)@ + spec_encode(f@));
            },
            RespDataType::BulkString(b) => {
                out.push(36);
                push_dec_digits(b.len() as u64, out);
                out.push(CR);
                out.push(LF);
                push_all(out, b);
                out.push(CR);
                out.push(LF);
                assert(final(out)@ =~= old(out)@ + spec_encode(f@));
            },
            RespDataType::NullBulkString => {
                out.push(36);
                out.push(45);
                out.push(49);
                out.push(CR);
                out.push(LF);
                assert(final(out)@ =~= old(out)@ + spec_encode(f@));
            },
            RespDataType::Array(items) => {
                out.push(42);
                push_dec_digits(items.len() as u64, out);
                out.push(CR);
                out.push(LF);
                let ghost base = out@;
                let mut i: usize = 0;
                proof {
                    assert(items@.subrange(0, 0) =~= Seq::<RespDataType>::empty());
                }
                while i < items.len()
                    invariant
                        i <= items@.len(),
                        f is Array && f->Array_0 == *items,
                        out@ == base + spec_encode_seq(frames_view(items@.subrange(0, i as int))),
                    decreases items@.len() - i,
                {
                    let ghost prefix = items@.subrange(0, i as int);
                    proof {
                        assert(decreases_to!(*f => f->Array_0));
                        assert(f->Array_0 == *items);
                        assert(decreases_to!(*items => items@));
                        assert(decreases_to!(items@ => items@[i as int]));
                        assert(decreases_to!(*f => items@[i as int]));
                    }
                    Self::encode_into(&items[i], out);
                    proof {
                        assert(items@.subrange(0, i + 1).drop_last() =~= prefix);
                        assert(items@.subrange(0, i + 1).last() == items@[i as int]);
                        let pv = frames_view(prefix);
                        let nv = frames_view(items@.subrange(0, i + 1));
                        assert(nv == pv.push(frame_view(items@[i as int])));
                        assert(nv.drop_last() =~= pv);
                        assert(spec_encode_seq(nv) == spec_encode_seq(pv) + spec_encode(
                            frame_view(items@[i as int]),
                        ));
                        assert(base + spec_encode_seq(pv) + spec_encode(items@[i as int]@) =~= base
                            + spec_encode_seq(nv));
                    }
                    i = i + 1;
                }
                proof {
                    assert(items@.subrange(0, items@.len() as int) =~= items@);
                    lemma_frames_view_index(items@);
                    assert(out@ =~= old(out)@ + spec_encode(f@));
                }
            },
        }
    }
}

/// Every frame of a sequence is well-formed.
pub open spec fn frames_wf(fs: Seq<SpecFrame>) -> bool {
    forall|i: int| 0 <= i < fs.len() ==> frame_wf(#[trigger] fs[i])
}

pub proof fn lemma_encode_len_pos(f: SpecFrame)
    ensures
        spec_encode(f).len() >= 3,
{
}

/// The first CR-LF pair after a CR-free stretch is the one that ends it.
proof fn lemma_find_crlf_after_text(s: Seq<u8>, from: int, j: int)
    requires
        0 <= from <= j,
        j + 2 <= s.len(),
        forall|k: int| from <= k < j ==> #[trigger] s[k] != CR,
        s[j] == CR,
        s[j + 1] == LF,
    ensures
        find_crlf(s, from) == Some(j),
{
    lemma_find_crlf_skip(s, from, j);
}

/// A frame sequence encoded at the head decomposes into the first frame's
/// bytes followed by the rest's.
proof fn lemma_encode_seq_first(fs: Seq<SpecFrame>)
    requires
        fs.len() > 0,
    ensures
        spec_encode_seq(fs) == spec_encode(fs[0]) + spec_encode_seq(fs.drop_first()),
    decreases fs.len(),
{
    if fs.len() == 1 {
        assert(fs.drop_last() =~= Seq::<SpecFrame>::empty());
        assert(fs.drop_first() =~= Seq::<SpecFrame>::empty());
        assert(fs.last() == fs[0]);
        assert(Seq::<u8>::empty() + spec_encode(fs[0]) =~= spec_encode(fs[0]));
        assert(spec_encode(fs[0]) + Seq::<u8>::empty() =~= spec_encode(fs[0]));
    } else {
        let dl = fs.drop_last();
        lemma_encode_seq_first(dl);
        assert(dl[0] == fs[0]);
        assert(fs.drop_first().drop_last() =~= dl.drop_first());
        assert(fs.drop_first().last() == fs.last());
        assert(fs.drop_first().len() > 0);
        assert(spec_encode_seq(fs.drop_first()) == spec_encode_seq(dl.drop_first())
            + spec_encode(fs.last()));
        assert((spec_encode(fs[0]) + spec_encode_seq(dl.drop_first())) + spec_encode(fs.last())
            =~= spec_encode(fs[0]) + (spec_encode_seq(dl.drop_first()) + spec_encode(fs.last())));
    }
}

/// Decoding inverts encoding: if the bytes of a well-formed frame `f` sit in
/// `s` at position `p`, the decoder read from `p` yields exactly `f` and
/// stops exactly after those bytes.
pub proof fn lemma_encode_wf_decode(f: SpecFrame, s: Seq<u8>, p: int)
    requires
        frame_wf(f),
        0 <= p,
        p + spec_encode(f).len() <= s.len(),
        s.subrange(p, p + spec_encode(f).len() as int) == spec_encode(f),
    ensures
        spec_decode(s, p) == SpecDecoded::Frame(f, p + spec_encode(f).len()),
    decreases f,
{
    let enc = spec_encode(f);
    let l = enc.len() as int;
    assert forall|k: int| 0 <= k < l implies s[p + k] == enc[k] by {
        assert(s.subrange(p, p + l)[k] == s[p + k]);
    }
    match f {
        SpecFrame::Simple(t) => {
            let j = p + 1 + t.len();
            assert(enc[0] == 43);
            assert(s[p] == 43);
            assert forall|k: int| p + 1 <= k < j implies #[trigger] s[k] != CR by {
                assert(enc[k - p] == t[k - p - 1]);
            }
            assert(enc[l - 2] == CR && enc[l - 1] == LF);
            lemma_find_crlf_after_text(s, p + 1, j);
            assert(s.subrange(p + 1, j) =~= t) by {
                assert forall|i: int| 0 <= i < t.len() implies s.subrange(p + 1, j)[i] == t[i] by {
                    assert(enc[1 + i] == t[i]);
                    assert(s[p + 1 + i] == enc[1 + i]);
                }
            }
        },
        SpecFrame::ErrorMsg(t) => {
            let j = p + 1 + t.len();
            assert(enc[0] == 45);
            assert(s[p] == 45);
            assert forall|k: int| p + 1 <= k < j implies #[trigger] s[k] != CR by {
                assert(enc[k - p] == t[k - p - 1]);
            }
            assert(enc[l - 2] == CR && enc[l - 1] == LF);
            lemma_find_crlf_after_text(s, p + 1, j);
            assert(s.subrange(p + 1, j) =~= t) by {
                assert forall|i: int| 0 <= i < t.len() implies s.subrange(p + 1, j)[i] == t[i] by {
                    assert(enc[1 + i] == t[i]);
                    assert(s[p + 1 + i] == enc[1 + i]);
                }
            }
        },
        SpecFrame::NullBulk => {
            let j = p + 3;
            assert(s[p] == 36 && s[p + 1] == 45 && s[p + 2] == 49 && s[p + 3] == CR && s[p + 4]
                == LF);
            lemma_find_crlf_after_text(s, p + 1, j);
            assert(s.subrange(p + 1, j) =~= seq![45u8, 49u8]);
        },
        SpecFrame::Bulk(b) => {
            assert(enc[0] == 36);
            assert(s[p] == 36);
            let dd = dec_digits(b.len());
            lemma_dec_digits_are_digits(b.len());
            lemma_dec_val_of_dec_digits(b.len());
            let nd = dd.len() as int;
            let j = p + 1 + nd;
            assert forall|k: int| p + 1 <= k < j implies #[trigger] s[k] != CR by {
                assert(enc[k - p] == dd[k - p - 1]);
                assert(is_digit(dd[k - p - 1]));
            }
            assert(enc[1 + nd] == CR && enc[2 + nd] == LF);
            lemma_find_crlf_after_text(s, p + 1, j);
            let t = s.subrange(p + 1, j);
            assert(t =~= dd) by {
                assert forall|i: int| 0 <= i < nd implies t[i] == dd[i] by {
                    assert(enc[1 + i] == dd[i]);
                    assert(s[p + 1 + i] == enc[1 + i]);
                }
            }
            assert(t != seq![45u8, 49u8]) by {
                if t == seq![45u8, 49u8] {
                    assert(is_digit(t[0]));
                }
            }
            assert(all_digits(t) && t.len() >= 1 && dec_val(t) == b.len());
            assert(j + 2 + b.len() + 2 == p + l);
            assert(s[j + 2 + b.len()] == CR && s[j + 2 + b.len() + 1] == LF) by {
                assert(enc[3 + nd + b.len()] == CR);
                assert(enc[3 + nd + b.len() + 1] == LF);
            }
            assert(s.subrange(j + 2, j + 2 + b.len()) =~= b) by {
                assert forall|i: int| 0 <= i < b.len() implies s.subrange(
                    j + 2,
                    j + 2 + b.len(),
                )[i] == b[i] by {
                    assert(enc[3 + nd + i] == b[i]);
                    assert(s[j + 2 + i] == enc[3 + nd + i]);
                }
            }
        },
        SpecFrame::Arr(fs) => {
            assert(enc[0] == 42);
            assert(s[p] == 42);
            let dd = dec_digits(fs.len());
            lemma_dec_digits_are_digits(fs.len());
            lemma_dec_val_of_dec_digits(fs.len());
            let nd = dd.len() as int;
            let j = p + 1 + nd;
            let se = spec_encode_seq(fs);
            assert forall|k: int| p + 1 <= k < j implies #[trigger] s[k] != CR by {
                assert(enc[k - p] == dd[k - p - 1]);
                assert(is_digit(dd[k - p - 1]));
            }
            assert(enc[1 + nd] == CR && enc[2 + nd] == LF);
            lemma_find_crlf_after_text(s, p + 1, j);
            let t = s.subrange(p + 1, j);
            assert(t =~= dd) by {
                assert forall|i: int| 0 <= i < nd implies t[i] == dd[i] by {
                    assert(enc[1 + i] == dd[i]);
                    assert(s[p + 1 + i] == enc[1 + i]);
                }
            }
            assert(all_digits(t) && t.len() >= 1 && dec_val(t) == fs.len());
            assert(s.subrange(j + 2, j + 2 + se.len() as int) =~= se) by {
                assert forall|i: int| 0 <= i < se.len() implies s.subrange(
                    j + 2,
                    j + 2 + se.len() as int,
                )[i] == se[i] by {
                    assert(enc[3 + nd + i] == se[i]);
                    assert(s[j + 2 + i] == enc[3 + nd + i]);
                }
            }
            lemma_encode_seq_decode_n(fs, s, j + 2);
            assert(spec_decode_n(s, j + 2, fs.len() as int) == SpecDecodedSeq::Frames(
                fs,
                j + 2 + se.len(),
            ));
            assert(j + 2 + se.len() == p + l);
        },
    }
}

/// Decoding inverts encoding for a run of frames laid end to end.
pub proof fn lemma_encode_seq_decode_n(fs: Seq<SpecFrame>, s: Seq<u8>, p: int)
    requires
        frames_wf(fs),
        0 <= p,
        p + spec_encode_seq(fs).len() <= s.len(),
        s.subrange(p, p + spec_encode_seq(fs).len() as int) == spec_encode_seq(fs),
    ensures
        spec_decode_n(s, p, fs.len() as int) == SpecDecodedSeq::Frames(
            fs,
            p + spec_encode_seq(fs).len(),
        ),
    decreases fs,
{
    if fs.len() == 0 {
        assert(fs =~= Seq::<SpecFrame>::empty());
    } else {
        lemma_encode_seq_first(fs);
        let e0 = spec_encode(fs[0]);
        let rest = fs.drop_first();
        let er = spec_encode_seq(rest);
        let se = spec_encode_seq(fs);
        assert(se.len() == e0.len() + er.len());
        assert forall|k: int| 0 <= k < se.len() implies s[p + k] == se[k] by {
            assert(s.subrange(p, p + se.len() as int)[k] == s[p + k]);
        }
        assert(s.subrange(p, p + e0.len() as int) =~= e0) by {
            assert forall|i: int| 0 <= i < e0.len() implies s.subrange(
                p,
                p + e0.len() as int,
            )[i] == e0[i] by {
                assert(se[i] == e0[i]);
            }
        }
        assert(frame_wf(fs[0]));
        lemma_encode_wf_decode(fs[0], s, p);
        lemma_encode_len_pos(fs[0]);
        let p2 = p + e0.len() as int;
        assert(s.subrange(p2, p2 + er.len() as int) =~= er) by {
            assert forall|i: int| 0 <= i < er.len() implies s.subrange(
                p2,
                p2 + er.len() as int,
            )[i] == er[i] by {
                assert(se[e0.len() + i] == er[i]);
                assert(s[p2 + i] == se[e0.len() + i]);
            }
        }
        assert(frames_wf(rest)) by {
            assert forall|i: int| 0 <= i < rest.len() implies frame_wf(#[trigger] rest[i]) by {
                assert(rest[i] == fs[i + 1]);
            }
        }
        lemma_encode_seq_decode_n(rest, s, p2);
        assert(seq![fs[0]] + rest =~= fs);
        assert(spec_decode_n(s, p, fs.len() as int) == SpecDecodedSeq::Frames(fs, p + se.len()));
    }
}

/// Law: decoding an encoded well-formed frame gives the frame back, having
/// consumed exactly its bytes.
pub proof fn lemma_decode_of_encode(f: SpecFrame)
    requires
        frame_wf(f),
    ensures
        spec_decode(spec_encode(f), 0) == SpecDecoded::Frame(f, spec_encode(f).len() as int),
{
    let enc = spec_encode(f);
    assert(enc.subrange(0, enc.len() as int) =~= enc);
    lemma_encode_wf_decode(f, enc, 0);
}

/// Law: frames laid end to end on one connection decode in the order they
/// were written; decoding the first leaves the second intact and next.
pub proof fn lemma_pipelined_frames_in_order(f1: SpecFrame, f2: SpecFrame, rest: Seq<u8>)
    requires
        frame_wf(f1),
        frame_wf(f2),
    ensures
        ({
            let s = spec_encode(f1) + spec_encode(f2) + rest;
            let l1 = spec_encode(f1).len() as int;
            let l2 = spec_encode(f2).len() as int;
            spec_decode(s, 0) == SpecDecoded::Frame(f1, l1) && spec_decode(s, l1)
                == SpecDecoded::Frame(f2, l1 + l2)
        }),
{
    let s = spec_encode(f1) + spec_encode(f2) + rest;
    let l1 = spec_encode(f1).len() as int;
    let l2 = spec_encode(f2).len() as int;
    assert(s.subrange(0, l1) =~= spec_encode(f1));
    lemma_encode_wf_decode(f1, s, 0);
    assert(s.subrange(l1, l1 + l2) =~= spec_encode(f2));
    lemma_encode_wf_decode(f2, s, l1);
}

} // verus!
