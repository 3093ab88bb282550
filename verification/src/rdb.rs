//! The snapshot decoder: a streaming parser for the binary snapshot file
//! that seeds the store at startup. The file is a header, a run of metadata
//! entries, a run of database sections, and an end-of-file marker followed
//! by an eight-byte checksum that is read but not verified. Lengths use a
//! variable-width size encoding whose top two bits pick the format; strings
//! are length-prefixed bytes or small integers rendered as decimal text.
//! Any malformed section is a fatal decode error.

use vstd::prelude::*;

verus! {

use crate::ascii::{all_digits, dec_digits, is_digit, u64_dec_digits, push_all};
use crate::store::{Store, StoreValue, SpecStoreValue, clone_bytes};

/// The bytes of `"REDIS"`, the five magic bytes of the header.
pub open spec fn kw_redis() -> Seq<u8> {
    seq![82u8, 69u8, 68u8, 73u8, 83u8]
}

/// The snapshot decoder's errors; every one is fatal to the load.
#[derive(Debug, Clone, Copy, PartialEq, Eq)]
pub enum RdbFileDecoderError {
    /// The input ends inside a section.
    UnexpectedEnd,
    /// The magic bytes or the version digits are wrong.
    InvalidHeader,
    /// A metadata key is not one of the recognized four.
    InvalidMetadata,
    /// A section tag stands where another was required.
    InvalidSection,
    /// A size encoding that no format matches.
    InvalidSize,
    /// A string encoding byte that names no string format.
    InvalidString,
    /// An LZF-compressed string, which this decoder does not take.
    CompressedString,
    /// A value type other than the plain string.
    InvalidValueType,
    /// A database index that is not a plain length.
    MissingDbIndex,
}

/// A decoded size: a plain length, or the marker byte of a special string
/// encoding (top two bits set).
#[derive(Debug, Clone, Copy, PartialEq, Eq)]
pub enum Size {
    Length(usize),
    StringType(u8),
}

/// The mathematical shape of a size.
pub enum SpecSize {
    Length(int),
    StringType(u8),
}

impl View for Size {
    type V = SpecSize;

    open spec fn view(&self) -> SpecSize {
        match self {
            Size::Length(l) => SpecSize::Length(*l as int),
            Size::StringType(b) => SpecSize::StringType(*b),
        }
    }
}

/// The 32-bit big-endian value at `p`.
pub open spec fn be32(s: Seq<u8>, p: int) -> int {
    s[p] * 16777216 + s[p + 1] * 65536 + s[p + 2] * 256 + s[p + 3]
}

/// The 16-bit little-endian value at `p`.
pub open spec fn le16(s: Seq<u8>, p: int) -> int {
    s[p] + s[p + 1] * 256
}

/// The 32-bit little-endian value at `p`.
pub open spec fn le32(s: Seq<u8>, p: int) -> int {
    s[p] + s[p + 1] * 256 + s[p + 2] * 65536 + s[p + 3] * 16777216
}

/// The 64-bit little-endian value at `p`.
pub open spec fn le64(s: Seq<u8>, p: int) -> int {
    s[p] + s[p + 1] * 256 + s[p + 2] * 65536 + s[p + 3] * 16777216 + s[p + 4] * 4294967296 + s[p
        + 5] * 1099511627776 + s[p + 6] * 281474976710656 + s[p + 7] * 72057594037927936
}

/// The size encoding, read at `p`: the top two bits of the first byte pick
/// six-bit, fourteen-bit, thirty-two-bit, or a special string encoding.
pub open spec fn spec_parse_size(s: Seq<u8>, p: int) -> Result<
    (SpecSize, int),
    RdbFileDecoderError,
> {
    if !(0 <= p < s.len()) {
        Err(RdbFileDecoderError::UnexpectedEnd)
    } else {
        let b = s[p];
        if b / 64 == 0 {
            Ok((SpecSize::Length(b as int), p + 1))
        } else if b / 64 == 1 {
            if p + 2 <= s.len() {
                Ok((SpecSize::Length((b % 64) * 256 + s[p + 1]), p + 2))
            } else {
                Err(RdbFileDecoderError::UnexpectedEnd)
            }
        } else if b / 64 == 2 {
            if p + 5 <= s.len() {
                Ok((SpecSize::Length(be32(s, p + 1)), p + 5))
            } else {
                Err(RdbFileDecoderError::UnexpectedEnd)
            }
        } else {
            Ok((SpecSize::StringType(b), p + 1))
        }
    }
}

/// The decimal text of an eight-bit signed integer.
pub open spec fn i8_text(b: u8) -> Seq<u8> {
    if b < 128 {
        dec_digits(b as nat)
    } else {
        seq![45u8] + dec_digits((256 - b) as nat)
    }
}

/// The string encoding, read at `p`: a length-prefixed run of raw bytes, or
/// an integer rendered as decimal text. The compressed form is refused.
pub open spec fn spec_parse_string(s: Seq<u8>, p: int) -> Result<
    (Seq<u8>, int),
    RdbFileDecoderError,
> {
    match spec_parse_size(s, p) {
        Ok((SpecSize::Length(l), p2)) => {
            if p2 + l <= s.len() {
                Ok((s.subrange(p2, p2 + l), p2 + l))
            } else {
                Err(RdbFileDecoderError::UnexpectedEnd)
            }
        },
        Ok((SpecSize::StringType(b), p2)) => {
            if b == 192 {
                if p2 + 1 <= s.len() {
                    Ok((i8_text(s[p2]), p2 + 1))
                } else {
                    Err(RdbFileDecoderError::UnexpectedEnd)
                }
            } else if b == 193 {
                if p2 + 2 <= s.len() {
                    Ok((dec_digits(le16(s, p2) as nat), p2 + 2))
                } else {
                    Err(RdbFileDecoderError::UnexpectedEnd)
                }
            } else if b == 194 {
                if p2 + 4 <= s.len() {
                    Ok((dec_digits(le32(s, p2) as nat), p2 + 4))
                } else {
                    Err(RdbFileDecoderError::UnexpectedEnd)
                }
            } else if b == 195 {
                Err(RdbFileDecoderError::CompressedString)
            } else {
                Err(RdbFileDecoderError::InvalidString)
            }
        },
        Err(e) => Err(e),
    }
}

/// Reads a size encoding from `bytes` at `pos`.
pub fn decode_size_at(bytes: &Vec<u8>, pos: usize) -> (r: Result<
    (Size, usize),
    RdbFileDecoderError,
>)
    requires
        pos <= bytes@.len(),
    ensures
        match r {
            Ok((v, end)) => spec_parse_size(bytes@, pos as int) == Ok::<
                (SpecSize, int),
                RdbFileDecoderError,
            >((v@, end as int)) && pos < end <= bytes@.len(),
            Err(e) => spec_parse_size(bytes@, pos as int) == Err::<
                (SpecSize, int),
                RdbFileDecoderError,
            >(e),
        },
{
    if pos >= bytes.len() {
        return Err(RdbFileDecoderError::UnexpectedEnd);
    }
    let b = bytes[pos];
    let tag = b / 64;
    if tag == 0 {
        Ok((Size::Length(b as usize), pos + 1))
    } else if tag == 1 {
        if bytes.len() - pos >= 2 {
            let hi = (b % 64) as usize;
            let lo = bytes[pos + 1] as usize;
            Ok((Size::Length(hi * 256 + lo), pos + 2))
        } else {
            Err(RdbFileDecoderError::UnexpectedEnd)
        }
    } else if tag == 2 {
        if bytes.len() - pos >= 5 {
            let b0 = bytes[pos + 1] as u64;
            let b1 = bytes[pos + 2] as u64;
            let b2 = bytes[pos + 3] as u64;
            let b3 = bytes[pos + 4] as u64;
            let v = b0 * 16777216 + b1 * 65536 + b2 * 256 + b3;
            proof {
                assert(v <= 4294967295);
                assert(v == be32(bytes@, pos + 1));
            }
            Ok((Size::Length(v as usize), pos + 5))
        } else {
            Err(RdbFileDecoderError::UnexpectedEnd)
        }
    } else {
        Ok((Size::StringType(b), pos + 1))
    }
}

/// Reads a string encoding from `bytes` at `pos`.
pub fn decode_string_at(bytes: &Vec<u8>, pos: usize) -> (r: Result<
    (Vec<u8>, usize),
    RdbFileDecoderError,
>)
    requires
        pos <= bytes@.len(),
    ensures
        match r {
            Ok((v, end)) => spec_parse_string(bytes@, pos as int) == Ok::<
                (Seq<u8>, int),
                RdbFileDecoderError,
            >((v@, end as int)) && pos < end <= bytes@.len(),
            Err(e) => spec_parse_string(bytes@, pos as int) == Err::<
                (Seq<u8>, int),
                RdbFileDecoderError,
            >(e),
        },
{
    match decode_size_at(bytes, pos) {
        Ok((Size::Length(l), p2)) => {
            if l <= bytes.len() - p2 {
                let mut out: Vec<u8> = Vec::new();
                let mut i: usize = p2;
                let end = p2 + l;
                while i < end
                    invariant
                        p2 <= i <= end <= bytes@.len(),
                        out@ =~= bytes@.subrange(p2 as int, i as int),
                    decreases end - i,
                {
                    out.push(bytes[i]);
                    assert(out@ =~= bytes@.subrange(p2 as int, i + 1));
                    i = i + 1;
                }
                Ok((out, end))
            } else {
                Err(RdbFileDecoderError::UnexpectedEnd)
            }
        },
        Ok((Size::StringType(b), p2)) => {
            if b == 192 {
                if p2 < bytes.len() {
                    let v = bytes[p2];
                    if v < 128 {
                        let text = u64_dec_digits(v as u64);
                        proof {
                            assert(text@ == i8_text(v));
                        }
                        Ok((text, p2 + 1))
                    } else {
                        let mut text: Vec<u8> = Vec::new();
                        text.push(45);
                        let neg = 256 - (v as u64);
                        push_all(&mut text, &u64_dec_digits(neg));
                        proof {
                            assert(text@ =~= i8_text(v));
                        }
                        Ok((text, p2 + 1))
                    }
                } else {
                    Err(RdbFileDecoderError::UnexpectedEnd)
                }
            } else if b == 193 {
                if bytes.len() - p2 >= 2 {
                    let v = (bytes[p2] as u64) + (bytes[p2 + 1] as u64) * 256;
                    proof {
                        assert(v == le16(bytes@, p2 as int));
                    }
                    Ok((u64_dec_digits(v), p2 + 2))
                } else {
                    Err(RdbFileDecoderError::UnexpectedEnd)
                }
            } else if b == 194 {
                if bytes.len() - p2 >= 4 {
                    let v = (bytes[p2] as u64) + (bytes[p2 + 1] as u64) * 256 + (bytes[p2
                        + 2] as u64) * 65536 + (bytes[p2 + 3] as u64) * 16777216;
                    proof {
                        assert(v == le32(bytes@, p2 as int));
                    }
                    Ok((u64_dec_digits(v), p2 + 4))
                } else {
                    Err(RdbFileDecoderError::UnexpectedEnd)
                }
            } else if b == 195 {
                Err(RdbFileDecoderError::CompressedString)
            } else {
                Err(RdbFileDecoderError::InvalidString)
            }
        },
        Err(e) => Err(e),
    }
}

/// The header: five magic bytes `REDIS`, then four ASCII version digits.
#[derive(Debug)]
pub struct RdbDataHeader {
    pub magic_string: Vec<u8>,
    pub version: Vec<u8>,
}

/// The mathematical shape of the header.
pub struct SpecRdbHeader {
    pub magic_string: Seq<u8>,
    pub version: Seq<u8>,
}

impl View for RdbDataHeader {
    type V = SpecRdbHeader;

    open spec fn view(&self) -> SpecRdbHeader {
        SpecRdbHeader { magic_string: self.magic_string@, version: self.version@ }
    }
}

/// The header, read at `p`: the magic must be `REDIS` and the version four
/// decimal digits.
pub open spec fn spec_parse_header(s: Seq<u8>, p: int) -> Result<
    (SpecRdbHeader, int),
    RdbFileDecoderError,
> {
    if !(0 <= p && p + 9 <= s.len()) {
        Err(RdbFileDecoderError::UnexpectedEnd)
    } else if s.subrange(p, p + 5) != kw_redis() {
        Err(RdbFileDecoderError::InvalidHeader)
    } else if !all_digits(s.subrange(p + 5, p + 9)) {
        Err(RdbFileDecoderError::InvalidHeader)
    } else {
        Ok(
            (
                SpecRdbHeader {
                    magic_string: s.subrange(p, p + 5),
                    version: s.subrange(p + 5, p + 9),
                },
                p + 9,
            ),
        )
    }
}

/// Reads the header from `bytes` at `pos`.
pub fn decode_header_at(bytes: &Vec<u8>, pos: usize) -> (r: Result<
    (RdbDataHeader, usize),
    RdbFileDecoderError,
>)
    requires
        pos <= bytes@.len(),
    ensures
        match r {
            Ok((v, end)) => spec_parse_header(bytes@, pos as int) == Ok::<
                (SpecRdbHeader, int),
                RdbFileDecoderError,
            >((v@, end as int)) && pos < end <= bytes@.len(),
            Err(e) => spec_parse_header(bytes@, pos as int) == Err::<
                (SpecRdbHeader, int),
                RdbFileDecoderError,
            >(e),
        },
{
    if bytes.len() - pos < 9 {
        return Err(RdbFileDecoderError::UnexpectedEnd);
    }
    let pat: [u8; 5] = [82, 69, 68, 73, 83];
    proof {
        assert(pat@ =~= kw_redis());
    }
    let end5 = pos + 5;
    let end9 = pos + 9;
    let mut i: usize = pos;
    while i < end5
        invariant
            pos <= i <= end5,
            end5 == pos + 5,
            end9 == pos + 9,
            end9 <= bytes@.len(),
            pat@ =~= kw_redis(),
            forall|j: int| pos <= j < i ==> #[trigger] bytes@[j] == kw_redis()[j - pos],
        decreases end5 - i,
    {
        if bytes[i] != pat[i - pos] {
            proof {
                assert(bytes@.subrange(pos as int, pos + 5)[i - pos] != kw_redis()[i - pos]);
            }
            return Err(RdbFileDecoderError::InvalidHeader);
        }
        i = i + 1;
    }
    proof {
        assert forall|k: int|
            0 <= k < 5 implies bytes@.subrange(pos as int, pos + 5)[k] == kw_redis()[k] by {
            assert(bytes@[pos + k] == kw_redis()[pos + k - pos]);
        }
        assert(bytes@.subrange(pos as int, pos + 5) =~= kw_redis());
    }
    let mut j: usize = end5;
    while j < end9
        invariant
            end5 <= j <= end9,
            end5 == pos + 5,
            end9 == pos + 9,
            end9 <= bytes@.len(),
            forall|k: int|
                0 <= k < j - end5 ==> is_digit(#[trigger] bytes@.subrange(pos + 5, pos + 9)[k]),
        decreases end9 - j,
    {
        let b = bytes[j];
        proof {
            assert(bytes@.subrange(pos + 5, pos + 9)[j - end5] == b);
        }
        if b < 48 || b > 57 {
            return Err(RdbFileDecoderError::InvalidHeader);
        }
        j = j + 1;
    }
    proof {
        assert(all_digits(bytes@.subrange(pos + 5, pos + 9)));
    }
    let magic = copy_bytes_range(bytes, pos, end5);
    let version = copy_bytes_range(bytes, end5, end9);
    Ok((RdbDataHeader { magic_string: magic, version }, end9))
}

/// The bytes of `"redis-ver"`.
pub open spec fn kw_redis_ver() -> Seq<u8> {
    seq![114u8, 101u8, 100u8, 105u8, 115u8, 45u8, 118u8, 101u8, 114u8]
}

/// The bytes of `"redis-bits"`.
pub open spec fn kw_redis_bits() -> Seq<u8> {
    seq![114u8, 101u8, 100u8, 105u8, 115u8, 45u8, 98u8, 105u8, 116u8, 115u8]
}

/// The bytes of `"ctime"`.
pub open spec fn kw_ctime() -> Seq<u8> {
    seq![99u8, 116u8, 105u8, 109u8, 101u8]
}

/// The bytes of `"used-mem"`.
pub open spec fn kw_used_mem() -> Seq<u8> {
    seq![117u8, 115u8, 101u8, 100u8, 45u8, 109u8, 101u8, 109u8]
}

/// The value types a database entry can carry; only the plain string is
/// taken.
#[derive(Debug, Clone, Copy, PartialEq, Eq)]
pub enum RdbValueType {
    StringEncoding,
}

impl RdbValueType {
    /// The value type a tag byte names, if any: zero is the plain string.
    pub fn from_byte(byte: u8) -> (r: Option<RdbValueType>)
        ensures
            r == if byte == 0 {
                Some(RdbValueType::StringEncoding)
            } else {
                None::<RdbValueType>
            },
    {
        if byte == 0 {
            Some(RdbValueType::StringEncoding)
        } else {
            None
        }
    }
}

/// The sections a tag byte can introduce.
#[derive(Debug, Clone, Copy, PartialEq, Eq)]
pub enum RdbSection {
    Header,
    Metadata,
    Database,
    EndOfFile,
}

impl RdbSection {
    /// The section a tag byte introduces, if any: `0xFA` metadata, `0xFE` a
    /// database, `0xFF` the end of the file.
    pub fn from_byte(byte: u8) -> (r: Option<RdbSection>)
        ensures
            r == if byte == 250 {
                Some(RdbSection::Metadata)
            } else if byte == 254 {
                Some(RdbSection::Database)
            } else if byte == 255 {
                Some(RdbSection::EndOfFile)
            } else {
                None::<RdbSection>
            },
    {
        if byte == 250 {
            Some(RdbSection::Metadata)
        } else if byte == 254 {
            Some(RdbSection::Database)
        } else if byte == 255 {
            Some(RdbSection::EndOfFile)
        } else {
            None
        }
    }
}

/// The metadata section: the four recognized keys, each optional; entries
/// under any other key are skipped silently.
#[derive(Debug)]
pub struct RdbDataMetadata {
    pub redis_ver: Option<Vec<u8>>,
    pub redis_bits: Option<Vec<u8>>,
    pub ctime: Option<Vec<u8>>,
    pub used_mem: Option<Vec<u8>>,
}

/// The mathematical shape of the metadata.
pub struct SpecRdbMetadata {
    pub redis_ver: Option<Seq<u8>>,
    pub redis_bits: Option<Seq<u8>>,
    pub ctime: Option<Seq<u8>>,
    pub used_mem: Option<Seq<u8>>,
}

pub open spec fn opt_view(v: Option<Vec<u8>>) -> Option<Seq<u8>> {
    match v {
        Some(b) => Some(b@),
        None => None,
    }
}

impl View for RdbDataMetadata {
    type V = SpecRdbMetadata;

    open spec fn view(&self) -> SpecRdbMetadata {
        SpecRdbMetadata {
            redis_ver: opt_view(self.redis_ver),
            redis_bits: opt_view(self.redis_bits),
            ctime: opt_view(self.ctime),
            used_mem: opt_view(self.used_mem),
        }
    }
}

/// The metadata with no key set.
pub open spec fn empty_meta() -> SpecRdbMetadata {
    SpecRdbMetadata { redis_ver: None, redis_bits: None, ctime: None, used_mem: None }
}

/// One metadata entry applied: a recognized key is set, any other leaves the
/// metadata as it is.
pub open spec fn meta_set(m: SpecRdbMetadata, k: Seq<u8>, v: Seq<u8>) -> SpecRdbMetadata {
    if k == kw_redis_ver() {
        SpecRdbMetadata { redis_ver: Some(v), ..m }
    } else if k == kw_redis_bits() {
        SpecRdbMetadata { redis_bits: Some(v), ..m }
    } else if k == kw_ctime() {
        SpecRdbMetadata { ctime: Some(v), ..m }
    } else if k == kw_used_mem() {
        SpecRdbMetadata { used_mem: Some(v), ..m }
    } else {
        m
    }
}

impl RdbDataMetadata {
    /// Metadata with no key set.
    pub fn new() -> (r: Self)
        ensures
            r@ == empty_meta(),
    {
        RdbDataMetadata { redis_ver: None, redis_bits: None, ctime: None, used_mem: None }
    }

    /// Sets a recognized key; an unknown key is refused and changes
    /// nothing, which the metadata decoder treats as a silent skip.
    pub fn set_key(&mut self, key: &Vec<u8>, value: &Vec<u8>) -> (r: Result<
        (),
        RdbFileDecoderError,
    >)
        ensures
            final(self)@ == meta_set(old(self)@, key@, value@),
            r is Ok <==> (key@ == kw_redis_ver() || key@ == kw_redis_bits() || key@ == kw_ctime()
                || key@ == kw_used_mem()),
    {
        let pat_ver: [u8; 9] = [114, 101, 100, 105, 115, 45, 118, 101, 114];
        let pat_bits: [u8; 10] = [114, 101, 100, 105, 115, 45, 98, 105, 116, 115];
        let pat_ctime: [u8; 5] = [99, 116, 105, 109, 101];
        let pat_mem: [u8; 8] = [117, 115, 101, 100, 45, 109, 101, 109];
        proof {
            assert(pat_ver@ =~= kw_redis_ver());
            assert(pat_bits@ =~= kw_redis_bits());
            assert(pat_ctime@ =~= kw_ctime());
            assert(pat_mem@ =~= kw_used_mem());
        }
        if crate::ascii::bytes_eq_slice(key, pat_ver.as_slice()) {
            self.redis_ver = Some(clone_bytes(value));
            Ok(())
        } else if crate::ascii::bytes_eq_slice(key, pat_bits.as_slice()) {
            self.redis_bits = Some(clone_bytes(value));
            Ok(())
        } else if crate::ascii::bytes_eq_slice(key, pat_ctime.as_slice()) {
            self.ctime = Some(clone_bytes(value));
            Ok(())
        } else if crate::ascii::bytes_eq_slice(key, pat_mem.as_slice()) {
            self.used_mem = Some(clone_bytes(value));
            Ok(())
        } else {
            Err(RdbFileDecoderError::InvalidMetadata)
        }
    }
}

/// The metadata entries read from `p` into `acc`, stopping — pushback-style,
/// the tag left unread — at the first database or end-of-file tag.
pub open spec fn spec_parse_metadata(s: Seq<u8>, p: int, acc: SpecRdbMetadata) -> Result<
    (SpecRdbMetadata, int),
    RdbFileDecoderError,
>
    decreases s.len() - p,
{
    if !(0 <= p < s.len()) {
        Err(RdbFileDecoderError::UnexpectedEnd)
    } else if s[p] == 254 || s[p] == 255 {
        Ok((acc, p))
    } else if s[p] == 250 {
        spec_parse_metadata(s, p + 1, acc)
    } else {
        match spec_parse_string(s, p) {
            Ok((k, p2)) => match spec_parse_string(s, p2) {
                Ok((v, p3)) => if p < p3 <= s.len() {
                    spec_parse_metadata(s, p3, meta_set(acc, k, v))
                } else {
                    Err(RdbFileDecoderError::InvalidSection)
                },
                Err(e) => Err(e),
            },
            Err(e) => Err(e),
        }
    }
}

/// Reads the metadata entries from `bytes` at `pos` into `acc`.
pub fn decode_metadata_at(bytes: &Vec<u8>, pos: usize, acc: RdbDataMetadata) -> (r: Result<
    (RdbDataMetadata, usize),
    RdbFileDecoderError,
>)
    requires
        pos <= bytes@.len(),
    ensures
        match r {
            Ok((m, end)) => spec_parse_metadata(bytes@, pos as int, acc@) == Ok::<
                (SpecRdbMetadata, int),
                RdbFileDecoderError,
            >((m@, end as int)) && pos <= end <= bytes@.len(),
            Err(e) => spec_parse_metadata(bytes@, pos as int, acc@) == Err::<
                (SpecRdbMetadata, int),
                RdbFileDecoderError,
            >(e),
        },
    decreases bytes@.len() - pos,
{
    if pos >= bytes.len() {
        return Err(RdbFileDecoderError::UnexpectedEnd);
    }
    let b = bytes[pos];
    if b == 254 || b == 255 {
        return Ok((acc, pos));
    }
    if b == 250 {
        return decode_metadata_at(bytes, pos + 1, acc);
    }
    match decode_string_at(bytes, pos) {
        Ok((k, p2)) => {
            match decode_string_at(bytes, p2) {
                Ok((v, p3)) => {
                    let mut next = acc;
                    let _ = next.set_key(&k, &v);
                    decode_metadata_at(bytes, p3, next)
                },
                Err(e) => Err(e),
            }
        },
        Err(e) => Err(e),
    }
}

/// The database entries read from `p` into `acc`, stopping at the first
/// section tag: an optional `0xFC`/`0xFD` expiration prefix, the value type
/// (plain string only), then the key and value strings.
pub open spec fn spec_parse_entries(
    s: Seq<u8>,
    p: int,
    acc: Map<Seq<u8>, SpecStoreValue>,
) -> Result<(Map<Seq<u8>, SpecStoreValue>, int), RdbFileDecoderError>
    decreases s.len() - p,
{
    if !(0 <= p < s.len()) {
        Err(RdbFileDecoderError::UnexpectedEnd)
    } else if s[p] == 250 || s[p] == 254 || s[p] == 255 {
        Ok((acc, p))
    } else {
        let expq: Result<(Option<u64>, int), RdbFileDecoderError> = if s[p] == 252 {
            if p + 9 <= s.len() {
                Ok((Some(le64(s, p + 1) as u64), p + 9))
            } else {
                Err(RdbFileDecoderError::UnexpectedEnd)
            }
        } else if s[p] == 253 {
            if p + 5 <= s.len() {
                Ok((Some((le32(s, p + 1) * 1000) as u64), p + 5))
            } else {
                Err(RdbFileDecoderError::UnexpectedEnd)
            }
        } else {
            Ok((None, p))
        };
        match expq {
            Ok((exp, q)) => {
                if q < s.len() {
                    if s[q] == 0 {
                        match spec_parse_string(s, q + 1) {
                            Ok((k, p2)) => match spec_parse_string(s, p2) {
                                Ok((v, p3)) => if p < p3 <= s.len() {
                                    spec_parse_entries(
                                        s,
                                        p3,
                                        acc.insert(k, SpecStoreValue { value: v, exp }),
                                    )
                                } else {
                                    Err(RdbFileDecoderError::InvalidSection)
                                },
                                Err(e) => Err(e),
                            },
                            Err(e) => Err(e),
                        }
                    } else {
                        Err(RdbFileDecoderError::InvalidValueType)
                    }
                } else {
                    Err(RdbFileDecoderError::UnexpectedEnd)
                }
            },
            Err(e) => Err(e),
        }
    }
}

/// Reads database entries from `bytes` at `pos` into the store `acc`.
#[verifier::rlimit(100)]
pub fn decode_entries_at(bytes: &Vec<u8>, pos: usize, acc: Store) -> (r: Result<
    (Store, usize),
    RdbFileDecoderError,
>)
    requires
        pos <= bytes@.len(),
        acc.wf(),
    ensures
        match r {
            Ok((st, end)) => st.wf() && spec_parse_entries(bytes@, pos as int, acc@) == Ok::<
                (Map<Seq<u8>, SpecStoreValue>, int),
                RdbFileDecoderError,
            >((st@, end as int)) && pos <= end <= bytes@.len(),
            Err(e) => spec_parse_entries(bytes@, pos as int, acc@) == Err::<
                (Map<Seq<u8>, SpecStoreValue>, int),
                RdbFileDecoderError,
            >(e),
        },
    decreases bytes@.len() - pos,
{
    if pos >= bytes.len() {
        return Err(RdbFileDecoderError::UnexpectedEnd);
    }
    let b = bytes[pos];
    if b == 250 || b == 254 || b == 255 {
        return Ok((acc, pos));
    }
    let exp: Option<u64>;
    let q: usize;
    if b == 252 {
        if bytes.len() - pos >= 9 {
            let v = (bytes[pos + 1] as u64) + (bytes[pos + 2] as u64) * 256 + (bytes[pos
                + 3] as u64) * 65536 + (bytes[pos + 4] as u64) * 16777216 + (bytes[pos
                + 5] as u64) * 4294967296 + (bytes[pos + 6] as u64) * 1099511627776 + (bytes[pos
                + 7] as u64) * 281474976710656 + (bytes[pos + 8] as u64) * 72057594037927936;
            proof {
                assert(v == le64(bytes@, pos + 1));
            }
            exp = Some(v);
            q = pos + 9;
        } else {
            return Err(RdbFileDecoderError::UnexpectedEnd);
        }
    } else if b == 253 {
        if bytes.len() - pos >= 5 {
            let v = (bytes[pos + 1] as u64) + (bytes[pos + 2] as u64) * 256 + (bytes[pos
                + 3] as u64) * 65536 + (bytes[pos + 4] as u64) * 16777216;
            proof {
                assert(v == le32(bytes@, pos + 1));
            }
            exp = Some(v * 1000);
            q = pos + 5;
        } else {
            return Err(RdbFileDecoderError::UnexpectedEnd);
        }
    } else {
        exp = None;
        q = pos;
    }
    if q >= bytes.len() {
        return Err(RdbFileDecoderError::UnexpectedEnd);
    }
    if bytes[q] != 0 {
        return Err(RdbFileDecoderError::InvalidValueType);
    }
    match decode_string_at(bytes, q + 1) {
        Ok((k, p2)) => {
            match decode_string_at(bytes, p2) {
                Ok((v, p3)) => {
                    let mut next = acc;
                    next.set(&k, StoreValue { value: v, exp });
                    decode_entries_at(bytes, p3, next)
                },
                Err(e) => Err(e),
            }
        },
        Err(e) => Err(e),
    }
}

/// One database section: its index, the two declared sizes, and its
/// key-entry mapping.
#[derive(Debug)]
pub struct RdbDatabase {
    pub index: usize,
    pub number_of_keys: usize,
    pub number_of_expired_keys: usize,
    pub data: Store,
}

/// The mathematical shape of a database section.
pub struct SpecRdbDatabase {
    pub index: int,
    pub number_of_keys: int,
    pub number_of_expired_keys: int,
    pub data: Map<Seq<u8>, SpecStoreValue>,
}

impl View for RdbDatabase {
    type V = SpecRdbDatabase;

    open spec fn view(&self) -> SpecRdbDatabase {
        SpecRdbDatabase {
            index: self.index as int,
            number_of_keys: self.number_of_keys as int,
            number_of_expired_keys: self.number_of_expired_keys as int,
            data: self.data@,
        }
    }
}

/// One database section read at `p`: `0xFE`, an index that must be a plain
/// length, `0xFB` with the two declared sizes, then the entries.
pub open spec fn spec_parse_database(s: Seq<u8>, p: int) -> Result<
    (SpecRdbDatabase, int),
    RdbFileDecoderError,
> {
    if !(0 <= p < s.len() && s[p] == 254) {
        Err(RdbFileDecoderError::InvalidSection)
    } else {
        match spec_parse_size(s, p + 1) {
            Ok((SpecSize::Length(idx), p2)) => {
                if p2 < s.len() && s[p2] == 251 {
                    match spec_parse_size(s, p2 + 1) {
                        Ok((SpecSize::Length(nk), p3)) => match spec_parse_size(s, p3) {
                            Ok((SpecSize::Length(nek), p4)) => match spec_parse_entries(
                                s,
                                p4,
                                Map::empty(),
                            ) {
                                Ok((m, p5)) => if p < p5 <= s.len() {
                                    Ok(
                                        (
                                            SpecRdbDatabase {
                                                index: idx,
                                                number_of_keys: nk,
                                                number_of_expired_keys: nek,
                                                data: m,
                                            },
                                            p5,
                                        ),
                                    )
                                } else {
                                    Err(RdbFileDecoderError::InvalidSection)
                                },
                                Err(e) => Err(e),
                            },
                            Ok((SpecSize::StringType(_), _)) => Err(
                                RdbFileDecoderError::InvalidSection,
                            ),
                            Err(e) => Err(e),
                        },
                        Ok((SpecSize::StringType(_), _)) => Err(RdbFileDecoderError::InvalidSection),
                        Err(e) => Err(e),
                    }
                } else if p2 >= s.len() {
                    Err(RdbFileDecoderError::UnexpectedEnd)
                } else {
                    Err(RdbFileDecoderError::InvalidSection)
                }
            },
            Ok((SpecSize::StringType(_), _)) => Err(RdbFileDecoderError::MissingDbIndex),
            Err(e) => Err(e),
        }
    }
}

/// Reads one database section from `bytes` at `pos`.
pub fn decode_database_at(bytes: &Vec<u8>, pos: usize) -> (r: Result<
    (RdbDatabase, usize),
    RdbFileDecoderError,
>)
    requires
        pos <= bytes@.len(),
    ensures
        match r {
            Ok((db, end)) => db.data.wf() && spec_parse_database(bytes@, pos as int) == Ok::<
                (SpecRdbDatabase, int),
                RdbFileDecoderError,
            >((db@, end as int)) && pos < end <= bytes@.len(),
            Err(e) => spec_parse_database(bytes@, pos as int) == Err::<
                (SpecRdbDatabase, int),
                RdbFileDecoderError,
            >(e),
        },
{
    if pos >= bytes.len() || bytes[pos] != 254 {
        return Err(RdbFileDecoderError::InvalidSection);
    }
    match decode_size_at(bytes, pos + 1) {
        Ok((Size::Length(idx), p2)) => {
            if p2 >= bytes.len() {
                return Err(RdbFileDecoderError::UnexpectedEnd);
            }
            if bytes[p2] != 251 {
                return Err(RdbFileDecoderError::InvalidSection);
            }
            match decode_size_at(bytes, p2 + 1) {
                Ok((Size::Length(nk), p3)) => {
                    match decode_size_at(bytes, p3) {
                        Ok((Size::Length(nek), p4)) => {
                            match decode_entries_at(bytes, p4, Store::new()) {
                                Ok((data, p5)) => Ok(
                                    (
                                        RdbDatabase {
                                            index: idx,
                                            number_of_keys: nk,
                                            number_of_expired_keys: nek,
                                            data,
                                        },
                                        p5,
                                    ),
                                ),
                                Err(e) => Err(e),
                            }
                        },
                        Ok((Size::StringType(_), _)) => Err(RdbFileDecoderError::InvalidSection),
                        Err(e) => Err(e),
                    }
                },
                Ok((Size::StringType(_), _)) => Err(RdbFileDecoderError::InvalidSection),
                Err(e) => Err(e),
            }
        },
        Ok((Size::StringType(_), _)) => Err(RdbFileDecoderError::MissingDbIndex),
        Err(e) => Err(e),
    }
}

/// The views of a vector of database sections.
pub open spec fn dbs_views(s: Seq<RdbDatabase>) -> Seq<SpecRdbDatabase> {
    Seq::new(s.len(), |i: int| s[i]@)
}

/// The run of database sections read from `p` into `acc`, ending at the
/// end-of-file tag, which is left unread.
pub open spec fn spec_parse_databases(s: Seq<u8>, p: int, acc: Seq<SpecRdbDatabase>) -> Result<
    (Seq<SpecRdbDatabase>, int),
    RdbFileDecoderError,
>
    decreases s.len() - p,
{
    if !(0 <= p < s.len()) {
        Err(RdbFileDecoderError::UnexpectedEnd)
    } else if s[p] == 255 {
        Ok((acc, p))
    } else if s[p] == 254 {
        match spec_parse_database(s, p) {
            Ok((db, p2)) => if p < p2 <= s.len() {
                spec_parse_databases(s, p2, acc.push(db))
            } else {
                Err(RdbFileDecoderError::InvalidSection)
            },
            Err(e) => Err(e),
        }
    } else {
        Err(RdbFileDecoderError::InvalidSection)
    }
}

/// Reads the run of database sections from `bytes` at `pos` into `acc`.
pub fn decode_databases_at(bytes: &Vec<u8>, pos: usize, acc: Vec<RdbDatabase>) -> (r: Result<
    (Vec<RdbDatabase>, usize),
    RdbFileDecoderError,
>)
    requires
        pos <= bytes@.len(),
        forall|i: int| 0 <= i < acc@.len() ==> (#[trigger] acc@[i]).data.wf(),
    ensures
        match r {
            Ok((dbs, end)) => spec_parse_databases(bytes@, pos as int, dbs_views(acc@)) == Ok::<
                (Seq<SpecRdbDatabase>, int),
                RdbFileDecoderError,
            >((dbs_views(dbs@), end as int)) && pos <= end < bytes@.len() && bytes@[end as int]
                == 255 && (forall|i: int|
                0 <= i < dbs@.len() ==> (#[trigger] dbs@[i]).data.wf()),
            Err(e) => spec_parse_databases(bytes@, pos as int, dbs_views(acc@)) == Err::<
                (Seq<SpecRdbDatabase>, int),
                RdbFileDecoderError,
            >(e),
        },
    decreases bytes@.len() - pos,
{
    if pos >= bytes.len() {
        return Err(RdbFileDecoderError::UnexpectedEnd);
    }
    let b = bytes[pos];
    if b == 255 {
        return Ok((acc, pos));
    }
    if b != 254 {
        return Err(RdbFileDecoderError::InvalidSection);
    }
    match decode_database_at(bytes, pos) {
        Ok((db, p2)) => {
            let ghost acc0 = acc@;
            let mut next = acc;
            next.push(db);
            proof {
                assert(dbs_views(next@) =~= dbs_views(acc0).push(next@[acc0.len() as int]@));
            }
            decode_databases_at(bytes, p2, next)
        },
        Err(e) => Err(e),
    }
}

/// The whole decoded snapshot.
#[derive(Debug)]
pub struct RdbData {
    pub header: RdbDataHeader,
    pub metadata: Option<RdbDataMetadata>,
    pub databases: Option<RdbDataDatabases>,
    pub checksum: u64,
}

/// The database sections of a snapshot, in file order.
#[derive(Debug)]
pub struct RdbDataDatabases {
    pub databases: Vec<RdbDatabase>,
}

/// The mathematical shape of a decoded snapshot.
pub struct SpecRdbData {
    pub header: SpecRdbHeader,
    pub metadata: Option<SpecRdbMetadata>,
    pub databases: Option<Seq<SpecRdbDatabase>>,
    pub checksum: u64,
}

impl View for RdbData {
    type V = SpecRdbData;

    open spec fn view(&self) -> SpecRdbData {
        SpecRdbData {
            header: self.header@,
            metadata: match self.metadata {
                Some(m) => Some(m@),
                None => None,
            },
            databases: match self.databases {
                Some(d) => Some(dbs_views(d.databases@)),
                None => None,
            },
            checksum: self.checksum,
        }
    }
}

/// A whole snapshot read from the front: header, metadata, databases, the
/// end-of-file tag, and eight checksum bytes kept opaque. Bytes after the
/// checksum are ignored.
pub open spec fn spec_parse_rdb(s: Seq<u8>) -> Result<SpecRdbData, RdbFileDecoderError> {
    match spec_parse_header(s, 0) {
        Ok((h, p1)) => match spec_parse_metadata(s, p1, empty_meta()) {
            Ok((m, p2)) => match spec_parse_databases(s, p2, Seq::empty()) {
                Ok((dbs, p3)) => {
                    if 0 <= p3 < s.len() && s[p3] == 255 && p3 + 9 <= s.len() {
                        Ok(
                            SpecRdbData {
                                header: h,
                                metadata: Some(m),
                                databases: if dbs.len() == 0 {
                                    None
                                } else {
                                    Some(dbs)
                                },
                                checksum: le64(s, p3 + 1) as u64,
                            },
                        )
                    } else {
                        Err(RdbFileDecoderError::UnexpectedEnd)
                    }
                },
                Err(e) => Err(e),
            },
            Err(e) => Err(e),
        },
        Err(e) => Err(e),
    }
}

/// The dispositions of seeding the store from a snapshot at startup: the
/// file could not be read, its bytes did not decode, or the store could not
/// be reached. The caller holding the file and the lock picks the variant.
#[derive(Debug, Clone, Copy, PartialEq, Eq)]
pub enum RdbSyncError {
    ReadFile,
    DecodeData,
    LockStore,
}

/// The snapshot decoder over an in-memory file image.
pub struct RdbFileDecoder {
    pub bytes: Vec<u8>,
}

impl RdbFileDecoder {
    /// A decoder over the given file image.
    pub fn new(bytes: Vec<u8>) -> (r: Self)
        ensures
            r.bytes == bytes,
    {
        Self { bytes }
    }

    /// Decodes the whole snapshot, exactly as `spec_parse_rdb` reads it; on
    /// any malformed section the error says which.
    pub fn decode(&self) -> (r: Result<RdbData, RdbFileDecoderError>)
        ensures
            match r {
                Ok(d) => spec_parse_rdb(self.bytes@) == Ok::<SpecRdbData, RdbFileDecoderError>(d@)
                    && (d.databases matches Some(dbs) ==> forall|i: int|
                    0 <= i < dbs.databases@.len() ==> (#[trigger] dbs.databases@[i]).data.wf()),
                Err(e) => spec_parse_rdb(self.bytes@) == Err::<SpecRdbData, RdbFileDecoderError>(
                    e,
                ),
            },
    {
        let bytes = &self.bytes;
        match decode_header_at(bytes, 0) {
            Ok((header, p1)) => {
                match decode_metadata_at(bytes, p1, RdbDataMetadata::new()) {
                    Ok((meta, p2)) => {
                        let empty_dbs: Vec<RdbDatabase> = Vec::new();
                        proof {
                            assert(dbs_views(empty_dbs@) =~= Seq::<SpecRdbDatabase>::empty());
                        }
                        match decode_databases_at(bytes, p2, empty_dbs) {
                            Ok((dbs, p3)) => {
                                if bytes.len() - p3 >= 9 {
                                    let c = (bytes[p3 + 1] as u64) + (bytes[p3 + 2] as u64) * 256 + (
                                    bytes[p3 + 3] as u64) * 65536 + (bytes[p3 + 4] as u64)
                                        * 16777216 + (bytes[p3 + 5] as u64) * 4294967296 + (
                                    bytes[p3 + 6] as u64) * 1099511627776 + (bytes[p3 + 7] as u64)
                                        * 281474976710656 + (bytes[p3 + 8] as u64)
                                        * 72057594037927936;
                                    proof {
                                        assert(c == le64(bytes@, p3 + 1));
                                    }
                                    let databases = if dbs.len() == 0 {
                                        None
                                    } else {
                                        Some(RdbDataDatabases { databases: dbs })
                                    };
                                    Ok(
                                        RdbData {
                                            header,
                                            metadata: Some(meta),
                                            databases,
                                            checksum: c,
                                        },
                                    )
                                } else {
                                    Err(RdbFileDecoderError::UnexpectedEnd)
                                }
                            },
                            Err(e) => Err(e),
                        }
                    },
                    Err(e) => Err(e),
                }
            },
            Err(e) => Err(e),
        }
    }
}

/// What loading a run of database sections into a store leaves behind: each
/// section poured in, in file order, later sections winning on a shared key.
pub open spec fn spec_apply_dbs(m: Map<Seq<u8>, SpecStoreValue>, dbs: Seq<SpecRdbDatabase>) -> Map<
    Seq<u8>,
    SpecStoreValue,
>
    decreases dbs.len(),
{
    if dbs.len() == 0 {
        m
    } else {
        spec_apply_dbs(m.union_prefer_right(dbs[0].data), dbs.drop_first())
    }
}

/// Pours a decoded snapshot into the store, database sections in file
/// order; a snapshot with no database section leaves the store as it was.
pub fn apply_rdb(data: &RdbData, store: &mut Store)
    requires
        old(store).wf(),
        data.databases matches Some(dbs) ==> forall|i: int|
            0 <= i < dbs.databases@.len() ==> (#[trigger] dbs.databases@[i]).data.wf(),
    ensures
        final(store).wf(),
        final(store)@ == match data@.databases {
            Some(dbs) => spec_apply_dbs(old(store)@, dbs),
            None => old(store)@,
        },
{
    match &data.databases {
        Some(wrap) => {
            let dbs = &wrap.databases;
            let ghost all = dbs_views(dbs@);
            let mut i: usize = 0;
            proof {
                assert(all.skip(0) =~= all);
            }
            while i < dbs.len()
                invariant
                    store.wf(),
                    0 <= i <= dbs@.len(),
                    all == dbs_views(dbs@),
                    forall|j: int| 0 <= j < dbs@.len() ==> (#[trigger] dbs@[j]).data.wf(),
                    spec_apply_dbs(old(store)@, all) == spec_apply_dbs(store@, all.skip(i as int)),
                decreases dbs@.len() - i,
            {
                let ghost before = store@;
                store.merge_from(&dbs[i].data);
                proof {
                    let rest = all.skip(i as int);
                    assert(rest.len() > 0);
                    assert(rest[0] == all[i as int]);
                    assert(all[i as int].data == dbs@[i as int].data@);
                    assert(rest.drop_first() =~= all.skip(i + 1));
                    assert(spec_apply_dbs(before, rest) == spec_apply_dbs(
                        before.union_prefer_right(rest[0].data),
                        rest.drop_first(),
                    ));
                }
                i = i + 1;
            }
            proof {
                assert(all.skip(all.len() as int) =~= Seq::<SpecRdbDatabase>::empty());
            }
        },
        None => {},
    }
}

/// Decodes a snapshot image and pours it into the store. On any decode
/// error the store is left exactly as it was: a malformed snapshot never
/// partly populates it.
pub fn load_snapshot(store: &mut Store, bytes: &Vec<u8>) -> (r: Result<(), RdbFileDecoderError>)
    requires
        old(store).wf(),
    ensures
        final(store).wf(),
        match r {
            Ok(_) => ({
                &&& spec_parse_rdb(bytes@) matches Ok(d)
                &&& spec_parse_rdb(bytes@) matches Ok(d) ==> final(store)@ == (match d.databases {
                    Some(dbs) => spec_apply_dbs(old(store)@, dbs),
                    None => old(store)@,
                })
            }),
            Err(e) => spec_parse_rdb(bytes@) == Err::<SpecRdbData, RdbFileDecoderError>(e)
                && final(store)@ == old(store)@,
        },
{
    let decoder = RdbFileDecoder::new(clone_bytes(bytes));
    match decoder.decode() {
        Ok(data) => {
            apply_rdb(&data, store);
            Ok(())
        },
        Err(e) => Err(e),
    }
}

/// Copies `bytes[from..to]` into a fresh vector.
fn copy_bytes_range(bytes: &Vec<u8>, from: usize, to: usize) -> (r: Vec<u8>)
    requires
        from <= to <= bytes@.len(),
    ensures
        r@ == bytes@.subrange(from as int, to as int),
{
    let mut out: Vec<u8> = Vec::new();
    let mut i: usize = from;
    while i < to
        invariant
            from <= i <= to <= bytes@.len(),
            out@ =~= bytes@.subrange(from as int, i as int),
        decreases to - i,
    {
        out.push(bytes[i]);
        assert(out@ =~= bytes@.subrange(from as int, i + 1));
        i = i + 1;
    }
    out
}

} // verus!
