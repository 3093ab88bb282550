//! Byte-level helpers shared by the wire codec and the command layer:
//! decimal text for lengths and integers, ASCII case folding for command
//! names, and plain byte-vector comparison.

use vstd::prelude::*;

verus! {

use vstd::arithmetic::div_mod::lemma_fundamental_div_mod;

/// Byte value of ASCII carriage return.
pub const CR: u8 = 13;

/// Byte value of ASCII line feed.
pub const LF: u8 = 10;

pub open spec fn is_digit(b: u8) -> bool {
    48 <= b <= 57
}

pub open spec fn all_digits(s: Seq<u8>) -> bool {
    forall|i: int| 0 <= i < s.len() ==> is_digit(#[trigger] s[i])
}

/// The decimal digits of `n`, most significant first, without leading zeros.
pub open spec fn dec_digits(n: nat) -> Seq<u8>
    decreases n,
{
    if n < 10 {
        seq![(48 + n) as u8]
    } else {
        dec_digits(n / 10).push((48 + n % 10) as u8)
    }
}

/// The numeric value of a decimal digit string, most significant first.
pub open spec fn dec_val(s: Seq<u8>) -> int
    decreases s.len(),
{
    if s.len() == 0 {
        0
    } else {
        dec_val(s.drop_last()) * 10 + (s.last() - 48)
    }
}

pub proof fn lemma_dec_digits_are_digits(n: nat)
    ensures
        dec_digits(n).len() >= 1,
        all_digits(dec_digits(n)),
    decreases n,
{
    if n >= 10 {
        lemma_dec_digits_are_digits(n / 10);
    }
}

pub proof fn lemma_dec_val_of_dec_digits(n: nat)
    ensures
        dec_val(dec_digits(n)) == n,
    decreases n,
{
    if n < 10 {
        assert(dec_digits(n).drop_last() =~= Seq::<u8>::empty());
        assert(dec_val(Seq::<u8>::empty()) == 0);
        assert(dec_digits(n).last() == (48 + n) as u8);
        assert(dec_val(dec_digits(n)) == ((48 + n) as u8) - 48);
    } else {
        lemma_dec_val_of_dec_digits(n / 10);
        assert(dec_digits(n).drop_last() =~= dec_digits(n / 10));
        lemma_fundamental_div_mod(n as int, 10);
        assert(0 <= n % 10 < 10);
        assert(dec_digits(n).last() == (48 + n % 10) as u8);
        assert(dec_val(dec_digits(n)) == dec_val(dec_digits(n / 10)) * 10 + (((48 + n % 10) as u8)
            - 48));
    }
}

pub proof fn lemma_dec_val_nonneg(s: Seq<u8>)
    requires
        all_digits(s),
    ensures
        dec_val(s) >= 0,
    decreases s.len(),
{
    if s.len() > 0 {
        lemma_dec_val_nonneg(s.drop_last());
    }
}

/// Extending an all-digit string on the right never lowers its value.
pub proof fn lemma_dec_val_prefix_le(s: Seq<u8>, k: int)
    requires
        all_digits(s),
        0 <= k <= s.len(),
    ensures
        dec_val(s.subrange(0, k)) <= dec_val(s),
    decreases s.len() - k,
{
    if k < s.len() {
        lemma_dec_val_prefix_le(s, k + 1);
        let p = s.subrange(0, k + 1);
        assert(p.drop_last() =~= s.subrange(0, k));
        lemma_dec_val_nonneg(s.subrange(0, k));
    } else {
        assert(s.subrange(0, k) =~= s);
    }
}

/// Appends the decimal digits of `n` to `out`.
pub fn push_dec_digits(n: u64, out: &mut Vec<u8>)
    ensures
        final(out)@ == old(out)@ + dec_digits(n as nat),
    decreases n,
{
    if n < 10 {
        out.push(48 + n as u8);
        assert(final(out)@ =~= old(out)@ + dec_digits(n as nat));
    } else {
        push_dec_digits(n / 10, out);
        out.push(48 + (n % 10) as u8);
        assert(final(out)@ =~= old(out)@ + dec_digits(n as nat));
    }
}

/// The decimal digits of `n` as a byte vector.
pub fn u64_dec_digits(n: u64) -> (r: Vec<u8>)
    ensures
        r@ == dec_digits(n as nat),
{
    let mut out: Vec<u8> = Vec::new();
    push_dec_digits(n, &mut out);
    assert(out@ =~= dec_digits(n as nat));
    out
}

/// Reads the decimal value of `bytes[start..end]`, if that range is a
/// non-empty digit string whose value fits in `usize`.
pub fn parse_dec_range(bytes: &Vec<u8>, start: usize, end: usize) -> (r: Option<usize>)
    requires
        start <= end <= bytes@.len(),
    ensures
        match r {
            Some(v) => {
                &&& start < end
                &&& all_digits(bytes@.subrange(start as int, end as int))
                &&& dec_val(bytes@.subrange(start as int, end as int)) == v
            },
            None => !{
                &&& start < end
                &&& all_digits(bytes@.subrange(start as int, end as int))
                &&& dec_val(bytes@.subrange(start as int, end as int)) <= usize::MAX
            },
        },
{
    if start == end {
        return None;
    }
    let ghost seg = bytes@.subrange(start as int, end as int);
    let mut i = start;
    let mut acc: usize = 0;
    while i < end
        invariant
            start <= i <= end <= bytes@.len(),
            seg == bytes@.subrange(start as int, end as int),
            all_digits(seg.subrange(0, i - start)),
            acc == dec_val(seg.subrange(0, i - start)),
        decreases end - i,
    {
        let b = bytes[i];
        assert(seg[i - start] == b);
        if b < 48 || b > 57 {
            return None;
        }
        let d = (b - 48) as usize;
        if acc > (usize::MAX - d) / 10 {
            proof {
                let p = seg.subrange(0, i - start + 1);
                assert(p.drop_last() =~= seg.subrange(0, i - start));
                assert(p.last() == b);
                lemma_fundamental_div_mod(usize::MAX - d, 10);
                assert(dec_val(p) > usize::MAX);
                if all_digits(seg) {
                    lemma_dec_val_prefix_le(seg, i - start + 1);
                }
            }
            return None;
        }
        proof {
            let p = seg.subrange(0, i - start + 1);
            assert(p.drop_last() =~= seg.subrange(0, i - start));
            assert(p.last() == b);
            lemma_fundamental_div_mod(usize::MAX - d, 10);
        }
        acc = acc * 10 + d;
        i = i + 1;
    }
    assert(seg.subrange(0, end - start) =~= seg);
    Some(acc)
}

/// Appends every byte of `src` to `out`.
pub fn push_all(out: &mut Vec<u8>, src: &Vec<u8>)
    ensures
        final(out)@ == old(out)@ + src@,
{
    let mut i: usize = 0;
    while i < src.len()
        invariant
            0 <= i <= src@.len(),
            out@ == old(out)@ + src@.subrange(0, i as int),
        decreases src@.len() - i,
    {
        out.push(src[i]);
        assert(out@ =~= old(out)@ + src@.subrange(0, i + 1));
        i = i + 1;
    }
    assert(src@.subrange(0, src@.len() as int) =~= src@);
}

/// ASCII upper-case fold of one byte.
pub open spec fn upper_byte(b: u8) -> u8 {
    if 97 <= b <= 122 {
        (b - 32) as u8
    } else {
        b
    }
}

/// ASCII upper-case fold of a byte string.
pub open spec fn upper_seq(s: Seq<u8>) -> Seq<u8> {
    s.map_values(|b: u8| upper_byte(b))
}

/// Upper-cases the ASCII letters of `v`, leaving every other byte as it is.
pub fn to_upper(v: &Vec<u8>) -> (r: Vec<u8>)
    ensures
        r@ == upper_seq(v@),
{
    let mut out: Vec<u8> = Vec::new();
    let mut i: usize = 0;
    while i < v.len()
        invariant
            0 <= i <= v@.len(),
            out@.len() == i,
            forall|j: int| 0 <= j < i ==> out@[j] == upper_byte(v@[j]),
        decreases v@.len() - i,
    {
        let b = v[i];
        if 97 <= b && b <= 122 {
            out.push(b - 32);
        } else {
            out.push(b);
        }
        i = i + 1;
    }
    assert(out@ =~= upper_seq(v@));
    out
}

/// Whether two byte vectors hold the same bytes.
pub fn bytes_eq(a: &Vec<u8>, b: &Vec<u8>) -> (r: bool)
    ensures
        r == (a@ == b@),
{
    if a.len() != b.len() {
        assert(a@ != b@);
        return false;
    }
    let mut i: usize = 0;
    while i < a.len()
        invariant
            0 <= i <= a@.len(),
            a@.len() == b@.len(),
            forall|j: int| 0 <= j < i ==> a@[j] == b@[j],
        decreases a@.len() - i,
    {
        if a[i] != b[i] {
            return false;
        }
        i = i + 1;
    }
    proof {
        assert(a@ =~= b@);
    }
    true
}

/// Copies a byte slice into a fresh vector.
pub fn vec_of(p: &[u8]) -> (r: Vec<u8>)
    ensures
        r@ == p@,
{
    let mut out: Vec<u8> = Vec::new();
    let mut i: usize = 0;
    while i < p.len()
        invariant
            0 <= i <= p@.len(),
            out@ =~= p@.subrange(0, i as int),
        decreases p@.len() - i,
    {
        out.push(p[i]);
        assert(out@ =~= p@.subrange(0, i + 1));
        i = i + 1;
    }
    assert(p@.subrange(0, p@.len() as int) =~= p@);
    out
}

/// Whether a byte vector holds exactly the bytes of a slice.
pub fn bytes_eq_slice(a: &Vec<u8>, p: &[u8]) -> (r: bool)
    ensures
        r == (a@ == p@),
{
    if a.len() != p.len() {
        assert(a@ != p@);
        return false;
    }
    let mut i: usize = 0;
    while i < a.len()
        invariant
            0 <= i <= a@.len(),
            a@.len() == p@.len(),
            forall|j: int| 0 <= j < i ==> a@[j] == p@[j],
        decreases a@.len() - i,
    {
        if a[i] != p[i] {
            return false;
        }
        i = i + 1;
    }
    proof {
        assert(a@ =~= p@);
    }
    true
}

/// Whether `p` is a prefix of `s`.
pub open spec fn is_prefix(p: Seq<u8>, s: Seq<u8>) -> bool {
    p.len() <= s.len() && s.subrange(0, p.len() as int) == p
}

/// Whether the byte slice `p` is a prefix of `s`.
pub fn has_prefix(s: &Vec<u8>, p: &[u8]) -> (r: bool)
    ensures
        r == is_prefix(p@, s@),
{
    if p.len() > s.len() {
        return false;
    }
    let mut i: usize = 0;
    while i < p.len()
        invariant
            0 <= i <= p@.len() <= s@.len(),
            forall|j: int| 0 <= j < i ==> s@[j] == p@[j],
        decreases p@.len() - i,
    {
        if s[i] != p[i] {
            assert(s@.subrange(0, p@.len() as int)[i as int] != p@[i as int]);
            return false;
        }
        i = i + 1;
    }
    proof {
        assert(s@.subrange(0, p@.len() as int) =~= p@);
    }
    true
}

} // verus!
