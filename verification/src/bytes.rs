//! Big-endian encodings of fixed-width words.
use vstd::prelude::*;

verus! {

/// The two big-endian bytes of `v`.
pub open spec fn be16(v: u16) -> Seq<u8> {
    seq![(v >> 8u16) as u8, v as u8]
}

/// The four big-endian bytes of `v`.
pub open spec fn be32(v: u32) -> Seq<u8> {
    seq![(v >> 24u32) as u8, (v >> 16u32) as u8, (v >> 8u32) as u8, v as u8]
}

/// The eight big-endian bytes of `v`.
pub open spec fn be64(v: u64) -> Seq<u8> {
    seq![
        (v >> 56u64) as u8,
        (v >> 48u64) as u8,
        (v >> 40u64) as u8,
        (v >> 32u64) as u8,
        (v >> 24u64) as u8,
        (v >> 16u64) as u8,
        (v >> 8u64) as u8,
        v as u8,
    ]
}

/// The word whose big-endian bytes are the first two of `s`.
pub open spec fn word16(s: Seq<u8>) -> u16 {
    ((s[0] as u16) << 8u16) | (s[1] as u16)
}

/// The word whose big-endian bytes are the first four of `s`.
pub open spec fn word32(s: Seq<u8>) -> u32 {
    ((s[0] as u32) << 24u32) | ((s[1] as u32) << 16u32) | ((s[2] as u32) << 8u32) | (s[3] as u32)
}

/// The word whose big-endian bytes are the first eight of `s`.
pub open spec fn word64(s: Seq<u8>) -> u64 {
    ((s[0] as u64) << 56u64) | ((s[1] as u64) << 48u64) | ((s[2] as u64) << 40u64) | ((s[3] as u64)
        << 32u64) | ((s[4] as u64) << 24u64) | ((s[5] as u64) << 16u64) | ((s[6] as u64) << 8u64)
        | (s[7] as u64)
}

pub proof fn lemma_word16_be16(v: u16)
    ensures
        word16(be16(v)) == v,
{
    let s = be16(v);
    let (b0, b1) = (s[0], s[1]);
    assert(b0 == (v >> 8u16) as u8 && b1 == v as u8);
    assert(((((v >> 8u16) as u8) as u16) << 8u16) | ((v as u8) as u16) == v) by (bit_vector);
}

pub proof fn lemma_be16_word16(s: Seq<u8>)
    requires
        s.len() == 2,
    ensures
        be16(word16(s)) =~= s,
{
    let (b0, b1) = (s[0], s[1]);
    assert((((((b0 as u16) << 8u16) | (b1 as u16)) >> 8u16) as u8 == b0) && ((((b0 as u16)
        << 8u16) | (b1 as u16)) as u8 == b1)) by (bit_vector);
}

pub proof fn lemma_word32_be32(v: u32)
    ensures
        word32(be32(v)) == v,
{
    let s = be32(v);
    assert(s[0] == (v >> 24u32) as u8 && s[1] == (v >> 16u32) as u8 && s[2] == (v >> 8u32) as u8
        && s[3] == v as u8);
    assert((((((v >> 24u32) as u8) as u32) << 24u32) | ((((v >> 16u32) as u8) as u32) << 16u32)
        | ((((v >> 8u32) as u8) as u32) << 8u32) | ((v as u8) as u32)) == v) by (bit_vector);
}

pub proof fn lemma_be32_word32(s: Seq<u8>)
    requires
        s.len() == 4,
    ensures
        be32(word32(s)) =~= s,
{
    let (b0, b1, b2, b3) = (s[0], s[1], s[2], s[3]);
    let w = word32(s);
    assert(w == ((b0 as u32) << 24u32) | ((b1 as u32) << 16u32) | ((b2 as u32) << 8u32) | (b3 as u32));
    assert({
        let w = ((b0 as u32) << 24u32) | ((b1 as u32) << 16u32) | ((b2 as u32) << 8u32) | (b3 as u32);
        &&& (w >> 24u32) as u8 == b0
        &&& (w >> 16u32) as u8 == b1
        &&& (w >> 8u32) as u8 == b2
        &&& w as u8 == b3
    }) by (bit_vector);
}

pub proof fn lemma_word64_be64(v: u64)
    ensures
        word64(be64(v)) == v,
{
    let s = be64(v);
    assert(s[0] == (v >> 56u64) as u8 && s[1] == (v >> 48u64) as u8 && s[2] == (v >> 40u64) as u8
        && s[3] == (v >> 32u64) as u8 && s[4] == (v >> 24u64) as u8 && s[5] == (v >> 16u64) as u8
        && s[6] == (v >> 8u64) as u8 && s[7] == v as u8);
    assert((((((v >> 56u64) as u8) as u64) << 56u64) | ((((v >> 48u64) as u8) as u64) << 48u64)
        | ((((v >> 40u64) as u8) as u64) << 40u64) | ((((v >> 32u64) as u8) as u64) << 32u64)
        | ((((v >> 24u64) as u8) as u64) << 24u64) | ((((v >> 16u64) as u8) as u64) << 16u64)
        | ((((v >> 8u64) as u8) as u64) << 8u64) | ((v as u8) as u64)) == v) by (bit_vector);
}

pub proof fn lemma_be64_word64(s: Seq<u8>)
    requires
        s.len() == 8,
    ensures
        be64(word64(s)) =~= s,
{
    let (b0, b1, b2, b3, b4, b5, b6, b7) = (s[0], s[1], s[2], s[3], s[4], s[5], s[6], s[7]);
    let w = word64(s);
    assert(w == ((b0 as u64) << 56u64) | ((b1 as u64) << 48u64) | ((b2 as u64) << 40u64) | ((
    b3 as u64) << 32u64) | ((b4 as u64) << 24u64) | ((b5 as u64) << 16u64) | ((b6 as u64) << 8u64)
        | (b7 as u64));
    assert({
        let w = ((b0 as u64) << 56u64) | ((b1 as u64) << 48u64) | ((b2 as u64) << 40u64) | ((
        b3 as u64) << 32u64) | ((b4 as u64) << 24u64) | ((b5 as u64) << 16u64) | ((b6 as u64)
            << 8u64) | (b7 as u64);
        &&& (w >> 56u64) as u8 == b0
        &&& (w >> 48u64) as u8 == b1
        &&& (w >> 40u64) as u8 == b2
        &&& (w >> 32u64) as u8 == b3
        &&& (w >> 24u64) as u8 == b4
        &&& (w >> 16u64) as u8 == b5
        &&& (w >> 8u64) as u8 == b6
        &&& w as u8 == b7
    }) by (bit_vector);
}

/// Two words with the same big-endian bytes are the same word.
pub proof fn lemma_be64_injective(a: u64, b: u64)
    requires
        be64(a) == be64(b),
    ensures
        a == b,
{
    lemma_word64_be64(a);
    lemma_word64_be64(b);
}

/// Appends the two big-endian bytes of `v`.
pub fn push_be16(out: &mut Vec<u8>, v: u16)
    ensures
        final(out)@ == old(out)@ + be16(v),
{
    out.push((v >> 8u16) as u8);
    out.push(v as u8);
    assert(final(out)@ =~= old(out)@ + be16(v));
}

/// Appends the four big-endian bytes of `v`.
pub fn push_be32(out: &mut Vec<u8>, v: u32)
    ensures
        final(out)@ == old(out)@ + be32(v),
{
    out.push((v >> 24u32) as u8);
    out.push((v >> 16u32) as u8);
    out.push((v >> 8u32) as u8);
    out.push(v as u8);
    assert(final(out)@ =~= old(out)@ + be32(v));
}

/// Appends the eight big-endian bytes of `v`.
pub fn push_be64(out: &mut Vec<u8>, v: u64)
    ensures
        final(out)@ == old(out)@ + be64(v),
{
    out.push((v >> 56u64) as u8);
    out.push((v >> 48u64) as u8);
    out.push((v >> 40u64) as u8);
    out.push((v >> 32u64) as u8);
    out.push((v >> 24u64) as u8);
    out.push((v >> 16u64) as u8);
    out.push((v >> 8u64) as u8);
    out.push(v as u8);
    assert(final(out)@ =~= old(out)@ + be64(v));
}

/// Reads the big-endian word stored in `s[at..at + 2]`.
pub fn read_be16(s: &[u8], at: usize) -> (r: u16)
    requires
        at + 2 <= s@.len(),
    ensures
        r == word16(s@.subrange(at as int, at + 2)),
{
    ((s[at] as u16) << 8u16) | (s[at + 1] as u16)
}

/// Reads the big-endian word stored in `s[at..at + 4]`.
pub fn read_be32(s: &[u8], at: usize) -> (r: u32)
    requires
        at + 4 <= s@.len(),
    ensures
        r == word32(s@.subrange(at as int, at + 4)),
{
    ((s[at] as u32) << 24u32) | ((s[at + 1] as u32) << 16u32) | ((s[at + 2] as u32) << 8u32) | (s[at
        + 3] as u32)
}

/// Reads the big-endian word stored in `s[at..at + 8]`.
pub fn read_be64(s: &[u8], at: usize) -> (r: u64)
    requires
        at + 8 <= s@.len(),
    ensures
        r == word64(s@.subrange(at as int, at + 8)),
{
    ((s[at] as u64) << 56u64) | ((s[at + 1] as u64) << 48u64) | ((s[at + 2] as u64) << 40u64) | ((s[at
        + 3] as u64) << 32u64) | ((s[at + 4] as u64) << 24u64) | ((s[at + 5] as u64) << 16u64) | ((s[at
        + 6] as u64) << 8u64) | (s[at + 7] as u64)
}

} // verus!
