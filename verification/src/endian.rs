//! Fixed-width integers as bytes, in both byte orders.
use vstd::prelude::*;

verus! {

/// The value of two little-endian bytes starting at `at`.
pub open spec fn le16(s: Seq<u8>, at: int) -> int {
    s[at] + s[at + 1] * 0x100
}

/// The value of four little-endian bytes starting at `at`.
pub open spec fn le32(s: Seq<u8>, at: int) -> int {
    le16(s, at) + le16(s, at + 2) * 0x1_0000
}

/// The value of eight little-endian bytes starting at `at`.
pub open spec fn le64(s: Seq<u8>, at: int) -> int {
    le32(s, at) + le32(s, at + 4) * 0x1_0000_0000
}

/// The value of two big-endian bytes starting at `at`.
pub open spec fn be16(s: Seq<u8>, at: int) -> int {
    s[at] * 0x100 + s[at + 1]
}

/// The value of four big-endian bytes starting at `at`.
pub open spec fn be32(s: Seq<u8>, at: int) -> int {
    be16(s, at) * 0x1_0000 + be16(s, at + 2)
}

/// The value of eight big-endian bytes starting at `at`.
pub open spec fn be64(s: Seq<u8>, at: int) -> int {
    be32(s, at) * 0x1_0000_0000 + be32(s, at + 4)
}

/// The two little-endian bytes of `v`.
pub open spec fn le16_bytes(v: u16) -> Seq<u8> {
    seq![(v % 0x100) as u8, (v / 0x100) as u8]
}

/// The four little-endian bytes of `v`.
pub open spec fn le32_bytes(v: u32) -> Seq<u8> {
    le16_bytes((v % 0x1_0000) as u16) + le16_bytes((v / 0x1_0000) as u16)
}

/// The eight little-endian bytes of `v`.
pub open spec fn le64_bytes(v: u64) -> Seq<u8> {
    le32_bytes((v % 0x1_0000_0000) as u32) + le32_bytes((v / 0x1_0000_0000) as u32)
}

/// The two big-endian bytes of `v`.
pub open spec fn be16_bytes(v: u16) -> Seq<u8> {
    seq![(v / 0x100) as u8, (v % 0x100) as u8]
}

/// The four big-endian bytes of `v`.
pub open spec fn be32_bytes(v: u32) -> Seq<u8> {
    be16_bytes((v / 0x1_0000) as u16) + be16_bytes((v % 0x1_0000) as u16)
}

/// The eight big-endian bytes of `v`.
pub open spec fn be64_bytes(v: u64) -> Seq<u8> {
    be32_bytes((v / 0x1_0000_0000) as u32) + be32_bytes((v % 0x1_0000_0000) as u32)
}

/// Reads two little-endian bytes.
pub fn read_le16(s: &[u8], at: usize) -> (v: u16)
    requires
        at + 2 <= s.len(),
    ensures
        v == le16(s@, at as int),
{
    s[at] as u16 + s[at + 1] as u16 * 0x100
}

/// Reads four little-endian bytes.
pub fn read_le32(s: &[u8], at: usize) -> (v: u32)
    requires
        at + 4 <= s.len(),
    ensures
        v == le32(s@, at as int),
{
    read_le16(s, at) as u32 + read_le16(s, at + 2) as u32 * 0x1_0000
}

/// Reads eight little-endian bytes.
pub fn read_le64(s: &[u8], at: usize) -> (v: u64)
    requires
        at + 8 <= s.len(),
    ensures
        v == le64(s@, at as int),
{
    read_le32(s, at) as u64 + read_le32(s, at + 4) as u64 * 0x1_0000_0000
}

/// Reads two big-endian bytes.
pub fn read_be16(s: &[u8], at: usize) -> (v: u16)
    requires
        at + 2 <= s.len(),
    ensures
        v == be16(s@, at as int),
{
    s[at] as u16 * 0x100 + s[at + 1] as u16
}

/// Reads four big-endian bytes.
pub fn read_be32(s: &[u8], at: usize) -> (v: u32)
    requires
        at + 4 <= s.len(),
    ensures
        v == be32(s@, at as int),
{
    read_be16(s, at) as u32 * 0x1_0000 + read_be16(s, at + 2) as u32
}

/// Reads eight big-endian bytes.
pub fn read_be64(s: &[u8], at: usize) -> (v: u64)
    requires
        at + 8 <= s.len(),
    ensures
        v == be64(s@, at as int),
{
    read_be32(s, at) as u64 * 0x1_0000_0000 + read_be32(s, at + 4) as u64
}

/// Appends the two little-endian bytes of `v`.
pub fn push_le16(out: &mut Vec<u8>, v: u16)
    ensures
        final(out)@ == old(out)@ + le16_bytes(v),
{
    out.push((v % 0x100) as u8);
    out.push((v / 0x100) as u8);
}

/// Appends the four little-endian bytes of `v`.
pub fn push_le32(out: &mut Vec<u8>, v: u32)
    ensures
        final(out)@ == old(out)@ + le32_bytes(v),
{
    push_le16(out, (v % 0x1_0000) as u16);
    push_le16(out, (v / 0x1_0000) as u16);
}

/// Appends the eight little-endian bytes of `v`.
pub fn push_le64(out: &mut Vec<u8>, v: u64)
    ensures
        final(out)@ == old(out)@ + le64_bytes(v),
{
    push_le32(out, (v % 0x1_0000_0000) as u32);
    push_le32(out, (v / 0x1_0000_0000) as u32);
}

/// Appends the two big-endian bytes of `v`.
pub fn push_be16(out: &mut Vec<u8>, v: u16)
    ensures
        final(out)@ == old(out)@ + be16_bytes(v),
{
    out.push((v / 0x100) as u8);
    out.push((v % 0x100) as u8);
}

/// Appends the four big-endian bytes of `v`.
pub fn push_be32(out: &mut Vec<u8>, v: u32)
    ensures
        final(out)@ == old(out)@ + be32_bytes(v),
{
    push_be16(out, (v / 0x1_0000) as u16);
    push_be16(out, (v % 0x1_0000) as u16);
}

/// Appends the eight big-endian bytes of `v`.
pub fn push_be64(out: &mut Vec<u8>, v: u64)
    ensures
        final(out)@ == old(out)@ + be64_bytes(v),
{
    push_be32(out, (v / 0x1_0000_0000) as u32);
    push_be32(out, (v % 0x1_0000_0000) as u32);
}

/// Reading at `at` what was written there gives the value back, in both byte orders.
pub proof fn lemma_round_trip_16(s: Seq<u8>, at: int, v: u16)
    requires
        0 <= at,
        at + 2 <= s.len(),
    ensures
        s.subrange(at, at + 2) == le16_bytes(v) ==> le16(s, at) == v,
        s.subrange(at, at + 2) == be16_bytes(v) ==> be16(s, at) == v,
{
    let part = s.subrange(at, at + 2);
    assert(part[0] == s[at] && part[1] == s[at + 1]);
}

/// As [`lemma_round_trip_16`], for four bytes.
pub proof fn lemma_round_trip_32(s: Seq<u8>, at: int, v: u32)
    requires
        0 <= at,
        at + 4 <= s.len(),
    ensures
        s.subrange(at, at + 4) == le32_bytes(v) ==> le32(s, at) == v,
        s.subrange(at, at + 4) == be32_bytes(v) ==> be32(s, at) == v,
{
    let part = s.subrange(at, at + 4);
    assert(part[0] == s[at] && part[1] == s[at + 1] && part[2] == s[at + 2] && part[3] == s[at + 3]);
}

/// As [`lemma_round_trip_16`], for eight bytes.
pub proof fn lemma_round_trip_64(s: Seq<u8>, at: int, v: u64)
    requires
        0 <= at,
        at + 8 <= s.len(),
    ensures
        s.subrange(at, at + 8) == le64_bytes(v) ==> le64(s, at) == v,
        s.subrange(at, at + 8) == be64_bytes(v) ==> be64(s, at) == v,
{
    let part = s.subrange(at, at + 8);
    let lo = (v % 0x1_0000_0000) as u32;
    let hi = (v / 0x1_0000_0000) as u32;
    if part == le64_bytes(v) {
        assert(s.subrange(at, at + 4) =~= part.subrange(0, 4));
        assert(s.subrange(at + 4, at + 8) =~= part.subrange(4, 8));
        assert(part.subrange(0, 4) =~= le32_bytes(lo));
        assert(part.subrange(4, 8) =~= le32_bytes(hi));
        lemma_round_trip_32(s, at, lo);
        lemma_round_trip_32(s, at + 4, hi);
    }
    if part == be64_bytes(v) {
        assert(s.subrange(at, at + 4) =~= part.subrange(0, 4));
        assert(s.subrange(at + 4, at + 8) =~= part.subrange(4, 8));
        assert(part.subrange(0, 4) =~= be32_bytes(hi));
        assert(part.subrange(4, 8) =~= be32_bytes(lo));
        lemma_round_trip_32(s, at, hi);
        lemma_round_trip_32(s, at + 4, lo);
    }
}

/// Of little-endian bytes each weighs 256 times the one before it, of big-endian bytes each 256
/// times the one behind it, and reversing the bytes turns one into the other.
pub proof fn law_bytes_weigh_by_their_place(s: Seq<u8>)
    requires
        s.len() == 8,
    ensures
        le16(s, 0) == s[0] + 256 * s[1],
        le32(s, 0) == s[0] + 256 * s[1] + 65536 * s[2] + 16777216 * s[3],
        be16(s, 0) == 256 * s[0] + s[1],
        be32(s, 0) == 16777216 * s[0] + 65536 * s[1] + 256 * s[2] + s[3],
        le64(s, 0) == le32(s, 0) + 4294967296 * le32(s, 4),
        be64(s, 0) == le64(s.reverse(), 0),
{
}

} // verus!
