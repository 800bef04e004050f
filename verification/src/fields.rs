//! Numbers in the fields of a message, as one who reads it finds them.

use vstd::prelude::*;

use crate::wire::{
    be16, be16_at, le16, le16_at, le32, le32_at, le64, le64_at, zeros,
};

verus! {

/// The number in the two bytes at `i`, low byte first.
pub open spec fn u16_at(s: Seq<u8>, i: int) -> int {
    s[i] + 256 * s[i + 1]
}

/// The number in the two bytes at `i`, high byte first.
pub open spec fn big_at(s: Seq<u8>, i: int) -> int {
    256 * s[i] + s[i + 1]
}

/// The number in the four bytes at `i`, low byte first.
pub open spec fn u32_at(s: Seq<u8>, i: int) -> int {
    s[i] + 256 * s[i + 1] + 65536 * s[i + 2] + 16777216 * s[i + 3]
}

/// The number in the eight bytes at `i`, low byte first.
pub open spec fn u64_at(s: Seq<u8>, i: int) -> int {
    u32_at(s, i) + 0x1_0000_0000 * u32_at(s, i + 4)
}

/// A number in two bytes, low byte first.
pub open spec fn two_bytes(v: u16) -> Seq<u8> {
    seq![(v % 256) as u8, (v / 256) as u8]
}

/// A number in four bytes, low byte first.
pub open spec fn four_bytes(v: u32) -> Seq<u8> {
    seq![
        (v % 256) as u8,
        (v / 256 % 256) as u8,
        (v / 65536 % 256) as u8,
        (v / 16777216) as u8,
    ]
}

/// A number in eight bytes, low byte first.
pub open spec fn eight_bytes(v: u64) -> Seq<u8> {
    four_bytes((v % 0x1_0000_0000) as u32) + four_bytes((v / 0x1_0000_0000) as u32)
}

/// What is written in bytes is read from them, wherever they stand.
pub proof fn lemma_bytes(before: Seq<u8>, a: u16, b: u32, c: u64, after: Seq<u8>)
    ensures
        le16_at(before + two_bytes(a) + after, before.len() as int) == a,
        le32_at(before + four_bytes(b) + after, before.len() as int) == b,
        le64_at(before + eight_bytes(c) + after, before.len() as int) == c,
{
    lemma_fields(before, a, b, c, after);
    assert(two_bytes(a) =~= le16(a));
    assert(four_bytes(b) =~= le32(b));
    let low = (c % 0x1_0000_0000) as u32;
    let high = (c / 0x1_0000_0000) as u32;
    assert(four_bytes(low) =~= le32(low));
    assert(four_bytes(high) =~= le32(high));
    assert(eight_bytes(c) =~= le64(c));
    numbers_are_read(before + le16(a) + after, before.len() as int);
    numbers_are_read(before + le32(b) + after, before.len() as int);
    numbers_are_read(before + le64(c) + after, before.len() as int);
}

/// Numbers are written low byte first.
pub proof fn lemma_written(a: u16, b: u32, c: u64)
    ensures
        le16(a) == two_bytes(a),
        le32(b) == four_bytes(b),
        le64(c) == eight_bytes(c),
{
    assert(le16(a) =~= two_bytes(a));
    assert(le32(b) =~= four_bytes(b));
    let low = (c % 0x1_0000_0000) as u32;
    let high = (c / 0x1_0000_0000) as u32;
    assert(le32(low) =~= four_bytes(low));
    assert(le32(high) =~= four_bytes(high));
}

/// A number is read where its bytes stand.
pub proof fn lemma_four_at(s: Seq<u8>, i: int, v: u32)
    requires
        0 <= i,
        i + 4 <= s.len(),
        s.subrange(i, i + 4) == four_bytes(v),
    ensures
        le32_at(s, i) == v,
        u32_at(s, i) == v,
{
    let part = s.subrange(i, i + 4);
    assert(part[0] == s[i] && part[1] == s[i + 1] && part[2] == s[i + 2] && part[3] == s[i + 3]);
}

/// A number is read where its bytes stand.
pub proof fn lemma_eight_at(s: Seq<u8>, i: int, v: u64)
    requires
        0 <= i,
        i + 8 <= s.len(),
        s.subrange(i, i + 8) == eight_bytes(v),
    ensures
        le64_at(s, i) == v,
        u64_at(s, i) == v,
{
    let part = s.subrange(i, i + 8);
    let low = (v % 0x1_0000_0000) as u32;
    let high = (v / 0x1_0000_0000) as u32;
    assert(s.subrange(i, i + 4) =~= part.subrange(0, 4));
    assert(part.subrange(0, 4) =~= four_bytes(low));
    assert(s.subrange(i + 4, i + 8) =~= part.subrange(4, 8));
    assert(part.subrange(4, 8) =~= four_bytes(high));
    lemma_four_at(s, i, low);
    lemma_four_at(s, i + 4, high);
}

/// A number is read where its bytes stand.
pub proof fn lemma_two_at(s: Seq<u8>, i: int, v: u16)
    requires
        0 <= i,
        i + 2 <= s.len(),
        s.subrange(i, i + 2) == two_bytes(v),
    ensures
        le16_at(s, i) == v,
        u16_at(s, i) == v,
{
    let part = s.subrange(i, i + 2);
    assert(part[0] == s[i] && part[1] == s[i + 1]);
}

/// Numbers are read from the bytes that they are made of.
pub proof fn numbers_are_read(s: Seq<u8>, i: int)
    ensures
        le16_at(s, i) == u16_at(s, i),
        be16_at(s, i) == big_at(s, i),
        le32_at(s, i) == u32_at(s, i),
        le64_at(s, i) == u64_at(s, i),
{
}

/// Numbers are written in the bytes that they are made of.
pub proof fn numbers_are_written(a: u16, b: u32, c: u64)
    ensures
        le16(a).len() == 2,
        u16_at(le16(a), 0) == a,
        be16(a).len() == 2,
        big_at(be16(a), 0) == a,
        le32(b).len() == 4,
        u32_at(le32(b), 0) == b,
        le64(c).len() == 8,
        u64_at(le64(c), 0) == c,
{
    let low = (c % 0x1_0000_0000) as u32;
    let high = (c / 0x1_0000_0000) as u32;
    lemma_u32(low);
    lemma_u32(high);
    lemma_u32(b);
    let s = le64(c);
    assert(s[0] == le32(low)[0] && s[1] == le32(low)[1] && s[2] == le32(low)[2] && s[3]
        == le32(low)[3]);
    assert(s[4] == le32(high)[0] && s[5] == le32(high)[1] && s[6] == le32(high)[2] && s[7]
        == le32(high)[3]);
}

proof fn lemma_u32(v: u32)
    ensures
        u32_at(le32(v), 0) == v,
{
}

/// Zeros are zeros.
pub proof fn zeros_are_zero(n: nat)
    ensures
        zeros(n).len() == n,
        forall|i: int| 0 <= i < n ==> #[trigger] zeros(n)[i] == 0,
{
}

/// What is written behind `before` is read there.
pub proof fn lemma_fields(before: Seq<u8>, a: u16, b: u32, c: u64, after: Seq<u8>)
    ensures
        u16_at(before + le16(a) + after, before.len() as int) == a,
        big_at(before + be16(a) + after, before.len() as int) == a,
        u32_at(before + le32(b) + after, before.len() as int) == b,
        u64_at(before + le64(c) + after, before.len() as int) == c,
{
    crate::wire::le16_round_trip(before, a, after);
    crate::wire::be16_round_trip(before, a, after);
    crate::wire::le32_round_trip(before, b, after);
    crate::wire::le64_round_trip(before, c, after);
    numbers_are_read(before + le16(a) + after, before.len() as int);
    numbers_are_read(before + be16(a) + after, before.len() as int);
    numbers_are_read(before + le32(b) + after, before.len() as int);
    numbers_are_read(before + le64(c) + after, before.len() as int);
}

} // verus!
