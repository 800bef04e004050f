//! Fixed-width integers and byte runs as they stand on the wire.

use vstd::prelude::*;

verus! {

/// The two bytes of `v`, low byte first.
pub open spec fn le16(v: u16) -> Seq<u8> {
    seq![(v % 256) as u8, (v / 256) as u8]
}

/// The two bytes of `v`, high byte first.
pub open spec fn be16(v: u16) -> Seq<u8> {
    seq![(v / 256) as u8, (v % 256) as u8]
}

/// The four bytes of `v`, low byte first.
pub open spec fn le32(v: u32) -> Seq<u8> {
    seq![
        (v % 256) as u8,
        (v / 256 % 256) as u8,
        (v / 0x1_0000 % 256) as u8,
        (v / 0x100_0000) as u8,
    ]
}

/// The eight bytes of `v`, low byte first.
pub open spec fn le64(v: u64) -> Seq<u8> {
    le32((v % 0x1_0000_0000) as u32) + le32((v / 0x1_0000_0000) as u32)
}

/// `n` zero bytes.
pub open spec fn zeros(n: nat) -> Seq<u8> {
    Seq::new(n, |i: int| 0u8)
}

/// The little-endian `u16` at `i`.
pub open spec fn le16_at(s: Seq<u8>, i: int) -> u16 {
    (s[i] + 256 * s[i + 1]) as u16
}

/// The big-endian `u16` at `i`.
pub open spec fn be16_at(s: Seq<u8>, i: int) -> u16 {
    (256 * s[i] + s[i + 1]) as u16
}

/// The little-endian `u32` at `i`.
pub open spec fn le32_at(s: Seq<u8>, i: int) -> u32 {
    (s[i] + 0x100 * s[i + 1] + 0x1_0000 * s[i + 2] + 0x100_0000 * s[i + 3]) as u32
}

/// The little-endian `u64` at `i`.
pub open spec fn le64_at(s: Seq<u8>, i: int) -> u64 {
    (le32_at(s, i) + 0x1_0000_0000 * le32_at(s, i + 4)) as u64
}

/// A value read at the place where it was written is the value written.
pub proof fn le16_round_trip(prefix: Seq<u8>, v: u16, suffix: Seq<u8>)
    ensures
        le16_at(prefix + le16(v) + suffix, prefix.len() as int) == v,
{
    let s = prefix + le16(v) + suffix;
    assert(s[prefix.len() as int] == le16(v)[0]);
    assert(s[prefix.len() as int + 1] == le16(v)[1]);
}

/// A value read at the place where it was written is the value written.
pub proof fn be16_round_trip(prefix: Seq<u8>, v: u16, suffix: Seq<u8>)
    ensures
        be16_at(prefix + be16(v) + suffix, prefix.len() as int) == v,
{
    let s = prefix + be16(v) + suffix;
    assert(s[prefix.len() as int] == be16(v)[0]);
    assert(s[prefix.len() as int + 1] == be16(v)[1]);
}

/// A value read at the place where it was written is the value written.
pub proof fn le32_round_trip(prefix: Seq<u8>, v: u32, suffix: Seq<u8>)
    ensures
        le32_at(prefix + le32(v) + suffix, prefix.len() as int) == v,
{
    let s = prefix + le32(v) + suffix;
    let n = prefix.len() as int;
    assert(s[n] == le32(v)[0]);
    assert(s[n + 1] == le32(v)[1]);
    assert(s[n + 2] == le32(v)[2]);
    assert(s[n + 3] == le32(v)[3]);
}

/// A value read at the place where it was written is the value written.
pub proof fn le64_round_trip(prefix: Seq<u8>, v: u64, suffix: Seq<u8>)
    ensures
        le64_at(prefix + le64(v) + suffix, prefix.len() as int) == v,
{
    let low = (v % 0x1_0000_0000) as u32;
    let high = (v / 0x1_0000_0000) as u32;
    let s = prefix + le64(v) + suffix;
    assert(s =~= prefix + le32(low) + (le32(high) + suffix));
    le32_round_trip(prefix, low, le32(high) + suffix);
    assert(s =~= (prefix + le32(low)) + le32(high) + suffix);
    le32_round_trip(prefix + le32(low), high, suffix);
}

/// What is appended to nothing stands alone.
pub broadcast proof fn lemma_empty_add(s: Seq<u8>)
    ensures
        #[trigger] (Seq::<u8>::empty() + s) == s,
{
    assert(Seq::<u8>::empty() + s =~= s);
}

/// Appends one byte.
pub fn put_u8(out: &mut Vec<u8>, value: u8)
    ensures
        final(out)@ == old(out)@ + seq![value],
{
    out.push(value);
    assert(out@ =~= old(out)@ + seq![value]);
}

/// Appends a little-endian `u16`.
pub fn put_u16(out: &mut Vec<u8>, value: u16)
    ensures
        final(out)@ == old(out)@ + le16(value),
{
    out.push((value % 256) as u8);
    out.push((value / 256) as u8);
    assert(out@ =~= old(out)@ + le16(value));
}

/// Appends a big-endian `u16`.
pub fn put_u16_be(out: &mut Vec<u8>, value: u16)
    ensures
        final(out)@ == old(out)@ + be16(value),
{
    out.push((value / 256) as u8);
    out.push((value % 256) as u8);
    assert(out@ =~= old(out)@ + be16(value));
}

/// Appends a little-endian `u32`.
pub fn put_u32(out: &mut Vec<u8>, value: u32)
    ensures
        final(out)@ == old(out)@ + le32(value),
{
    out.push((value % 256) as u8);
    out.push((value / 256 % 256) as u8);
    out.push((value / 0x1_0000 % 256) as u8);
    out.push((value / 0x100_0000) as u8);
    assert(out@ =~= old(out)@ + le32(value));
}

/// Appends a little-endian `u64`.
pub fn put_u64(out: &mut Vec<u8>, value: u64)
    ensures
        final(out)@ == old(out)@ + le64(value),
{
    put_u32(out, (value % 0x1_0000_0000) as u32);
    put_u32(out, (value / 0x1_0000_0000) as u32);
    assert(out@ =~= old(out)@ + le64(value));
}

/// Appends `data` as it stands.
pub fn put_bytes(out: &mut Vec<u8>, data: &[u8])
    ensures
        final(out)@ == old(out)@ + data@,
{
    out.extend_from_slice(data);
    assert(out@ =~= old(out)@ + data@);
}

/// Appends `n` zero bytes.
pub fn put_zeros(out: &mut Vec<u8>, n: usize)
    ensures
        final(out)@ == old(out)@ + zeros(n as nat),
{
    let mut i: usize = 0;
    while i < n
        invariant
            i <= n,
            out@ =~= old(out)@ + zeros(i as nat),
        decreases n - i,
    {
        out.push(0);
        i += 1;
    }
}

/// The little-endian `u16` at `offset`, where all of it lies inside `data`.
pub fn read_u16(data: &[u8], offset: usize) -> (res: Option<u16>)
    ensures
        res == (if offset + 2 <= data@.len() {
            Some(le16_at(data@, offset as int))
        } else {
            None
        }),
{
    if data.len() < 2 || offset > data.len() - 2 {
        return None;
    }
    Some(data[offset] as u16 + 256 * data[offset + 1] as u16)
}

/// The little-endian `u32` at `offset`, where all of it lies inside `data`.
pub fn read_u32(data: &[u8], offset: usize) -> (res: Option<u32>)
    ensures
        res == (if offset + 4 <= data@.len() {
            Some(le32_at(data@, offset as int))
        } else {
            None
        }),
{
    if data.len() < 4 || offset > data.len() - 4 {
        return None;
    }
    Some(
        data[offset] as u32 + 0x100 * data[offset + 1] as u32 + 0x1_0000 * data[offset + 2] as u32
            + 0x100_0000 * data[offset + 3] as u32,
    )
}

/// The little-endian `u64` at `offset`, where all of it lies inside `data`.
pub fn read_u64(data: &[u8], offset: usize) -> (res: Option<u64>)
    ensures
        res == (if offset + 8 <= data@.len() {
            Some(le64_at(data@, offset as int))
        } else {
            None
        }),
{
    if data.len() < 8 || offset > data.len() - 8 {
        return None;
    }
    match (read_u32(data, offset), read_u32(data, offset + 4)) {
        (Some(low), Some(high)) => Some(low as u64 + 0x1_0000_0000 * high as u64),
        _ => None,
    }
}

/// The bytes of several messages.
pub open spec fn all_bytes(messages: Seq<Vec<u8>>) -> Seq<Seq<u8>> {
    messages.map_values(|m: Vec<u8>| m@)
}

/// Moves the messages of `from` to the end of `to`.
pub fn append_messages(to: &mut Vec<Vec<u8>>, from: Vec<Vec<u8>>)
    ensures
        all_bytes(final(to)@) == all_bytes(old(to)@) + all_bytes(from@),
{
    let mut from = from;
    let ghost before = from@;
    to.append(&mut from);
    assert(all_bytes(to@) =~= all_bytes(old(to)@) + all_bytes(before));
}

} // verus!
