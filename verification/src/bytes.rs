//! Little-endian encoding of fixed-width integers, as used by every on-flash
//! and on-air record of the firmware.
use vstd::prelude::*;

verus! {

/// The four little-endian bytes of `v`.
pub open spec fn u32_le(v: u32) -> Seq<u8> {
    seq![
        (v % 256) as u8,
        ((v / 256) % 256) as u8,
        ((v / 65536) % 256) as u8,
        (v / 16777216) as u8,
    ]
}

/// The two little-endian bytes of `v`.
pub open spec fn u16_le(v: u16) -> Seq<u8> {
    seq![(v % 256) as u8, (v / 256) as u8]
}

/// The `u32` whose little-endian bytes start at `off` in `s`.
pub open spec fn u32_at(s: Seq<u8>, off: int) -> u32 {
    (s[off] + s[off + 1] * 256 + s[off + 2] * 65536 + s[off + 3] * 16777216) as u32
}

/// The `u16` whose little-endian bytes start at `off` in `s`.
pub open spec fn u16_at(s: Seq<u8>, off: int) -> u16 {
    (s[off] + s[off + 1] * 256) as u16
}

/// Decoding the encoding of a `u32` gives the value back.
pub proof fn lemma_u32_le_roundtrip(v: u32, s: Seq<u8>, off: int)
    requires
        0 <= off,
        off + 4 <= s.len(),
        s.subrange(off, off + 4) == u32_le(v),
    ensures
        u32_at(s, off) == v,
{
    assert(s[off] == u32_le(v)[0]);
    assert(s[off + 1] == u32_le(v)[1]);
    assert(s[off + 2] == u32_le(v)[2]);
    assert(s[off + 3] == u32_le(v)[3]);
}

/// Decoding the encoding of a `u16` gives the value back.
pub proof fn lemma_u16_le_roundtrip(v: u16, s: Seq<u8>, off: int)
    requires
        0 <= off,
        off + 2 <= s.len(),
        s.subrange(off, off + 2) == u16_le(v),
    ensures
        u16_at(s, off) == v,
{
    assert(s[off] == u16_le(v)[0]);
    assert(s[off + 1] == u16_le(v)[1]);
}

/// Reads the little-endian `u32` at `off`.
pub fn get_u32_le(data: &[u8], off: usize) -> (r: u32)
    requires
        off + 4 <= data@.len(),
    ensures
        r == u32_at(data@, off as int),
{
    let b0 = data[off] as u32;
    let b1 = data[off + 1] as u32;
    let b2 = data[off + 2] as u32;
    let b3 = data[off + 3] as u32;
    b0 + b1 * 256 + b2 * 65536 + b3 * 16777216
}

/// Reads the little-endian `u16` at `off`.
pub fn get_u16_le(data: &[u8], off: usize) -> (r: u16)
    requires
        off + 2 <= data@.len(),
    ensures
        r == u16_at(data@, off as int),
{
    let b0 = data[off] as u16;
    let b1 = data[off + 1] as u16;
    b0 + b1 * 256
}

/// Writes the little-endian bytes of `v` at `off`, leaving every other byte as it was.
pub fn put_u32_le<const N: usize>(data: &mut [u8; N], off: usize, v: u32)
    requires
        off + 4 <= N,
    ensures
        final(data)@.len() == N,
        final(data)@.subrange(off as int, off + 4) == u32_le(v),
        forall|i: int| 0 <= i < N && !(off <= i < off + 4) ==> final(data)@[i] == old(data)@[i],
{
    data[off] = (v % 256) as u8;
    data[off + 1] = ((v / 256) % 256) as u8;
    data[off + 2] = ((v / 65536) % 256) as u8;
    data[off + 3] = (v / 16777216) as u8;
    assert(data@.subrange(off as int, off + 4) =~= u32_le(v));
}

/// Writes the little-endian bytes of `v` at `off`, leaving every other byte as it was.
pub fn put_u16_le<const N: usize>(data: &mut [u8; N], off: usize, v: u16)
    requires
        off + 2 <= N,
    ensures
        final(data)@.len() == N,
        final(data)@.subrange(off as int, off + 2) == u16_le(v),
        forall|i: int| 0 <= i < N && !(off <= i < off + 2) ==> final(data)@[i] == old(data)@[i],
{
    data[off] = (v % 256) as u8;
    data[off + 1] = (v / 256) as u8;
    assert(data@.subrange(off as int, off + 2) =~= u16_le(v));
}

} // verus!
