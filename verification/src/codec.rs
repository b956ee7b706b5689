//! Byte-level helpers shared by the on-disk and on-wire formats:
//! fixed-size field extraction, appending, and big-endian integers.

use vstd::prelude::*;

verus! {

/// Copy `N` bytes starting at `off` into an array.
pub fn copy_array<const N: usize>(bytes: &[u8], off: usize) -> (a: [u8; N])
    requires
        off + N <= bytes@.len(),
    ensures
        a@ == bytes@.subrange(off as int, off + N),
{
    let mut a = [0u8; N];
    let len = bytes.len();
    let mut i: usize = 0;
    while i < N
        invariant
            i <= N,
            len == bytes@.len(),
            off + N <= bytes@.len(),
            a@.len() == N,
            forall|k: int| 0 <= k < i ==> a@[k] == bytes@[off + k],
        decreases N - i,
    {
        a[i] = bytes[off + i];
        i = i + 1;
    }
    assert(a@ =~= bytes@.subrange(off as int, off + N));
    a
}

/// Append all of `src` to `out`.
pub fn append_bytes(out: &mut Vec<u8>, src: &[u8])
    ensures
        final(out)@ == old(out)@ + src@,
{
    let mut i: usize = 0;
    while i < src.len()
        invariant
            i <= src@.len(),
            out@ == old(out)@ + src@.subrange(0, i as int),
        decreases src@.len() - i,
    {
        out.push(src[i]);
        i = i + 1;
        assert(out@ =~= old(out)@ + src@.subrange(0, i as int));
    }
    assert(src@.subrange(0, i as int) =~= src@);
}

/// Big-endian encoding of a `u16`.
pub open spec fn be16(x: u16) -> Seq<u8> {
    seq![(x / 256) as u8, (x % 256) as u8]
}

/// Big-endian encoding of a `u32`.
pub open spec fn be32(x: u32) -> Seq<u8> {
    seq![(x / 16777216) as u8, ((x / 65536) % 256) as u8, ((x / 256) % 256) as u8, (x % 256) as u8]
}

/// Big-endian encoding of a `u64`: high half then low half.
pub open spec fn be64(x: u64) -> Seq<u8> {
    be32((x / 4294967296) as u32) + be32((x % 4294967296) as u32)
}

/// Value of two big-endian bytes.
pub open spec fn be16_value(s: Seq<u8>) -> int {
    s[0] * 256 + s[1]
}

/// Value of four big-endian bytes.
pub open spec fn be32_value(s: Seq<u8>) -> int {
    s[0] * 16777216 + s[1] * 65536 + s[2] * 256 + s[3]
}

/// Big-endian bytes of `x`.
pub fn u16_to_be(x: u16) -> (r: [u8; 2])
    ensures
        r@ == be16(x),
{
    let r = [(x / 256) as u8, (x % 256) as u8];
    assert(r@ =~= be16(x));
    r
}

/// Big-endian bytes of `x`.
pub fn u32_to_be(x: u32) -> (r: [u8; 4])
    ensures
        r@ == be32(x),
{
    let r = [(x / 16777216) as u8, ((x / 65536) % 256) as u8, ((x / 256) % 256) as u8, (x % 256) as u8];
    assert(r@ =~= be32(x));
    r
}

/// Big-endian bytes of `x`.
pub fn u64_to_be(x: u64) -> (r: Vec<u8>)
    ensures
        r@ == be64(x),
{
    let hi = u32_to_be((x / 4294967296) as u32);
    let lo = u32_to_be((x % 4294967296) as u32);
    let mut r: Vec<u8> = Vec::new();
    append_bytes(&mut r, &hi);
    append_bytes(&mut r, &lo);
    assert(r@ =~= be64(x));
    r
}

/// Decoding big-endian bytes gives back the value encoded.
pub proof fn lemma_be16_roundtrip(x: u16)
    ensures
        be16_value(be16(x)) == x,
{
}

/// Decoding big-endian bytes gives back the value encoded.
pub proof fn lemma_be32_roundtrip(x: u32)
    ensures
        be32_value(be32(x)) == x,
{
}

/// Bytes that decode to a value are that value's encoding.
pub proof fn lemma_be16_from_bytes(s: Seq<u8>)
    requires
        s.len() == 2,
    ensures
        0 <= be16_value(s) <= u16::MAX,
        be16(be16_value(s) as u16) == s,
{
    assert(be16(be16_value(s) as u16) =~= s);
}

/// Bytes that decode to a value are that value's encoding.
pub proof fn lemma_be32_from_bytes(s: Seq<u8>)
    requires
        s.len() == 4,
    ensures
        0 <= be32_value(s) <= u32::MAX,
        be32(be32_value(s) as u32) == s,
{
    let a = s[0] as int;
    let b = s[1] as int;
    let c = s[2] as int;
    let d = s[3] as int;
    let v = be32_value(s);
    assert(v == a * 16777216 + b * 65536 + c * 256 + d);
    assert(v / 16777216 == a && (v / 65536) % 256 == b && (v / 256) % 256 == c && v % 256 == d)
        by (nonlinear_arith)
        requires
            v == a * 16777216 + b * 65536 + c * 256 + d,
            0 <= a < 256,
            0 <= b < 256,
            0 <= c < 256,
            0 <= d < 256,
    ;
    assert(be32(be32_value(s) as u32) =~= s);
}

/// Read a big-endian `u16` at `off`.
pub fn read_be16(bytes: &[u8], off: usize) -> (v: u16)
    requires
        off + 2 <= bytes@.len(),
    ensures
        v == be16_value(bytes@.subrange(off as int, off + 2)),
{
    (bytes[off] as u16) * 256 + (bytes[off + 1] as u16)
}

/// Read a big-endian `u32` at `off`.
pub fn read_be32(bytes: &[u8], off: usize) -> (v: u32)
    requires
        off + 4 <= bytes@.len(),
    ensures
        v == be32_value(bytes@.subrange(off as int, off + 4)),
{
    (bytes[off] as u32) * 16777216 + (bytes[off + 1] as u32) * 65536 + (bytes[off + 2] as u32) * 256
        + (bytes[off + 3] as u32)
}

} // verus!
