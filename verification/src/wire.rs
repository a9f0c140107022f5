//! Little-endian integer layout used by the packet header.

use vstd::prelude::*;
use bytes::Buf;

verus! {

/// The unsigned 32-bit value stored little-endian at `b[i..i + 4]`.
pub open spec fn le_u32(b: Seq<u8>, i: int) -> u32 {
    (b[i] as int + 256 * (b[i + 1] as int) + 65536 * (b[i + 2] as int) + 16777216 * (
    b[i + 3] as int)) as u32
}

/// The four little-endian bytes of `v`.
pub open spec fn le_bytes(v: u32) -> Seq<u8> {
    seq![(v % 256) as u8, ((v / 256) % 256) as u8, ((v / 65536) % 256) as u8, (v / 16777216) as u8]
}

/// The four big-endian bytes of `v`.
pub open spec fn be_bytes(v: u32) -> Seq<u8> {
    seq![(v / 16777216) as u8, ((v / 65536) % 256) as u8, ((v / 256) % 256) as u8, (v % 256) as u8]
}

/// Decoding the little-endian bytes of `v` gives `v` back.
pub proof fn lemma_le_u32_of_le_bytes(v: u32)
    ensures
        le_u32(le_bytes(v), 0) == v,
{
    let b = le_bytes(v);
    assert(b[0] as int == v % 256);
    assert(b[1] as int == (v / 256) % 256);
    assert(b[2] as int == (v / 65536) % 256);
    assert(b[3] as int == v / 16777216);
    assert((v % 256) + 256 * ((v / 256) % 256) + 65536 * ((v / 65536) % 256) + 16777216 * (v
        / 16777216) == v) by (nonlinear_arith);
}

/// Four bytes at `i` that equal the little-endian bytes of `v` decode to `v`.
pub proof fn lemma_le_u32_at(b: Seq<u8>, i: int, v: u32)
    requires
        0 <= i,
        i + 4 <= b.len(),
        forall|j: int| 0 <= j < 4 ==> #[trigger] b[i + j] == le_bytes(v)[j],
    ensures
        le_u32(b, i) == v,
{
    assert(b[i + 0] == le_bytes(v)[0]);
    assert(b[i + 1] == le_bytes(v)[1]);
    assert(b[i + 2] == le_bytes(v)[2]);
    assert(b[i + 3] == le_bytes(v)[3]);
    lemma_le_u32_of_le_bytes(v);
}

/// Encoding the value decoded from four bytes gives those bytes back.
pub proof fn lemma_le_bytes_of_le_u32(b: Seq<u8>, i: int)
    requires
        0 <= i,
        i + 4 <= b.len(),
    ensures
        le_bytes(le_u32(b, i)) == b.subrange(i, i + 4),
{
    let b0 = b[i] as int;
    let b1 = b[i + 1] as int;
    let b2 = b[i + 2] as int;
    let b3 = b[i + 3] as int;
    let x = b0 + 256 * b1 + 65536 * b2 + 16777216 * b3;
    assert(0 <= x < 0x1_0000_0000 && x % 256 == b0 && (x / 256) % 256 == b1 && (x / 65536) % 256
        == b2 && x / 16777216 == b3) by (nonlinear_arith)
        requires
            0 <= b0 < 256,
            0 <= b1 < 256,
            0 <= b2 < 256,
            0 <= b3 < 256,
            x == b0 + 256 * b1 + 65536 * b2 + 16777216 * b3,
    ;
    assert(le_u32(b, i) as int == x);
    assert(le_bytes(le_u32(b, i)) =~= b.subrange(i, i + 4));
}

/// `bytes::Buf::get_u32_le` on the slice `buf[at..]`: the bytes crate documents it as
/// reading an unsigned 32-bit integer in little-endian byte order, and it panics when
/// fewer than four bytes remain, which `requires` rules out.
#[verifier::external_body]
pub(crate) fn read_u32_le(buf: &[u8], at: usize) -> (v: u32)
    requires
        at + 4 <= buf@.len(),
    ensures
        v == le_u32(buf@, at as int),
{
    let mut rest: &[u8] = &buf[at..];
    rest.get_u32_le()
}

} // verus!
