//! The byte containers of the `bytes` and `bytebuffer` crates that packets are
//! built from and read into.

use vstd::prelude::*;
use bytes::{Buf, Bytes, BytesMut};
use bytebuffer::{ByteBuffer, Endian};
use crate::wire::{be_bytes, le_bytes};

verus! {

#[verifier::external_type_specification]
#[verifier::external_body]
pub struct ExBytes(Bytes);

#[verifier::external_type_specification]
#[verifier::external_body]
pub struct ExBytesMut(BytesMut);

#[verifier::external_type_specification]
#[verifier::external_body]
pub struct ExByteBuffer(ByteBuffer);

/// The bytes held by a `bytes::Bytes`.
pub uninterp spec fn bytes_view(b: Bytes) -> Seq<u8>;

/// The bytes held by a `bytes::BytesMut`, from its read start to its end.
pub uninterp spec fn bytes_mut_view(b: BytesMut) -> Seq<u8>;

/// The data vector of a `bytebuffer::ByteBuffer` (what `as_bytes` returns).
pub uninterp spec fn byte_buffer_data(b: ByteBuffer) -> Seq<u8>;

/// Whether the next write of a `ByteBuffer` lands at the end of its data: its write
/// cursor equals the data length and no bit-level write is pending.
pub uninterp spec fn byte_buffer_appends(b: ByteBuffer) -> bool;

/// Whether a `ByteBuffer` writes multi-byte integers little-endian.
pub uninterp spec fn byte_buffer_little_endian(b: ByteBuffer) -> bool;

/// `Bytes::copy_from_slice`: a new `Bytes` holding a copy of `s`.
#[verifier::external_body]
pub(crate) fn bytes_copy_from_slice(s: &[u8]) -> (r: Bytes)
    ensures
        bytes_view(r) == s@,
{
    Bytes::copy_from_slice(s)
}

/// `Bytes::new`: an empty `Bytes`.
#[verifier::external_body]
pub(crate) fn bytes_new() -> (r: Bytes)
    ensures
        bytes_view(r) == Seq::<u8>::empty(),
{
    Bytes::new()
}

/// `Bytes::len`: the number of bytes held.
#[verifier::external_body]
pub(crate) fn bytes_len(b: &Bytes) -> (n: usize)
    ensures
        n == bytes_view(*b).len(),
{
    b.len()
}

/// `<Bytes as AsRef<[u8]>>::as_ref`: the held bytes as a slice.
#[verifier::external_body]
pub(crate) fn bytes_as_slice(b: &Bytes) -> (s: &[u8])
    ensures
        s@ == bytes_view(*b),
{
    b.as_ref()
}

/// `<BytesMut as Deref>::deref`: the held bytes as a slice.
#[verifier::external_body]
pub(crate) fn bytes_mut_as_slice(b: &BytesMut) -> (s: &[u8])
    ensures
        s@ == bytes_mut_view(*b),
{
    &b[..]
}

/// `<BytesMut as Buf>::advance`: drops the first `n` bytes. The crate asserts
/// `n <= remaining()`, which `requires` ensures.
#[verifier::external_body]
pub(crate) fn bytes_mut_advance(b: &mut BytesMut, n: usize)
    requires
        n <= bytes_mut_view(*old(b)).len(),
    ensures
        bytes_mut_view(*final(b)) == bytes_mut_view(*old(b)).skip(n as int),
{
    b.advance(n)
}

/// `ByteBuffer::new`: empty data, both cursors at zero, no pending bits, big-endian.
#[verifier::external_body]
pub(crate) fn byte_buffer_new() -> (b: ByteBuffer)
    ensures
        byte_buffer_data(b) == Seq::<u8>::empty(),
        byte_buffer_appends(b),
        !byte_buffer_little_endian(b),
{
    ByteBuffer::new()
}

/// `ByteBuffer::set_endian(Endian::LittleEndian)`: changes only the byte order.
#[verifier::external_body]
pub(crate) fn byte_buffer_set_little_endian(b: &mut ByteBuffer)
    ensures
        byte_buffer_data(*final(b)) == byte_buffer_data(*old(b)),
        byte_buffer_appends(*final(b)) == byte_buffer_appends(*old(b)),
        byte_buffer_little_endian(*final(b)),
{
    b.set_endian(Endian::LittleEndian)
}

/// `ByteBuffer::write_bytes`: when the write cursor is at the end, the bytes are
/// appended and the cursor stays at the end. What a write elsewhere leaves is not stated.
#[verifier::external_body]
pub(crate) fn byte_buffer_write_bytes(b: &mut ByteBuffer, s: &[u8])
    ensures
        byte_buffer_little_endian(*final(b)) == byte_buffer_little_endian(*old(b)),
        byte_buffer_appends(*old(b)) ==> byte_buffer_appends(*final(b)) && byte_buffer_data(
            *final(b),
        ) == byte_buffer_data(*old(b)) + s@,
{
    b.write_bytes(s)
}

/// `ByteBuffer::write_u8`: `write_bytes` of the one byte `v`.
#[verifier::external_body]
pub(crate) fn byte_buffer_write_u8(b: &mut ByteBuffer, v: u8)
    ensures
        byte_buffer_little_endian(*final(b)) == byte_buffer_little_endian(*old(b)),
        byte_buffer_appends(*old(b)) ==> byte_buffer_appends(*final(b)) && byte_buffer_data(
            *final(b),
        ) == byte_buffer_data(*old(b)).push(v),
{
    b.write_u8(v)
}

/// `ByteBuffer::write_u32`: `write_bytes` of the four bytes of `v` in the buffer's
/// byte order.
#[verifier::external_body]
pub(crate) fn byte_buffer_write_u32(b: &mut ByteBuffer, v: u32)
    ensures
        byte_buffer_little_endian(*final(b)) == byte_buffer_little_endian(*old(b)),
        byte_buffer_appends(*old(b)) ==> byte_buffer_appends(*final(b)) && byte_buffer_data(
            *final(b),
        ) == byte_buffer_data(*old(b)) + (if byte_buffer_little_endian(*old(b)) {
            le_bytes(v)
        } else {
            be_bytes(v)
        }),
{
    b.write_u32(v)
}

} // verus!
