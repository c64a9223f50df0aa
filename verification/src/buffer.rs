//! Byte buffers. Instruction streams are built in a `bytes::BytesMut` and
//! shared as a `bytes::Bytes`; this module states what the library relies on
//! from those two types.

use bytes::{Buf, BufMut, Bytes, BytesMut};
use vstd::prelude::*;

verus! {

/// `bytes::Bytes`: a shared, immutable buffer.
#[verifier::external_type_specification]
#[verifier::external_body]
pub struct ExBytes(bytes::Bytes);

/// `bytes::BytesMut`: a buffer that grows.
#[verifier::external_type_specification]
#[verifier::external_body]
pub struct ExBytesMut(bytes::BytesMut);

/// The bytes that a frozen buffer holds, in order.
pub uninterp spec fn frozen_bytes(b: Bytes) -> Seq<u8>;

/// The bytes that a growable buffer holds, in order.
pub uninterp spec fn buffer_bytes(b: BytesMut) -> Seq<u8>;

/// The two bytes of a 16-bit operand, most significant first.
pub open spec fn be16(operand: u16) -> Seq<u8> {
    seq![(operand / 256) as u8, (operand % 256) as u8]
}

/// The 16-bit operand that two bytes encode, most significant first.
pub open spec fn from_be16(hi: u8, lo: u8) -> u16 {
    (hi as int * 256 + lo as int) as u16
}

/// `BytesMut::with_capacity`: the new buffer holds no bytes, whatever its
/// capacity.
#[verifier::external_body]
pub(crate) fn buffer_with_capacity(capacity: usize) -> (b: BytesMut)
    requires
        capacity <= isize::MAX,
    ensures
        buffer_bytes(b) == Seq::<u8>::empty(),
{
    BytesMut::with_capacity(capacity)
}

/// `BytesMut::new`: the new buffer holds no bytes.
#[verifier::external_body]
pub(crate) fn buffer_new() -> (b: BytesMut)
    ensures
        buffer_bytes(b) == Seq::<u8>::empty(),
{
    BytesMut::new()
}

/// `BufMut::put_u8` on a `BytesMut`: appends the byte, growing the buffer if
/// it has to.
#[verifier::external_body]
pub(crate) fn buffer_put_u8(b: &mut BytesMut, value: u8)
    requires
        buffer_bytes(*old(b)).len() + 1 <= isize::MAX,
    ensures
        buffer_bytes(*final(b)) == buffer_bytes(*old(b)).push(value),
{
    b.put_u8(value)
}

/// `BufMut::put_u16` on a `BytesMut`: appends the operand's two bytes in
/// big-endian order.
#[verifier::external_body]
pub(crate) fn buffer_put_u16(b: &mut BytesMut, value: u16)
    requires
        buffer_bytes(*old(b)).len() + 2 <= isize::MAX,
    ensures
        buffer_bytes(*final(b)) == buffer_bytes(*old(b)) + be16(value),
{
    b.put_u16(value)
}

/// `BytesMut::extend_from_slice`, given the contents of a frozen buffer:
/// appends them.
#[verifier::external_body]
pub(crate) fn buffer_extend(b: &mut BytesMut, extend: &Bytes)
    requires
        buffer_bytes(*old(b)).len() + frozen_bytes(*extend).len() <= isize::MAX,
    ensures
        buffer_bytes(*final(b)) == buffer_bytes(*old(b)) + frozen_bytes(*extend),
{
    b.extend_from_slice(extend)
}

/// `BytesMut::len`: the number of bytes held.
#[verifier::external_body]
pub(crate) fn buffer_len(b: &BytesMut) -> (n: usize)
    ensures
        n == buffer_bytes(*b).len(),
{
    b.len()
}

/// Assignment through `BytesMut`'s `DerefMut` to a slice: replaces the byte
/// at one position and leaves the others.
#[verifier::external_body]
pub(crate) fn buffer_set(b: &mut BytesMut, at: usize, value: u8)
    requires
        at < buffer_bytes(*old(b)).len(),
    ensures
        buffer_bytes(*final(b)) == buffer_bytes(*old(b)).update(at as int, value),
{
    b[at] = value;
}

/// `BytesMut::freeze`: the frozen buffer holds the same bytes.
#[verifier::external_body]
pub(crate) fn buffer_freeze(b: BytesMut) -> (r: Bytes)
    ensures
        frozen_bytes(r) == buffer_bytes(b),
{
    b.freeze()
}

/// `Bytes::len`: the number of bytes held.
#[verifier::external_body]
pub(crate) fn bytes_len(b: &Bytes) -> (n: usize)
    ensures
        n == frozen_bytes(*b).len(),
{
    b.len()
}

/// `Buf::get_u8` on the slice of a `Bytes` that starts at `at`: the byte at
/// that position.
#[verifier::external_body]
pub(crate) fn bytes_get_u8(b: &Bytes, at: usize) -> (value: u8)
    requires
        at < frozen_bytes(*b).len(),
    ensures
        value == frozen_bytes(*b)[at as int],
{
    let mut rest: &[u8] = &b[at..];
    rest.get_u8()
}

/// `Buf::get_u16` on the slice of a `Bytes` that starts at `at`: the two bytes
/// there, read in big-endian order.
#[verifier::external_body]
pub(crate) fn bytes_get_u16(b: &Bytes, at: usize) -> (value: u16)
    requires
        at + 2 <= frozen_bytes(*b).len(),
    ensures
        value == from_be16(frozen_bytes(*b)[at as int], frozen_bytes(*b)[at + 1]),
{
    let mut rest: &[u8] = &b[at..];
    rest.get_u16()
}

/// `PartialEq` of `Bytes`: two buffers are equal when they hold the same
/// bytes.
#[verifier::external_body]
pub(crate) fn bytes_eq(a: &Bytes, b: &Bytes) -> (same: bool)
    ensures
        same == (frozen_bytes(*a) == frozen_bytes(*b)),
{
    a == b
}

/// Splitting a 16-bit operand into its two bytes and joining them again gives
/// the operand back.
pub proof fn lemma_be16_round_trip(operand: u16)
    ensures
        be16(operand).len() == 2,
        from_be16(be16(operand)[0], be16(operand)[1]) == operand,
{
}

} // verus!
