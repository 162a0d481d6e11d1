//! Datagram buffers: the outside type [`BytesMut`] and the few operations
//! that the packet encoder needs of it.
use bytes::{BufMut, BytesMut};
use vstd::prelude::*;

verus! {

/// `bytes::BytesMut`, a growable byte buffer, taken as an opaque type.
#[verifier::external_type_specification]
#[verifier::external_body]
pub struct ExBytesMut(BytesMut);

/// The bytes that a buffer holds, in order.
pub uninterp spec fn buffer_bytes(buf: BytesMut) -> Seq<u8>;

/// Number of bytes up to which appending to a buffer is claimed to work.  A
/// buffer that runs full doubles its allocation, and no allocation may exceed
/// half of the address space.  The allocation of a buffer that was advanced
/// may also hold what it was advanced over, up to as much again.
pub open spec fn buffer_limit() -> nat {
    (usize::MAX / 8) as nat
}

/// Calls `BytesMut::new`, which makes a buffer of length 0.
#[verifier::external_body]
pub(crate) fn new_buffer() -> (buf: BytesMut)
    ensures
        buffer_bytes(buf) == Seq::<u8>::empty(),
{
    BytesMut::new()
}

/// Calls `BufMut::put_u8`, which appends one byte.
#[verifier::external_body]
pub(crate) fn put_u8(buf: &mut BytesMut, n: u8)
    requires
        buffer_bytes(*old(buf)).len() + 1 <= buffer_limit(),
    ensures
        buffer_bytes(*final(buf)) == buffer_bytes(*old(buf)).push(n),
{
    buf.put_u8(n)
}

/// Calls `BufMut::put_u16`, which appends the two bytes of `n`, the high one
/// first.
#[verifier::external_body]
pub(crate) fn put_u16(buf: &mut BytesMut, n: u16)
    requires
        buffer_bytes(*old(buf)).len() + 2 <= buffer_limit(),
    ensures
        buffer_bytes(*final(buf)) == buffer_bytes(*old(buf)) + seq![
            (n / 256) as u8,
            (n % 256) as u8,
        ],
{
    buf.put_u16(n)
}

/// Calls `BufMut::put_slice`, which appends all bytes of `src`.
#[verifier::external_body]
pub(crate) fn put_slice(buf: &mut BytesMut, src: &[u8])
    requires
        buffer_bytes(*old(buf)).len() + src@.len() <= buffer_limit(),
    ensures
        buffer_bytes(*final(buf)) == buffer_bytes(*old(buf)) + src@,
{
    buf.put_slice(src)
}

} // verus!
