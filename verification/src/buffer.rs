//! The growable byte buffer that packets are assembled in.

use bytes::{BufMut, BytesMut};
use vstd::prelude::*;

verus! {

/// How many bytes a buffer may come to hold: what a datagram can carry.
pub const BUFFER_LIMIT: usize = 65_535;

/// `bytes::BytesMut`, a growable run of bytes.
#[verifier::external_type_specification]
#[verifier::external_body]
pub struct ExBytesMut(BytesMut);

/// The bytes that a buffer holds.
pub uninterp spec fn buffer_bytes(buffer: BytesMut) -> Seq<u8>;

/// The two bytes of a number, high byte first.
pub open spec fn be16(n: int) -> Seq<u8> {
    seq![(n / 0x100 % 0x100) as u8, (n % 0x100) as u8]
}

/// The four bytes of a number, high byte first.
pub open spec fn be32(n: int) -> Seq<u8> {
    be16(n / 0x1_0000) + be16(n % 0x1_0000)
}

/// `BytesMut::with_capacity`: an empty buffer.
#[verifier::external_body]
pub(crate) fn with_capacity(capacity: usize) -> (result: BytesMut)
    requires
        capacity <= BUFFER_LIMIT,
    ensures
        buffer_bytes(result) == Seq::<u8>::empty(),
{
    BytesMut::with_capacity(capacity)
}

/// `BytesMut::clear`: nothing is left in the buffer.
#[verifier::external_body]
pub(crate) fn clear(buffer: &mut BytesMut)
    ensures
        buffer_bytes(*final(buffer)) == Seq::<u8>::empty(),
{
    buffer.clear()
}

/// `BytesMut::len`: how many bytes the buffer holds.
#[verifier::external_body]
pub(crate) fn len(buffer: &BytesMut) -> (result: usize)
    ensures
        result == buffer_bytes(*buffer).len(),
{
    buffer.len()
}

/// `BufMut::put_u8` for `BytesMut`: appends a byte.
#[verifier::external_body]
pub(crate) fn put_u8(buffer: &mut BytesMut, n: u8)
    requires
        buffer_bytes(*old(buffer)).len() + 1 <= BUFFER_LIMIT,
    ensures
        buffer_bytes(*final(buffer)) == buffer_bytes(*old(buffer)).push(n),
{
    buffer.put_u8(n)
}

/// `BufMut::put_u16` for `BytesMut`: appends a number, high byte first.
#[verifier::external_body]
pub(crate) fn put_u16(buffer: &mut BytesMut, n: u16)
    requires
        buffer_bytes(*old(buffer)).len() + 2 <= BUFFER_LIMIT,
    ensures
        buffer_bytes(*final(buffer)) == buffer_bytes(*old(buffer)) + be16(n as int),
{
    buffer.put_u16(n)
}

/// `BufMut::put_u32` for `BytesMut`: appends a number, high byte first.
#[verifier::external_body]
pub(crate) fn put_u32(buffer: &mut BytesMut, n: u32)
    requires
        buffer_bytes(*old(buffer)).len() + 4 <= BUFFER_LIMIT,
    ensures
        buffer_bytes(*final(buffer)) == buffer_bytes(*old(buffer)) + be32(n as int),
{
    buffer.put_u32(n)
}

/// `BufMut::put_slice` for `BytesMut`: appends bytes.
#[verifier::external_body]
pub(crate) fn put_slice(buffer: &mut BytesMut, bytes: &[u8])
    requires
        buffer_bytes(*old(buffer)).len() + bytes@.len() <= BUFFER_LIMIT,
    ensures
        buffer_bytes(*final(buffer)) == buffer_bytes(*old(buffer)) + bytes@,
{
    buffer.put_slice(bytes)
}

/// Indexing of `BytesMut`, through its slice: overwrites one byte.
#[verifier::external_body]
pub(crate) fn overwrite(buffer: &mut BytesMut, offset: usize, n: u8)
    requires
        offset < buffer_bytes(*old(buffer)).len(),
    ensures
        buffer_bytes(*final(buffer)) == buffer_bytes(*old(buffer)).update(offset as int, n),
{
    buffer[offset] = n
}

/// `to_vec` of the slice of `BytesMut`: a copy of its bytes.
#[verifier::external_body]
pub(crate) fn to_vec(buffer: &BytesMut) -> (result: Vec<u8>)
    ensures
        result@ == buffer_bytes(*buffer),
{
    buffer.to_vec()
}

/// The two bytes of a number give it back, high byte first.
pub proof fn lemma_be16_reads_back(n: int)
    requires
        0 <= n < 0x1_0000,
    ensures
        be16(n).len() == 2,
        be16(n)[0] * 0x100 + be16(n)[1] == n,
{
}

/// The four bytes of a number give it back, high byte first.
pub proof fn lemma_be32_reads_back(n: int)
    requires
        0 <= n < 0x1_0000_0000,
    ensures
        be32(n).len() == 4,
        be32(n)[0] * 0x100_0000 + be32(n)[1] * 0x1_0000 + be32(n)[2] * 0x100 + be32(n)[3] == n,
{
}

} // verus!
