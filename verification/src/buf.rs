//! The byte buffers of the `bytes` crate, as the verified code sees them.
//!
//! Nothing in this module is proved. Each function below makes one call into
//! `bytes` (or `std`) and states what that call does over the sequence of
//! bytes that the buffer holds.

use bytes::{Buf, BufMut};
use vstd::prelude::*;

verus! {

/// Little-endian value of the first two bytes of `b`.
pub open spec fn le_u16(b: Seq<u8>) -> u16
    recommends
        b.len() >= 2,
{
    (b[0] as int + 256 * (b[1] as int)) as u16
}

/// Little-endian value of the first four bytes of `b`.
pub open spec fn le_u32(b: Seq<u8>) -> u32
    recommends
        b.len() >= 4,
{
    (b[0] as int + 256 * (b[1] as int) + 65536 * (b[2] as int) + 16777216 * (b[3] as int)) as u32
}

/// The two bytes that stand for `v` in little-endian order.
pub open spec fn u16_le_bytes(v: u16) -> Seq<u8> {
    seq![(v % 256) as u8, (v / 256) as u8]
}

/// The four bytes that stand for `v` in little-endian order.
pub open spec fn u32_le_bytes(v: u32) -> Seq<u8> {
    seq![
        (v % 256) as u8,
        ((v / 256) % 256) as u8,
        ((v / 65536) % 256) as u8,
        (v / 16777216) as u8,
    ]
}

/// `bytes::Bytes`, of which the library sees nothing but what the
/// functions below say.
#[verifier::external_type_specification]
#[verifier::external_body]
pub struct ExBytes(bytes::Bytes);

/// `bytes::BytesMut`, of which the library sees nothing but what the
/// functions below say.
#[verifier::external_type_specification]
#[verifier::external_body]
pub struct ExBytesMut(bytes::BytesMut);

/// The bytes that a `bytes::Bytes` has not handed out yet, in reading order.
pub uninterp spec fn bytes_view(b: bytes::Bytes) -> Seq<u8>;

/// The bytes written to a `bytes::BytesMut` so far, in writing order.
pub uninterp spec fn bytes_mut_view(b: bytes::BytesMut) -> Seq<u8>;

/// `Bytes::from(Vec<u8>)`: the buffer holds exactly the vector's bytes.
#[verifier::external_body]
pub(crate) fn bytes_from_vec(v: Vec<u8>) -> (b: bytes::Bytes)
    ensures
        bytes_view(b) == v@,
{
    bytes::Bytes::from(v)
}

/// `Bytes::clone`: the clone holds the same bytes (the storage is shared).
#[verifier::external_body]
pub(crate) fn bytes_clone(b: &bytes::Bytes) -> (c: bytes::Bytes)
    ensures
        bytes_view(c) == bytes_view(*b),
{
    b.clone()
}

/// `Buf::remaining` on `Bytes`: the number of bytes left.
#[verifier::external_body]
pub(crate) fn bytes_remaining(b: &bytes::Bytes) -> (n: usize)
    ensures
        n == bytes_view(*b).len(),
{
    b.remaining()
}

/// `Buf::advance` on `Bytes`: drops the first `cnt` bytes. The call panics
/// when `cnt` exceeds what is left, which the precondition rules out.
#[verifier::external_body]
pub(crate) fn bytes_advance(b: &mut bytes::Bytes, cnt: usize)
    requires
        cnt <= bytes_view(*old(b)).len(),
    ensures
        bytes_view(*final(b)) == bytes_view(*old(b)).skip(cnt as int),
{
    b.advance(cnt)
}

/// `Buf::get_u8` on `Bytes`: hands out the first byte and moves past it.
#[verifier::external_body]
pub(crate) fn bytes_get_u8(b: &mut bytes::Bytes) -> (v: u8)
    requires
        bytes_view(*old(b)).len() >= 1,
    ensures
        v == bytes_view(*old(b))[0],
        bytes_view(*final(b)) == bytes_view(*old(b)).skip(1),
{
    b.get_u8()
}

/// `Buf::get_u16_le` on `Bytes`: the little-endian value of the first two
/// bytes, and the buffer moves past them.
#[verifier::external_body]
pub(crate) fn bytes_get_u16_le(b: &mut bytes::Bytes) -> (v: u16)
    requires
        bytes_view(*old(b)).len() >= 2,
    ensures
        v == le_u16(bytes_view(*old(b))),
        bytes_view(*final(b)) == bytes_view(*old(b)).skip(2),
{
    b.get_u16_le()
}

/// `Buf::get_u32_le` on `Bytes`: the little-endian value of the first four
/// bytes, and the buffer moves past them.
#[verifier::external_body]
pub(crate) fn bytes_get_u32_le(b: &mut bytes::Bytes) -> (v: u32)
    requires
        bytes_view(*old(b)).len() >= 4,
    ensures
        v == le_u32(bytes_view(*old(b))),
        bytes_view(*final(b)) == bytes_view(*old(b)).skip(4),
{
    b.get_u32_le()
}

/// `Bytes::truncate`: keeps the first `len` bytes; a `len` beyond what is
/// left changes nothing.
#[verifier::external_body]
pub(crate) fn bytes_truncate(b: &mut bytes::Bytes, len: usize)
    ensures
        bytes_view(*final(b)) == if len <= bytes_view(*old(b)).len() {
            bytes_view(*old(b)).take(len as int)
        } else {
            bytes_view(*old(b))
        },
{
    b.truncate(len)
}

/// Indexing a `Bytes` by `..n` (through its `Deref` to a slice): a copy of
/// the first `n` bytes; the buffer itself stays where it is.
#[verifier::external_body]
pub(crate) fn bytes_prefix(b: &bytes::Bytes, n: usize) -> (v: Vec<u8>)
    requires
        n <= bytes_view(*b).len(),
    ensures
        v@ == bytes_view(*b).take(n as int),
{
    b[..n].to_vec()
}

/// `BytesMut::with_capacity`: an empty buffer. The allocation behind it
/// panics for a capacity above `isize::MAX`.
#[verifier::external_body]
pub(crate) fn bytes_mut_with_capacity(capacity: usize) -> (b: bytes::BytesMut)
    requires
        capacity <= isize::MAX,
    ensures
        bytes_mut_view(b) == Seq::<u8>::empty(),
{
    bytes::BytesMut::with_capacity(capacity)
}

/// `BufMut::put_u8` on `BytesMut`: appends one byte. The buffer grows as
/// needed and panics only when its length would pass `isize::MAX`.
#[verifier::external_body]
pub(crate) fn bytes_mut_put_u8(b: &mut bytes::BytesMut, v: u8)
    requires
        bytes_mut_view(*old(b)).len() + 1 <= isize::MAX,
    ensures
        bytes_mut_view(*final(b)) == bytes_mut_view(*old(b)).push(v),
{
    b.put_u8(v)
}

/// `BufMut::put_u16_le` on `BytesMut`: appends the two little-endian bytes
/// of `v`.
#[verifier::external_body]
pub(crate) fn bytes_mut_put_u16_le(b: &mut bytes::BytesMut, v: u16)
    requires
        bytes_mut_view(*old(b)).len() + 2 <= isize::MAX,
    ensures
        bytes_mut_view(*final(b)) == bytes_mut_view(*old(b)) + u16_le_bytes(v),
{
    b.put_u16_le(v)
}

/// `BufMut::put_u32_le` on `BytesMut`: appends the four little-endian bytes
/// of `v`.
#[verifier::external_body]
pub(crate) fn bytes_mut_put_u32_le(b: &mut bytes::BytesMut, v: u32)
    requires
        bytes_mut_view(*old(b)).len() + 4 <= isize::MAX,
    ensures
        bytes_mut_view(*final(b)) == bytes_mut_view(*old(b)) + u32_le_bytes(v),
{
    b.put_u32_le(v)
}

/// `BufMut::put_slice` on `BytesMut`: appends the bytes of `src`.
#[verifier::external_body]
pub(crate) fn bytes_mut_put_slice(b: &mut bytes::BytesMut, src: &[u8])
    requires
        bytes_mut_view(*old(b)).len() + src@.len() <= isize::MAX,
    ensures
        bytes_mut_view(*final(b)) == bytes_mut_view(*old(b)) + src@,
{
    b.put_slice(src)
}

/// `to_vec` on a `BytesMut` (through its `Deref` to a slice): a copy of the
/// bytes written so far.
#[verifier::external_body]
pub(crate) fn bytes_mut_to_vec(b: &bytes::BytesMut) -> (v: Vec<u8>)
    ensures
        v@ == bytes_mut_view(*b),
{
    b.to_vec()
}

} // verus!
