//! What this library relies on in the `bytes` crate and in `std::str`.
//!
//! Every item here states, without proof, what a function of another library
//! does. The contracts speak of the bytes that a `bytes::Bytes` or a
//! `bytes::BytesMut` holds, under the names [`bytes_content`] and
//! [`bytes_mut_content`]. The two types go by longer names here, to be told from
//! the PackStream types of the same name.
use bytes::{Bytes as SharedBytes, BytesMut as GrowableBytes};
use vstd::prelude::*;
use vstd::utf8::{encode_utf8, valid_utf8};

use crate::be::{be_bytes, be_int, be_uint};

verus! {

/// The longest buffer that can always be asked to grow.
///
/// The allocation behind a `BytesMut` may be twice as long as what is to be held
/// when it has to grow, growing may double it, and no allocation is larger than
/// `isize::MAX` bytes.
pub const MAX_BUFFER_LEN: usize = usize::MAX / 8;

/// `bytes::Bytes`: a reference-counted, immutable slice of bytes.
#[verifier::external_type_specification]
#[verifier::external_body]
pub struct ExBytes(SharedBytes);

/// `bytes::BytesMut`: a growable buffer of bytes.
#[verifier::external_type_specification]
#[verifier::external_body]
pub struct ExBytesMut(GrowableBytes);

/// The bytes that a `Bytes` holds, in order.
pub uninterp spec fn bytes_content(b: SharedBytes) -> Seq<u8>;

/// The bytes that a `BytesMut` holds, in order.
pub uninterp spec fn bytes_mut_content(b: GrowableBytes) -> Seq<u8>;

/// The length that a `BytesMut` was made for, where it was made for one.
pub uninterp spec fn bytes_mut_made_for(b: GrowableBytes) -> nat;

// ---------------------------------------------------------------------------
// Bytes
// ---------------------------------------------------------------------------

/// `Bytes::new` holds no byte.
pub assume_specification[ SharedBytes::new ]() -> (b: SharedBytes)
    ensures
        bytes_content(b) == Seq::<u8>::empty(),
;

/// `Bytes::len` counts the bytes held.
pub assume_specification[ SharedBytes::len ](b: &SharedBytes) -> (n: usize)
    ensures
        n == bytes_content(*b).len(),
;

/// `Bytes::is_empty` tells whether no byte is held.
pub assume_specification[ SharedBytes::is_empty ](b: &SharedBytes) -> (e: bool)
    ensures
        e == (bytes_content(*b).len() == 0),
;

/// `Bytes::split_to` cuts off the first `at` bytes and returns them; the rest
/// stays. Neither part is copied: both go on sharing one allocation, which the
/// contract has no word for. It panics where fewer than `at` bytes are held.
pub assume_specification[ SharedBytes::split_to ](b: &mut SharedBytes, at: usize) -> (front: SharedBytes)
    requires
        at <= bytes_content(*old(b)).len(),
    ensures
        bytes_content(front) == bytes_content(*old(b)).take(at as int),
        bytes_content(*final(b)) == bytes_content(*old(b)).skip(at as int),
;

/// A `Bytes` dereferences to the slice of the bytes that it holds.
pub assume_specification[ <SharedBytes as core::ops::Deref>::deref ](b: &SharedBytes) -> (s: &[u8])
    ensures
        s@ == bytes_content(*b),
;

/// Cloning a `Bytes` gives a second handle on the same bytes.
pub assume_specification[ <SharedBytes as core::clone::Clone>::clone ](b: &SharedBytes) -> (c: SharedBytes)
    ensures
        bytes_content(c) == bytes_content(*b),
;

/// `Buf::advance` on a `Bytes` drops the first `cnt` bytes. It panics where
/// fewer are held.
#[verifier::external_body]
pub(crate) fn bytes_advance(b: &mut SharedBytes, cnt: usize)
    requires
        cnt <= bytes_content(*old(b)).len(),
    ensures
        bytes_content(*final(b)) == bytes_content(*old(b)).skip(cnt as int),
{
    bytes::Buf::advance(b, cnt)
}

/// `Buf::get_u8` on a `Bytes` takes the first byte off. It panics on an empty
/// buffer.
#[verifier::external_body]
pub(crate) fn bytes_get_u8(b: &mut SharedBytes) -> (v: u8)
    requires
        bytes_content(*old(b)).len() >= 1,
    ensures
        v == bytes_content(*old(b))[0],
        bytes_content(*final(b)) == bytes_content(*old(b)).skip(1),
{
    bytes::Buf::get_u8(b)
}

/// `Buf::get_i8` on a `Bytes` takes the first byte off and reads it as a two's
/// complement number. It panics on an empty buffer.
#[verifier::external_body]
pub(crate) fn bytes_get_i8(b: &mut SharedBytes) -> (v: i8)
    requires
        bytes_content(*old(b)).len() >= 1,
    ensures
        v == be_int(bytes_content(*old(b)).take(1)),
        bytes_content(*final(b)) == bytes_content(*old(b)).skip(1),
{
    bytes::Buf::get_i8(b)
}

/// `Buf::get_u16` on a `Bytes` takes two bytes off and reads them big-endian.
/// It panics where fewer are held.
#[verifier::external_body]
pub(crate) fn bytes_get_u16(b: &mut SharedBytes) -> (v: u16)
    requires
        bytes_content(*old(b)).len() >= 2,
    ensures
        v == be_uint(bytes_content(*old(b)).take(2)),
        bytes_content(*final(b)) == bytes_content(*old(b)).skip(2),
{
    bytes::Buf::get_u16(b)
}

/// `Buf::get_i16` on a `Bytes` takes two bytes off and reads them big-endian,
/// in two's complement. It panics where fewer are held.
#[verifier::external_body]
pub(crate) fn bytes_get_i16(b: &mut SharedBytes) -> (v: i16)
    requires
        bytes_content(*old(b)).len() >= 2,
    ensures
        v == be_int(bytes_content(*old(b)).take(2)),
        bytes_content(*final(b)) == bytes_content(*old(b)).skip(2),
{
    bytes::Buf::get_i16(b)
}

/// `Buf::get_u32` on a `Bytes` takes four bytes off and reads them big-endian.
/// It panics where fewer are held.
#[verifier::external_body]
pub(crate) fn bytes_get_u32(b: &mut SharedBytes) -> (v: u32)
    requires
        bytes_content(*old(b)).len() >= 4,
    ensures
        v == be_uint(bytes_content(*old(b)).take(4)),
        bytes_content(*final(b)) == bytes_content(*old(b)).skip(4),
{
    bytes::Buf::get_u32(b)
}

/// `Buf::get_i32` on a `Bytes` takes four bytes off and reads them big-endian,
/// in two's complement. It panics where fewer are held.
#[verifier::external_body]
pub(crate) fn bytes_get_i32(b: &mut SharedBytes) -> (v: i32)
    requires
        bytes_content(*old(b)).len() >= 4,
    ensures
        v == be_int(bytes_content(*old(b)).take(4)),
        bytes_content(*final(b)) == bytes_content(*old(b)).skip(4),
{
    bytes::Buf::get_i32(b)
}

/// `Buf::get_u64` on a `Bytes` takes eight bytes off and reads them big-endian.
/// It panics where fewer are held.
#[verifier::external_body]
pub(crate) fn bytes_get_u64(b: &mut SharedBytes) -> (v: u64)
    requires
        bytes_content(*old(b)).len() >= 8,
    ensures
        v == be_uint(bytes_content(*old(b)).take(8)),
        bytes_content(*final(b)) == bytes_content(*old(b)).skip(8),
{
    bytes::Buf::get_u64(b)
}

/// `Buf::get_i64` on a `Bytes` takes eight bytes off and reads them big-endian,
/// in two's complement. It panics where fewer are held.
#[verifier::external_body]
pub(crate) fn bytes_get_i64(b: &mut SharedBytes) -> (v: i64)
    requires
        bytes_content(*old(b)).len() >= 8,
    ensures
        v == be_int(bytes_content(*old(b)).take(8)),
        bytes_content(*final(b)) == bytes_content(*old(b)).skip(8),
{
    bytes::Buf::get_i64(b)
}

// ---------------------------------------------------------------------------
// BytesMut
// ---------------------------------------------------------------------------

/// `BytesMut::new` holds no byte.
pub assume_specification[ GrowableBytes::new ]() -> (b: GrowableBytes)
    ensures
        bytes_mut_content(b) == Seq::<u8>::empty(),
;

/// `BytesMut::with_capacity` holds no byte, and is made for `capacity` bytes. It
/// panics where `capacity` is more than an allocation can have.
pub assume_specification[ GrowableBytes::with_capacity ](capacity: usize) -> (b: GrowableBytes)
    requires
        capacity <= isize::MAX,
    ensures
        bytes_mut_content(b) == Seq::<u8>::empty(),
        bytes_mut_made_for(b) == capacity,
;

/// `BytesMut::freeze` turns a buffer into a `Bytes` of the same bytes.
pub assume_specification[ GrowableBytes::freeze ](b: GrowableBytes) -> (r: SharedBytes)
    ensures
        bytes_content(r) == bytes_mut_content(b),
;

/// `BytesMut::clear` drops every byte.
pub assume_specification[ GrowableBytes::clear ](b: &mut GrowableBytes)
    ensures
        bytes_mut_content(*final(b)) == Seq::<u8>::empty(),
;

/// `BytesMut::extend_from_slice` appends a slice. Up to the length that the
/// buffer was made for it finds the room there and allocates nothing. Beyond that
/// it may allocate, and panics where the allocation is too large.
pub assume_specification[ GrowableBytes::extend_from_slice ](b: &mut GrowableBytes, extend: &[u8])
    requires
        bytes_mut_content(*old(b)).len() + extend@.len() <= MAX_BUFFER_LEN || bytes_mut_content(
            *old(b),
        ).len() + extend@.len() <= bytes_mut_made_for(*old(b)),
    ensures
        bytes_mut_content(*final(b)) == bytes_mut_content(*old(b)) + extend@,
        bytes_mut_made_for(*final(b)) == bytes_mut_made_for(*old(b)),
;

/// A `BytesMut` dereferences to the slice of the bytes that it holds.
pub assume_specification[ <GrowableBytes as core::ops::Deref>::deref ](b: &GrowableBytes) -> (s: &[u8])
    ensures
        s@ == bytes_mut_content(*b),
;

/// `BufMut::put_u8` on a `BytesMut` appends one byte.
#[verifier::external_body]
pub(crate) fn put_u8(b: &mut GrowableBytes, n: u8)
    requires
        bytes_mut_content(*old(b)).len() + 1 <= MAX_BUFFER_LEN,
    ensures
        bytes_mut_content(*final(b)) == bytes_mut_content(*old(b)).push(n),
{
    bytes::BufMut::put_u8(b, n)
}

/// `BufMut::put_i8` on a `BytesMut` appends one byte, in two's complement.
#[verifier::external_body]
pub(crate) fn put_i8(b: &mut GrowableBytes, n: i8)
    requires
        bytes_mut_content(*old(b)).len() + 1 <= MAX_BUFFER_LEN,
    ensures
        bytes_mut_content(*final(b)) == bytes_mut_content(*old(b)) + be_bytes(n as int, 1),
{
    bytes::BufMut::put_i8(b, n)
}

/// `BufMut::put_u16` on a `BytesMut` appends two bytes, big-endian.
#[verifier::external_body]
pub(crate) fn put_u16(b: &mut GrowableBytes, n: u16)
    requires
        bytes_mut_content(*old(b)).len() + 2 <= MAX_BUFFER_LEN,
    ensures
        bytes_mut_content(*final(b)) == bytes_mut_content(*old(b)) + be_bytes(n as int, 2),
{
    bytes::BufMut::put_u16(b, n)
}

/// `BufMut::put_i16` on a `BytesMut` appends two bytes, big-endian, in two's
/// complement.
#[verifier::external_body]
pub(crate) fn put_i16(b: &mut GrowableBytes, n: i16)
    requires
        bytes_mut_content(*old(b)).len() + 2 <= MAX_BUFFER_LEN,
    ensures
        bytes_mut_content(*final(b)) == bytes_mut_content(*old(b)) + be_bytes(n as int, 2),
{
    bytes::BufMut::put_i16(b, n)
}

/// `BufMut::put_u32` on a `BytesMut` appends four bytes, big-endian.
#[verifier::external_body]
pub(crate) fn put_u32(b: &mut GrowableBytes, n: u32)
    requires
        bytes_mut_content(*old(b)).len() + 4 <= MAX_BUFFER_LEN,
    ensures
        bytes_mut_content(*final(b)) == bytes_mut_content(*old(b)) + be_bytes(n as int, 4),
{
    bytes::BufMut::put_u32(b, n)
}

/// `BufMut::put_i32` on a `BytesMut` appends four bytes, big-endian, in two's
/// complement.
#[verifier::external_body]
pub(crate) fn put_i32(b: &mut GrowableBytes, n: i32)
    requires
        bytes_mut_content(*old(b)).len() + 4 <= MAX_BUFFER_LEN,
    ensures
        bytes_mut_content(*final(b)) == bytes_mut_content(*old(b)) + be_bytes(n as int, 4),
{
    bytes::BufMut::put_i32(b, n)
}

/// `BufMut::put_u64` on a `BytesMut` appends eight bytes, big-endian.
#[verifier::external_body]
pub(crate) fn put_u64(b: &mut GrowableBytes, n: u64)
    requires
        bytes_mut_content(*old(b)).len() + 8 <= MAX_BUFFER_LEN,
    ensures
        bytes_mut_content(*final(b)) == bytes_mut_content(*old(b)) + be_bytes(n as int, 8),
{
    bytes::BufMut::put_u64(b, n)
}

/// `BufMut::put_i64` on a `BytesMut` appends eight bytes, big-endian, in two's
/// complement.
#[verifier::external_body]
pub(crate) fn put_i64(b: &mut GrowableBytes, n: i64)
    requires
        bytes_mut_content(*old(b)).len() + 8 <= MAX_BUFFER_LEN,
    ensures
        bytes_mut_content(*final(b)) == bytes_mut_content(*old(b)) + be_bytes(n as int, 8),
{
    bytes::BufMut::put_i64(b, n)
}

// ---------------------------------------------------------------------------
// std::str
// ---------------------------------------------------------------------------

/// `std::str::from_utf8` succeeds on valid UTF-8 and on nothing else, and gives
/// the string that is encoded by the slice.
#[verifier::external_body]
pub(crate) fn str_from_utf8(v: &[u8]) -> (r: Option<&str>)
    ensures
        match r {
            Some(s) => valid_utf8(v@) && encode_utf8(s@) == v@,
            None => !valid_utf8(v@),
        },
{
    std::str::from_utf8(v).ok()
}

} // verus!
