//! The growable byte buffer of the `bytes` crate, as the codec uses it.
//!
//! Verus cannot look inside a `BytesMut`.  Its contents are given a name,
//! [`contents`], and each method the codec calls is wrapped in a function
//! whose contract is stated over that name and is believed, not proved.
//! A buffer never grows past `isize::MAX` bytes; the wrappers that append
//! ask their callers to stay below that limit.

use bytes::{Buf, BufMut, BytesMut};
use vstd::prelude::*;

use crate::wire::be_i32;

verus! {

/// `bytes::BytesMut`, declared so that it can stand in signatures.  Nothing
/// of its layout is visible to the verifier.
#[verifier::external_type_specification]
#[verifier::external_body]
pub struct ExBytesMut(BytesMut);

/// The bytes a buffer holds, first to last.
pub uninterp spec fn contents(buf: BytesMut) -> Seq<u8>;

/// `BytesMut::with_capacity`: a buffer that holds no bytes.  The capacity is
/// only a hint for the allocator and is bounded as `Vec` bounds it.
#[verifier::external_body]
pub(crate) fn with_capacity(capacity: usize) -> (buf: BytesMut)
    requires
        capacity <= isize::MAX,
    ensures
        contents(buf) == Seq::<u8>::empty(),
{
    BytesMut::with_capacity(capacity)
}

/// `BytesMut::len`: the number of bytes held.
#[verifier::external_body]
pub(crate) fn len(buf: &BytesMut) -> (n: usize)
    ensures
        n == contents(*buf).len(),
{
    buf.len()
}

/// `AsRef<[u8]>::as_ref` on a `BytesMut`: the held bytes as a slice.
#[verifier::external_body]
pub(crate) fn as_slice(buf: &BytesMut) -> (bytes: &[u8])
    ensures
        bytes@ == contents(*buf),
{
    buf.as_ref()
}

/// `BufMut::put_u8` on a `BytesMut`: appends one byte, growing the buffer
/// as needed.
#[verifier::external_body]
pub(crate) fn put_u8(buf: &mut BytesMut, byte: u8)
    requires
        contents(*old(buf)).len() + 1 <= isize::MAX,
    ensures
        contents(*final(buf)) == contents(*old(buf)).push(byte),
{
    buf.put_u8(byte)
}

/// `BufMut::put_i32` on a `BytesMut`: appends the four bytes of `value` in
/// big-endian order.
#[verifier::external_body]
pub(crate) fn put_i32(buf: &mut BytesMut, value: i32)
    requires
        contents(*old(buf)).len() + 4 <= isize::MAX,
    ensures
        contents(*final(buf)) == contents(*old(buf)) + be_i32(value),
{
    buf.put_i32(value)
}

/// `BufMut::put_slice` on a `BytesMut`: appends all of `bytes`.
#[verifier::external_body]
pub(crate) fn put_slice(buf: &mut BytesMut, bytes: &[u8])
    requires
        contents(*old(buf)).len() + bytes@.len() <= isize::MAX,
    ensures
        contents(*final(buf)) == contents(*old(buf)) + bytes@,
{
    buf.put_slice(bytes)
}

/// `Buf::has_remaining` on a `BytesMut`: whether any byte is left to read.
#[verifier::external_body]
pub(crate) fn has_remaining(buf: &BytesMut) -> (more: bool)
    ensures
        more == (contents(*buf).len() > 0),
{
    buf.has_remaining()
}

/// `Buf::get_u8` on a `BytesMut`: takes the first byte off the buffer.
/// The call panics on an empty buffer, which the precondition rules out.
#[verifier::external_body]
pub(crate) fn get_u8(buf: &mut BytesMut) -> (byte: u8)
    requires
        contents(*old(buf)).len() > 0,
    ensures
        byte == contents(*old(buf))[0],
        contents(*final(buf)) == contents(*old(buf)).skip(1),
{
    buf.get_u8()
}

/// `BytesMut::split_to`: splits the buffer at index `at`.  The first `at`
/// bytes are returned and the buffer keeps the rest.  The call panics when
/// `at` is past the end, which the precondition rules out.
#[verifier::external_body]
pub(crate) fn split_to(buf: &mut BytesMut, at: usize) -> (front: BytesMut)
    requires
        at <= contents(*old(buf)).len(),
    ensures
        contents(front) == contents(*old(buf)).take(at as int),
        contents(*final(buf)) == contents(*old(buf)).skip(at as int),
{
    buf.split_to(at)
}

} // verus!
