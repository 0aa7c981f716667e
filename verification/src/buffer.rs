//! The byte buffers of the `bytes` crate, in which frames are built.

use vstd::prelude::*;
use crate::wire::{be_u16, be_u32, be_i32};

verus! {

/// Declares `bytes::BytesMut`, a buffer that grows as bytes are put into
/// it. Nothing is known of what is inside but through `written`.
#[verifier::external_type_specification]
#[verifier::external_body]
pub struct ExBytesMut(bytes::BytesMut);

/// Declares `bytes::Bytes`, a buffer that no longer changes. Nothing is
/// known of what is inside but through `frozen`.
#[verifier::external_type_specification]
#[verifier::external_body]
pub struct ExBytes(bytes::Bytes);

/// The bytes written to a growing buffer so far.
pub uninterp spec fn written(buf: bytes::BytesMut) -> Seq<u8>;

/// The bytes of a finished buffer.
pub uninterp spec fn frozen(data: bytes::Bytes) -> Seq<u8>;

/// Calls `BytesMut::new`. Trusted: the new buffer holds no bytes.
#[verifier::external_body]
pub(crate) fn buffer_new() -> (buf: bytes::BytesMut)
    ensures
        written(buf) == Seq::<u8>::empty(),
{
    bytes::BytesMut::new()
}

/// Calls `BytesMut::with_capacity`. Trusted: the new buffer holds no bytes,
/// whatever room it has.
#[verifier::external_body]
pub(crate) fn buffer_with_capacity(capacity: usize) -> (buf: bytes::BytesMut)
    ensures
        written(buf) == Seq::<u8>::empty(),
{
    bytes::BytesMut::with_capacity(capacity)
}

/// Calls `BufMut::put_u8`. Trusted: one byte is appended.
#[verifier::external_body]
pub(crate) fn buffer_put_u8(buf: &mut bytes::BytesMut, value: u8)
    requires
        written(*old(buf)).len() + 1 <= usize::MAX,
    ensures
        written(*final(buf)) == written(*old(buf)).push(value),
{
    bytes::BufMut::put_u8(buf, value)
}

/// Calls `BufMut::put_u16`. Trusted: the two bytes of the number are
/// appended, most significant first.
#[verifier::external_body]
pub(crate) fn buffer_put_u16(buf: &mut bytes::BytesMut, value: u16)
    requires
        written(*old(buf)).len() + 2 <= usize::MAX,
    ensures
        written(*final(buf)) == written(*old(buf)) + be_u16(value),
{
    bytes::BufMut::put_u16(buf, value)
}

/// Calls `BufMut::put_u32`. Trusted: the four bytes of the number are
/// appended, most significant first.
#[verifier::external_body]
pub(crate) fn buffer_put_u32(buf: &mut bytes::BytesMut, value: u32)
    requires
        written(*old(buf)).len() + 4 <= usize::MAX,
    ensures
        written(*final(buf)) == written(*old(buf)) + be_u32(value),
{
    bytes::BufMut::put_u32(buf, value)
}

/// Calls `BufMut::put_i32`. Trusted: the four bytes of the number in two's
/// complement are appended, most significant first.
#[verifier::external_body]
pub(crate) fn buffer_put_i32(buf: &mut bytes::BytesMut, value: i32)
    requires
        written(*old(buf)).len() + 4 <= usize::MAX,
    ensures
        written(*final(buf)) == written(*old(buf)) + be_i32(value),
{
    bytes::BufMut::put_i32(buf, value)
}

/// Calls `BufMut::put_slice`. Trusted: the bytes of the slice are appended.
#[verifier::external_body]
pub(crate) fn buffer_put_slice(buf: &mut bytes::BytesMut, src: &[u8])
    requires
        written(*old(buf)).len() + src@.len() <= usize::MAX,
    ensures
        written(*final(buf)) == written(*old(buf)) + src@,
{
    bytes::BufMut::put_slice(buf, src)
}

/// Calls `BytesMut::len`. Trusted: it counts the bytes written.
#[verifier::external_body]
pub(crate) fn buffer_len(buf: &bytes::BytesMut) -> (len: usize)
    ensures
        len == written(*buf).len(),
{
    buf.len()
}

/// Borrows the `BytesMut` as a slice. Trusted: the slice holds the bytes
/// written.
#[verifier::external_body]
pub(crate) fn buffer_as_slice(buf: &bytes::BytesMut) -> (bytes: &[u8])
    ensures
        bytes@ == written(*buf),
{
    buf.as_ref()
}

/// Calls `BytesMut::freeze`. Trusted: the finished buffer holds the bytes
/// written.
#[verifier::external_body]
pub(crate) fn buffer_freeze(buf: bytes::BytesMut) -> (data: bytes::Bytes)
    ensures
        frozen(data) == written(buf),
{
    buf.freeze()
}

/// Calls `Bytes::clone`. Trusted: the clone holds the same bytes.
#[verifier::external_body]
pub(crate) fn bytes_clone(data: &bytes::Bytes) -> (copy: bytes::Bytes)
    ensures
        frozen(copy) == frozen(*data),
{
    data.clone()
}

/// Calls `Bytes::to_vec` (through its slice). Trusted: the vector holds the
/// same bytes.
#[verifier::external_body]
pub(crate) fn bytes_to_vec(data: &bytes::Bytes) -> (copy: Vec<u8>)
    ensures
        copy@ == frozen(*data),
{
    data.to_vec()
}

} // verus!
