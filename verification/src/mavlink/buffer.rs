//! The byte buffers of the codec, and what is assumed of them.
//!
//! `BytesMut` is the growable input buffer in front of a byte source, and
//! `Bytes` the shared, immutable bytes of one frame. The codec knows both
//! only by the bytes they hold.

use tokio_util::bytes::{Buf, Bytes, BytesMut};
use vstd::prelude::*;

verus! {

#[verifier::external_type_specification]
#[verifier::external_body]
pub struct ExBytesMut(BytesMut);

#[verifier::external_type_specification]
#[verifier::external_body]
pub struct ExBytes(Bytes);

/// The bytes that a buffer holds, first to last.
pub uninterp spec fn spec_contents(buf: BytesMut) -> Seq<u8>;

/// The bytes that a frozen buffer holds, first to last.
pub uninterp spec fn spec_frozen(bytes: Bytes) -> Seq<u8>;

/// Calls `BytesMut::len`: the number of bytes held.
#[verifier::external_body]
pub(crate) fn buf_len(buf: &BytesMut) -> (n: usize)
    ensures
        n == spec_contents(*buf).len(),
{
    buf.len()
}

/// Indexes the buffer as a slice: the byte at `i`.
#[verifier::external_body]
pub(crate) fn buf_byte(buf: &BytesMut, i: usize) -> (b: u8)
    requires
        i < spec_contents(*buf).len(),
    ensures
        b == spec_contents(*buf)[i as int],
{
    buf[i]
}

/// Calls `BytesMut::reserve`, which makes room and leaves the bytes as they
/// are.
#[verifier::external_body]
pub(crate) fn buf_reserve(buf: &mut BytesMut, additional: usize)
    requires
        spec_contents(*old(buf)).len() + additional <= isize::MAX,
    ensures
        spec_contents(*final(buf)) == spec_contents(*old(buf)),
{
    buf.reserve(additional)
}

/// Calls `BytesMut::split_to`: the first `at` bytes leave the buffer and are
/// returned; the rest stays.
#[verifier::external_body]
pub(crate) fn buf_split_to(buf: &mut BytesMut, at: usize) -> (head: BytesMut)
    requires
        at <= spec_contents(*old(buf)).len(),
    ensures
        spec_contents(head) == spec_contents(*old(buf)).take(at as int),
        spec_contents(*final(buf)) == spec_contents(*old(buf)).skip(at as int),
{
    buf.split_to(at)
}

/// Calls `BytesMut::freeze`, which keeps the bytes.
#[verifier::external_body]
pub(crate) fn buf_freeze(buf: BytesMut) -> (bytes: Bytes)
    ensures
        spec_frozen(bytes) == spec_contents(buf),
{
    buf.freeze()
}

/// Calls `Buf::advance`: the first `cnt` bytes are dropped.
#[verifier::external_body]
pub(crate) fn buf_advance(buf: &mut BytesMut, cnt: usize)
    requires
        cnt <= spec_contents(*old(buf)).len(),
    ensures
        spec_contents(*final(buf)) == spec_contents(*old(buf)).skip(cnt as int),
{
    buf.advance(cnt)
}

/// Calls `BytesMut::clear`: no byte stays.
#[verifier::external_body]
pub(crate) fn buf_clear(buf: &mut BytesMut)
    ensures
        spec_contents(*final(buf)) == Seq::<u8>::empty(),
{
    buf.clear()
}

/// Calls `BytesMut::extend_from_slice`: `bytes` are added behind the bytes
/// held.
#[verifier::external_body]
pub(crate) fn buf_extend(buf: &mut BytesMut, bytes: &[u8])
    requires
        spec_contents(*old(buf)).len() + bytes@.len() <= isize::MAX,
    ensures
        spec_contents(*final(buf)) == spec_contents(*old(buf)) + bytes@,
{
    buf.extend_from_slice(bytes)
}

/// Borrows the bytes of a frozen buffer as a slice.
#[verifier::external_body]
pub(crate) fn frozen_slice(bytes: &Bytes) -> (s: &[u8])
    ensures
        s@ == spec_frozen(*bytes),
{
    bytes
}

/// `Bytes::clone` gives another handle on the same bytes.
pub assume_specification[ <Bytes as Clone>::clone ](bytes: &Bytes) -> (other: Bytes)
    ensures
        spec_frozen(other) == spec_frozen(*bytes),
;

} // verus!
