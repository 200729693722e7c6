//! The byte containers that the library reads from, and what is assumed of
//! them.
//!
//! `bytes::BytesMut` is the input buffer that a decode cycle consumes.
//! `std::io::Cursor<&[u8]>` is the readable cursor that the length-prefix
//! readers advance, through the `bytes::Buf` interface. Both are opaque to the
//! verifier: each has one uninterpreted function for the bytes it still holds,
//! and every function below is a single call whose contract is assumed, not
//! proved.

use bytes::Buf;
use bytes::BytesMut;
use std::io::Cursor;
use std::ops::Deref;
use vstd::prelude::*;

verus! {

/// `bytes::BytesMut`, held and passed on but never looked into.
#[verifier::external_type_specification]
#[verifier::external_body]
pub struct ExBytesMut(BytesMut);

/// `std::io::Cursor`, held and passed on but never looked into.
#[verifier::external_type_specification]
#[verifier::external_body]
#[verifier::reject_recursive_types(T)]
pub struct ExCursor<T>(Cursor<T>);

/// The bytes that a `BytesMut` holds, first to last.
pub uninterp spec fn pending_bytes(src: BytesMut) -> Seq<u8>;

/// The bytes between a cursor's position and the end of its buffer: what
/// `Buf::chunk` shows and `Buf::remaining` counts.
pub uninterp spec fn unread_bytes(cursor: Cursor<&[u8]>) -> Seq<u8>;

/// `<BytesMut as Deref>::deref`: the contents as a slice. Assumed: the slice
/// is exactly the bytes held.
#[verifier::external_body]
pub(crate) fn source_bytes(src: &BytesMut) -> (bytes: &[u8])
    ensures
        bytes@ == pending_bytes(*src),
{
    Deref::deref(src)
}

/// `<BytesMut as Buf>::advance`: drops the first `cnt` bytes. It panics when
/// `cnt` exceeds the length, which the precondition excludes. Assumed: the
/// rest stays, in order.
#[verifier::external_body]
pub(crate) fn source_advance(src: &mut BytesMut, cnt: usize)
    requires
        cnt <= pending_bytes(*old(src)).len(),
    ensures
        pending_bytes(*final(src)) == pending_bytes(*old(src)).skip(cnt as int),
{
    src.advance(cnt)
}

/// `<BytesMut as Buf>::copy_to_slice`: fills `dst` from the front of the
/// buffer and drops what it copied. It panics when fewer than `dst.len()`
/// bytes are held, which the precondition excludes.
#[verifier::external_body]
pub(crate) fn source_copy_to_slice(src: &mut BytesMut, dst: &mut [u8])
    requires
        old(dst)@.len() <= pending_bytes(*old(src)).len(),
    ensures
        final(dst)@ == pending_bytes(*old(src)).take(old(dst)@.len() as int),
        pending_bytes(*final(src)) == pending_bytes(*old(src)).skip(old(dst)@.len() as int),
{
    src.copy_to_slice(dst)
}

/// `Cursor::new`: a cursor at position 0 over `region`. Assumed: all of
/// `region` is unread.
#[verifier::external_body]
pub(crate) fn cursor_over<'a>(region: &'a [u8]) -> (cursor: Cursor<&'a [u8]>)
    ensures
        unread_bytes(cursor) == region@,
{
    Cursor::new(region)
}

/// `<Cursor<T> as Buf>::chunk`: the unread bytes as one slice.
#[verifier::external_body]
pub(crate) fn cursor_chunk<'a, 'b>(cursor: &'b Cursor<&'a [u8]>) -> (chunk: &'b [u8])
    ensures
        chunk@ == unread_bytes(*cursor),
{
    cursor.chunk()
}

/// `<Cursor<T> as Buf>::advance`: moves the position `cnt` bytes on. It
/// panics when `cnt` exceeds what is unread, which the precondition excludes.
#[verifier::external_body]
pub(crate) fn cursor_advance(cursor: &mut Cursor<&[u8]>, cnt: usize)
    requires
        cnt <= unread_bytes(*old(cursor)).len(),
    ensures
        unread_bytes(*final(cursor)) == unread_bytes(*old(cursor)).skip(cnt as int),
{
    cursor.advance(cnt)
}

/// `<Cursor<T> as Buf>::copy_to_slice`: fills `dst` with the next unread
/// bytes and moves past them. It panics when fewer than `dst.len()` bytes are
/// unread, which the precondition excludes.
#[verifier::external_body]
pub(crate) fn cursor_copy_to_slice(cursor: &mut Cursor<&[u8]>, dst: &mut [u8])
    requires
        old(dst)@.len() <= unread_bytes(*old(cursor)).len(),
    ensures
        final(dst)@ == unread_bytes(*old(cursor)).take(old(dst)@.len() as int),
        unread_bytes(*final(cursor)) == unread_bytes(*old(cursor)).skip(old(dst)@.len() as int),
{
    cursor.copy_to_slice(dst)
}

} // verus!
