//! Readers for fields that carry their own length: `N` bytes of big-endian
//! length, then that many bytes of content.
//!
//! Every reader works on a cursor and advances it. None of them checks that
//! the bytes are there: the caller makes sure that the length header and the
//! region it announces are still unread, which `holds_region` tells.

use crate::buffers::{cursor_advance, cursor_chunk, cursor_copy_to_slice, cursor_over, unread_bytes};
use std::io::Cursor;
use vstd::arithmetic::power2::{lemma2_to64, lemma_pow2_adds, lemma_pow2_strictly_increases, pow2};
use vstd::prelude::*;

verus! {

/// The unsigned integer that `bytes` spell, most significant byte first.
pub open spec fn be_value(bytes: Seq<u8>) -> nat
    decreases bytes.len(),
{
    if bytes.len() == 0 {
        0
    } else {
        be_value(bytes.drop_last()) * 256 + bytes.last() as nat
    }
}

/// An integer of `width` bytes fits the machine word.
pub open spec fn width_fits(width: nat) -> bool {
    width * 8 <= usize::BITS
}

/// The length that the first `width` bytes of `s` announce.
pub open spec fn announced_len(s: Seq<u8>, width: nat) -> nat
    recommends
        width <= s.len(),
{
    be_value(s.take(width as int))
}

/// `s` holds a length header of `width` bytes and all of the region that it
/// announces.
pub open spec fn has_region(s: Seq<u8>, width: nat) -> bool {
    width <= s.len() && width + announced_len(s, width) <= s.len()
}

/// The region behind the length header at the front of `s`.
pub open spec fn region(s: Seq<u8>, width: nat) -> Seq<u8>
    recommends
        has_region(s, width),
{
    s.subrange(width as int, (width + announced_len(s, width)) as int)
}

/// What follows the length header and its region.
pub open spec fn after_region(s: Seq<u8>, width: nat) -> Seq<u8>
    recommends
        has_region(s, width),
{
    s.skip((width + announced_len(s, width)) as int)
}

/// A big-endian integer of `n` bytes is below `2^(8n)`.
pub proof fn lemma_be_value_bound(bytes: Seq<u8>)
    ensures
        be_value(bytes) < pow2(8 * bytes.len()),
    decreases bytes.len(),
{
    lemma2_to64();
    if bytes.len() > 0 {
        lemma_be_value_bound(bytes.drop_last());
        lemma_pow2_adds(8 * (bytes.len() - 1) as nat, 8);
    }
}

/// Reading one more byte of a big-endian integer: the value so far moves up
/// by one byte, and stays within the machine word as long as the width fits.
proof fn lemma_be_value_step(bytes: Seq<u8>, i: int)
    requires
        0 <= i < bytes.len(),
        width_fits((i + 1) as nat),
    ensures
        be_value(bytes.take(i + 1)) == be_value(bytes.take(i)) * 256 + bytes[i],
        be_value(bytes.take(i + 1)) <= usize::MAX,
{
    let next = bytes.take(i + 1);
    assert(next.drop_last() =~= bytes.take(i));
    lemma_be_value_bound(next);
    vstd::layout::unsigned_int_max_values();
    if 8 * (i + 1) < usize::BITS {
        lemma_pow2_strictly_increases((8 * (i + 1)) as nat, usize::BITS as nat);
    }
}

/// The big-endian integer in the first `width` bytes of `bytes`.
fn be_read(bytes: &[u8], width: usize) -> (value: usize)
    requires
        width <= bytes@.len(),
        width_fits(width as nat),
    ensures
        value == be_value(bytes@.take(width as int)),
{
    let mut value: usize = 0;
    for i in 0..width
        invariant
            width <= bytes@.len(),
            width_fits(width as nat),
            value == be_value(bytes@.take(i as int)),
    {
        proof {
            lemma_be_value_step(bytes@, i as int);
        }
        value = value * 256 + bytes[i] as usize;
    }
    value
}

/// Whether `buf` still holds an `N`-byte length header and all of the region
/// that it announces: the condition under which the readers below may be
/// called. Nothing is consumed.
pub fn holds_region<const N: usize>(buf: &Cursor<&[u8]>) -> (held: bool)
    requires
        width_fits(N as nat),
    ensures
        held == has_region(unread_bytes(*buf), N as nat),
{
    let chunk = cursor_chunk(buf);
    if chunk.len() < N {
        return false;
    }
    be_read(chunk, N) <= chunk.len() - N
}

/// Reads the `N`-byte length header and returns the length it announces.
/// Only the header is consumed.
pub fn read_length_padded_header<const N: usize>(buf: &mut Cursor<&[u8]>) -> (len: usize)
    requires
        width_fits(N as nat),
        N <= unread_bytes(*old(buf)).len(),
    ensures
        len == announced_len(unread_bytes(*old(buf)), N as nat),
        unread_bytes(*final(buf)) == unread_bytes(*old(buf)).skip(N as int),
{
    let ghost unread = unread_bytes(*buf);
    let mut tmp = [0u8; 8];
    let whole: &mut [u8] = &mut tmp;
    let (header, _spare) = whole.split_at_mut(N);
    cursor_copy_to_slice(buf, header);
    assert(tmp@.take(N as int) =~= unread.take(N as int));
    be_read(&tmp, N)
}

/// Reads the length header, then skips the region it announces. Returns the
/// announced length.
pub fn skip_length_padded<const N: usize>(buf: &mut Cursor<&[u8]>) -> (len: usize)
    requires
        width_fits(N as nat),
        has_region(unread_bytes(*old(buf)), N as nat),
    ensures
        len == announced_len(unread_bytes(*old(buf)), N as nat),
        unread_bytes(*final(buf)) == after_region(unread_bytes(*old(buf)), N as nat),
{
    let len = read_length_padded_header::<N>(buf);
    cursor_advance(buf, len);
    len
}

/// Reads the length header, then moves the region it announces to the front
/// of `copy_to`, which must be large enough. Returns the announced length;
/// the rest of `copy_to` stays as it was.
pub fn read_length_padded<const N: usize>(buf: &mut Cursor<&[u8]>, copy_to: &mut [u8]) -> (len:
    usize)
    requires
        width_fits(N as nat),
        has_region(unread_bytes(*old(buf)), N as nat),
        old(copy_to)@.len() >= announced_len(unread_bytes(*old(buf)), N as nat),
    ensures
        len == announced_len(unread_bytes(*old(buf)), N as nat),
        final(copy_to)@ == region(unread_bytes(*old(buf)), N as nat) + old(copy_to)@.skip(
            len as int,
        ),
        unread_bytes(*final(buf)) == after_region(unread_bytes(*old(buf)), N as nat),
{
    let len = read_length_padded_header::<N>(buf);
    let (dest, _spare) = copy_to.split_at_mut(len);
    cursor_copy_to_slice(buf, dest);
    len
}

/// Reads the length header, then appends the region it announces to
/// `copy_to`.
pub fn extend_from_length_prefixed<const N: usize>(buf: &mut Cursor<&[u8]>, copy_to: &mut Vec<u8>)
    requires
        width_fits(N as nat),
        has_region(unread_bytes(*old(buf)), N as nat),
    ensures
        final(copy_to)@ == old(copy_to)@ + region(unread_bytes(*old(buf)), N as nat),
        unread_bytes(*final(buf)) == after_region(unread_bytes(*old(buf)), N as nat),
{
    let len = read_length_padded_header::<N>(buf);
    let chunk = cursor_chunk(buf);
    copy_to.extend_from_slice(&chunk[0..len]);
    cursor_advance(buf, len);
}

/// Reads the length header and hands `parse` a cursor over exactly the region
/// it announces. Whatever `parse` does with that cursor, `buf` ends up just
/// behind the region.
pub fn length_prefixed<const N: usize, P: FnOnce(Cursor<&[u8]>)>(
    buf: &mut Cursor<&[u8]>,
    parse: P,
)
    requires
        width_fits(N as nat),
        has_region(unread_bytes(*old(buf)), N as nat),
        forall|scope: Cursor<&[u8]>|
            unread_bytes(scope) == region(unread_bytes(*old(buf)), N as nat) ==> call_requires(
                parse,
                (scope,),
            ),
    ensures
        unread_bytes(*final(buf)) == after_region(unread_bytes(*old(buf)), N as nat),
        exists|scope: Cursor<&[u8]>|
            unread_bytes(scope) == region(unread_bytes(*old(buf)), N as nat) && call_ensures(
                parse,
                (scope,),
                (),
            ),
{
    let len = read_length_padded_header::<N>(buf);
    let chunk = cursor_chunk(buf);
    let scope = cursor_over(&chunk[0..len]);
    assert(unread_bytes(scope) =~= region(unread_bytes(*old(buf)), N as nat));
    parse(scope);
    cursor_advance(buf, len);
}

/// `length_prefixed` for a one-byte length header.
pub fn u8_length_prefixed<P: FnOnce(Cursor<&[u8]>)>(buf: &mut Cursor<&[u8]>, parse: P)
    requires
        has_region(unread_bytes(*old(buf)), 1),
        forall|scope: Cursor<&[u8]>|
            unread_bytes(scope) == region(unread_bytes(*old(buf)), 1) ==> call_requires(
                parse,
                (scope,),
            ),
    ensures
        unread_bytes(*final(buf)) == after_region(unread_bytes(*old(buf)), 1),
        exists|scope: Cursor<&[u8]>|
            unread_bytes(scope) == region(unread_bytes(*old(buf)), 1) && call_ensures(
                parse,
                (scope,),
                (),
            ),
{
    length_prefixed::<1, P>(buf, parse);
}

/// `length_prefixed` for a two-byte length header.
pub fn u16_length_prefixed<P: FnOnce(Cursor<&[u8]>)>(buf: &mut Cursor<&[u8]>, parse: P)
    requires
        has_region(unread_bytes(*old(buf)), 2),
        forall|scope: Cursor<&[u8]>|
            unread_bytes(scope) == region(unread_bytes(*old(buf)), 2) ==> call_requires(
                parse,
                (scope,),
            ),
    ensures
        unread_bytes(*final(buf)) == after_region(unread_bytes(*old(buf)), 2),
        exists|scope: Cursor<&[u8]>|
            unread_bytes(scope) == region(unread_bytes(*old(buf)), 2) && call_ensures(
                parse,
                (scope,),
                (),
            ),
{
    length_prefixed::<2, P>(buf, parse);
}

} // verus!
