//! The record codec: a reusable buffer that one decode cycle fills with whole
//! records, and a cursor that consumes them one at a time.

use crate::buffers::{pending_bytes, source_advance, source_bytes, source_copy_to_slice};
use crate::framing::{
    after_first, complete_len, concat, declared_len, first_record, lemma_complete_len_bound,
    lemma_complete_prefix, lemma_scan_past_whole, record_span, records, starts_with_record,
    whole_records, HEADER_LEN,
};
use bytes::BytesMut;
use vstd::prelude::*;

verus! {

/// Number of bytes that one decode cycle moves out of `avail`: in framed mode
/// the run of whole records at its front, otherwise all of it.
pub open spec fn decoded_len(enabled: bool, avail: Seq<u8>) -> nat {
    if enabled {
        complete_len(avail)
    } else {
        avail.len()
    }
}

/// The outcome of feeding `chunks` to a codec, one decode cycle after each
/// chunk arrives: the batches decoded so far, laid end to end, and the bytes
/// still waiting in the source.
pub open spec fn fed(enabled: bool, chunks: Seq<Seq<u8>>) -> (Seq<u8>, Seq<u8>)
    decreases chunks.len(),
{
    if chunks.len() == 0 {
        (Seq::empty(), Seq::empty())
    } else {
        let (batches, left) = fed(enabled, chunks.drop_last());
        let avail = left + chunks.last();
        let n = decoded_len(enabled, avail) as int;
        (batches + avail.take(n), avail.skip(n))
    }
}

/// In framed mode it does not matter where the stream is cut into chunks.
/// Fed chunk by chunk, the codec has decoded exactly what one cycle over the
/// whole stream decodes: the same records in the same order, with the same
/// bytes left waiting.
pub proof fn lemma_chunking_is_transparent(chunks: Seq<Seq<u8>>)
    ensures
        fed(true, chunks).0 == concat(chunks).take(decoded_len(true, concat(chunks)) as int),
        fed(true, chunks).1 == concat(chunks).skip(decoded_len(true, concat(chunks)) as int),
        records(fed(true, chunks).0) == records(concat(chunks)),
    decreases chunks.len(),
{
    let stream = concat(chunks);
    lemma_complete_prefix(stream);
    if chunks.len() == 0 {
        assert(stream.take(0) =~= Seq::<u8>::empty());
        assert(stream.skip(0) =~= Seq::<u8>::empty());
    } else {
        let earlier = concat(chunks.drop_last());
        let (batches, left) = fed(true, chunks.drop_last());
        let avail = left + chunks.last();
        let n = complete_len(avail) as int;
        lemma_chunking_is_transparent(chunks.drop_last());
        lemma_complete_prefix(earlier);
        lemma_complete_len_bound(avail);
        lemma_scan_past_whole(batches, avail);
        assert(batches + avail =~= stream);
        assert(batches + avail.take(n) =~= stream.take(batches.len() + n));
        assert(avail.skip(n) =~= stream.skip(batches.len() + n));
    }
}

/// In opaque mode every byte that arrives is decoded as it is: the batches,
/// laid end to end, are the chunks laid end to end, and nothing waits.
pub proof fn lemma_opaque_mode_is_identity(chunks: Seq<Seq<u8>>)
    ensures
        fed(false, chunks).0 == concat(chunks),
        fed(false, chunks).1 == Seq::<u8>::empty(),
    decreases chunks.len(),
{
    if chunks.len() > 0 {
        let (batches, left) = fed(false, chunks.drop_last());
        let avail = left + chunks.last();
        lemma_opaque_mode_is_identity(chunks.drop_last());
        assert(avail =~= chunks.last());
        assert(avail.take(avail.len() as int) =~= avail);
        assert(avail.skip(avail.len() as int) =~= Seq::<u8>::empty());
    }
}

/// Decode buffer and read cursor of one connection.
pub struct TLSCodec {
    buf: Vec<u8>,
    cursor: usize,
    /// When false, a decode cycle takes whatever bytes are there as one
    /// opaque chunk and parses nothing.
    pub enable_codec: bool,
}

impl TLSCodec {
    /// Everything the last decode cycle buffered, consumed or not.
    pub closed spec fn buffered(&self) -> Seq<u8> {
        self.buf@
    }

    /// The read offset into `buffered()`.
    pub closed spec fn position(&self) -> nat {
        self.cursor as nat
    }

    /// Whether record parsing is switched on: the value of `enable_codec`.
    pub closed spec fn enabled(&self) -> bool {
        self.enable_codec
    }

    /// The cursor lies within the buffer.
    pub open spec fn wf(&self) -> bool {
        self.position() <= self.buffered().len()
    }

    /// The part of the buffer not yet consumed.
    pub open spec fn pending(&self) -> Seq<u8> {
        self.buffered().skip(self.position() as int)
    }

    /// An empty codec in framed mode.
    pub fn new() -> (codec: Self)
        ensures
            codec.wf(),
            codec.buffered() == Seq::<u8>::empty(),
            codec.position() == 0,
            codec.enabled(),
    {
        Self { buf: Vec::with_capacity(0x2000), cursor: 0, enable_codec: true }
    }

    /// Switches record parsing on or off; the buffer and the cursor stay.
    pub fn set_enabled(&mut self, enabled: bool)
        ensures
            final(self).enabled() == enabled,
            final(self).buffered() == old(self).buffered(),
            final(self).position() == old(self).position(),
    {
        self.enable_codec = enabled;
    }

    /// Empties the buffer for the next cycle. Everything buffered must have
    /// been consumed.
    pub fn reset(&mut self)
        requires
            old(self).position() == old(self).buffered().len(),
        ensures
            final(self).wf(),
            final(self).buffered() == Seq::<u8>::empty(),
            final(self).position() == 0,
            final(self).enabled() == old(self).enabled(),
    {
        self.buf.clear();
        self.cursor = 0;
    }

    /// True while unconsumed bytes remain.
    pub fn has_next(&self) -> (more: bool)
        ensures
            more == (self.position() < self.buffered().len()),
    {
        self.cursor < self.buf.len()
    }

    /// True if the buffer holds anything, consumed or not.
    pub fn has_content(&self) -> (any: bool)
        ensures
            any == (self.buffered().len() > 0),
    {
        self.buf.len() > 0
    }

    /// True if a whole record lies at the cursor, so that it can be peeked
    /// at and taken.
    pub fn record_ready(&self) -> (ready: bool)
        requires
            self.wf(),
        ensures
            ready == starts_with_record(self.pending()),
    {
        let left: usize = self.buf.len() - self.cursor;
        if left < HEADER_LEN {
            return false;
        }
        let span: usize = self.peek_record_length();
        span <= left
    }

    /// Span of the record at the cursor: its header's declared length plus
    /// the header itself.
    pub fn peek_record_length(&self) -> (span: usize)
        requires
            self.wf(),
            self.pending().len() >= HEADER_LEN,
        ensures
            span == record_span(self.pending()),
    {
        assert(self.buf@.len() == self.buf.len());
        let high: usize = self.buf[self.cursor + 3] as usize;
        let low: usize = self.buf[self.cursor + 4] as usize;
        HEADER_LEN + (high * 256 + low)
    }

    /// Content type byte of the record at the cursor.
    pub fn peek_record_type(&self) -> (content_type: u8)
        requires
            self.wf(),
            self.pending().len() > 0,
        ensures
            content_type == self.pending()[0],
    {
        self.buf[self.cursor]
    }

    /// The record at the cursor, header included, without consuming it.
    pub fn peek_record(&self) -> (record: &[u8])
        requires
            self.wf(),
            starts_with_record(self.pending()),
        ensures
            record@ == first_record(self.pending()),
            record@.len() == HEADER_LEN + declared_len(record@),
    {
        let len: usize = self.peek_record_length();
        assert(self.buf@.len() == self.buf.len());
        let record = &self.buf.as_slice()[self.cursor..self.cursor + len];
        assert(record@ =~= first_record(self.pending()));
        record
    }

    /// Consumes the record at the cursor and hands it out, header included.
    /// The cursor moves by exactly that record's span. Whatever the caller
    /// writes into the view lands in the consumed part of the buffer; since a
    /// slice keeps its length, the records behind it stay as they were.
    pub fn next_record(&mut self) -> (record: &mut [u8])
        requires
            old(self).wf(),
            starts_with_record(old(self).pending()),
        ensures
            record@ == first_record(old(self).pending()),
            record@.len() == HEADER_LEN + declared_len(record@),
            final(self).enabled() == old(self).enabled(),
            final(self).position() == old(self).position() + record_span(old(self).pending()),
            final(self).buffered() == old(self).buffered().take(old(self).position() as int)
                + final(record)@ + after_first(old(self).pending()),
            final(record)@.len() == record@.len() ==> final(self).wf() && final(self).pending()
                == after_first(old(self).pending()),
    {
        let start: usize = self.cursor;
        let len: usize = self.peek_record_length();
        assert(self.buf@.len() == self.buf.len());
        self.cursor = start + len;
        let ghost before = self.buf@;
        let (_consumed, rest) = self.buf.as_mut_slice().split_at_mut(start);
        let (record, _later) = rest.split_at_mut(len);
        proof {
            assert(record@ =~= first_record(before.skip(start as int)));
            assert(_later@ =~= after_first(before.skip(start as int)));
            assert(_consumed@ =~= before.take(start as int));
        }
        record
    }

    /// Marks everything buffered as consumed.
    pub fn skip_to_end(&mut self)
        ensures
            final(self).wf(),
            final(self).position() == final(self).buffered().len(),
            final(self).buffered() == old(self).buffered(),
            final(self).enabled() == old(self).enabled(),
    {
        self.cursor = self.buf.len();
    }

    /// The whole buffered region, for forwarding in bulk. Everything buffered
    /// must have been consumed.
    pub fn raw_buf(&self) -> (region: &[u8])
        requires
            self.position() == self.buffered().len(),
        ensures
            region@ == self.buffered(),
    {
        self.buf.as_slice()
    }

    /// One decode cycle. The previous batch must have been consumed.
    ///
    /// In framed mode the run of whole records at the front of `src` moves
    /// into the buffer, and bytes of an unfinished record stay in `src`. In
    /// opaque mode everything in `src` moves. The result is `Some` exactly
    /// when something moved; otherwise `src` is untouched.
    pub fn decode(&mut self, src: &mut BytesMut) -> (ready: Option<()>)
        requires
            old(self).position() == old(self).buffered().len(),
        ensures
            final(self).wf(),
            final(self).enabled() == old(self).enabled(),
            final(self).position() == 0,
            ready.is_some() <==> decoded_len(old(self).enabled(), pending_bytes(*old(src))) > 0,
            final(self).buffered() == pending_bytes(*old(src)).take(
                decoded_len(old(self).enabled(), pending_bytes(*old(src))) as int,
            ),
            pending_bytes(*final(src)) == pending_bytes(*old(src)).skip(
                decoded_len(old(self).enabled(), pending_bytes(*old(src))) as int,
            ),
            old(self).enabled() ==> whole_records(final(self).buffered()),
    {
        self.reset();
        let ghost avail = pending_bytes(*src);
        let bytes = source_bytes(src);
        let len: usize = bytes.len();

        if !self.enable_codec {
            if len == 0 {
                assert(avail.take(0) =~= Seq::<u8>::empty());
                assert(avail.skip(0) =~= avail);
                return None;
            }
            self.buf.extend_from_slice(bytes);
            source_advance(src, len);
            assert(self.buf@ =~= avail.take(len as int));
            return Some(());
        }
        if len < HEADER_LEN {
            assert(avail.take(0) =~= Seq::<u8>::empty());
            assert(avail.skip(0) =~= avail);
            return None;
        }
        let mut cursor: usize = 0;
        assert(avail.skip(0) =~= avail);
        while len - cursor >= HEADER_LEN
            invariant_except_break
                complete_len(avail) == cursor + complete_len(avail.skip(cursor as int)),
            invariant
                cursor <= len,
                len == avail.len(),
                bytes@ == avail,
            ensures
                complete_len(avail) == cursor,
            decreases len - cursor,
        {
            let ghost rest = avail.skip(cursor as int);
            let high: usize = bytes[cursor + 3] as usize;
            let low: usize = bytes[cursor + 4] as usize;
            let record_len: usize = high * 256 + low;
            assert(record_len == declared_len(rest));
            if len - cursor - HEADER_LEN < record_len {
                assert(!starts_with_record(rest));
                break;
            }
            assert(starts_with_record(rest));
            assert(after_first(rest) =~= avail.skip(cursor + HEADER_LEN + record_len));
            cursor += HEADER_LEN + record_len;
        }
        proof {
            lemma_complete_prefix(avail);
        }
        if cursor == 0 {
            assert(avail.take(0) =~= Seq::<u8>::empty());
            assert(avail.skip(0) =~= avail);
            return None;
        }
        self.buf.resize(cursor, 0);
        source_copy_to_slice(src, self.buf.as_mut_slice());
        Some(())
    }
}

} // verus!
