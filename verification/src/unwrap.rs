//! The unwrap relay: records that arrive at the front lose their headers on
//! the way to the back, and bytes that arrive at the back are wrapped into
//! application-data records for the front.
//!
//! The relay itself does no I/O. The caller waits on both connections, tells
//! the relay what happened, and writes out what the relay hands back.

use crate::codec::TLSCodec;
use crate::framing::{
    after_first, application_record, complete_len, first_record, lemma_records_unfold,
    record_span, records, starts_with_record, stripped, whole_records, APPLICATION_DATA,
    HEADER_LEN, MAX_PAYLOAD, MAX_RECORD, VERSION_BYTE,
};
use crate::relay::{ReadEvent, RelayError, Side};
use vstd::prelude::*;

verus! {

/// State of one unwrap relay: the working buffer for outgoing records, and
/// how much of the next drained record is to be dropped.
pub struct UnwrapRelay {
    out_buf: [u8; MAX_RECORD],
    content_offset: usize,
}

impl UnwrapRelay {
    /// Number of leading bytes that the next drained record loses.
    pub closed spec fn first_offset(&self) -> nat {
        self.content_offset as nat
    }

    /// The part of the working buffer behind the header: where bytes read
    /// from the back are staged.
    pub closed spec fn staged(&self) -> Seq<u8> {
        self.out_buf@.skip(HEADER_LEN as int)
    }

    /// The working buffer starts with the constant part of an
    /// application-data header.
    pub closed spec fn wf(&self) -> bool {
        &&& self.out_buf@[0] == APPLICATION_DATA
        &&& self.out_buf@[1] == VERSION_BYTE
        &&& self.out_buf@[2] == VERSION_BYTE
    }

    /// A relay whose first drained record is forwarded from `content_offset`
    /// on. The constant header bytes are written once, here.
    pub fn new(content_offset: usize) -> (relay: Self)
        ensures
            relay.wf(),
            relay.first_offset() == content_offset,
            relay.staged().len() == MAX_PAYLOAD,
    {
        let mut out_buf = [0u8; MAX_RECORD];
        out_buf[0] = APPLICATION_DATA;
        out_buf[1] = VERSION_BYTE;
        out_buf[2] = VERSION_BYTE;
        Self { out_buf, content_offset }
    }

    /// Forwards every record that is pending in `front`: the concatenation
    /// of the records without their headers, in order. The first record of
    /// the relay's first drain is cut at the relay's content offset instead.
    /// Afterwards the codec is empty.
    ///
    /// Fails, with nothing to forward, if the pending bytes are not a run of
    /// whole records.
    pub fn drain(&mut self, front: &mut TLSCodec) -> (forward: Result<Vec<u8>, RelayError>)
        requires
            old(front).wf(),
            starts_with_record(old(front).pending()) ==> old(self).first_offset() <= record_span(
                old(front).pending(),
            ),
        ensures
            final(self).wf() == old(self).wf(),
            final(self).staged() == old(self).staged(),
            final(self).first_offset() == HEADER_LEN,
            final(front).wf(),
            final(front).enabled() == old(front).enabled(),
            forward is Ok <==> whole_records(old(front).pending()),
            forward matches Ok(bytes) ==> bytes@ == stripped(
                records(old(front).pending()),
                old(self).first_offset(),
            ),
            forward is Ok ==> final(front).buffered() == Seq::<u8>::empty(),
            forward is Ok ==> final(front).position() == 0,
            forward matches Err(e) ==> e == RelayError::MalformedRecord,
            forward is Err ==> final(front).buffered() == old(front).buffered(),
            forward is Err
                ==> final(front).position() == old(front).position()
                    + complete_len(old(front).pending()),
    {
        let ghost batch = front.pending();
        let ghost offset0 = self.content_offset as nat;
        let mut out: Vec<u8> = Vec::new();
        let mut offset: usize = self.content_offset;
        self.content_offset = HEADER_LEN;
        while front.has_next()
            invariant
                batch == old(front).pending(),
                offset0 == old(self).first_offset(),
                self.wf() == old(self).wf(),
                self.staged() == old(self).staged(),
                self.first_offset() == HEADER_LEN,
                front.wf(),
                front.enabled() == old(front).enabled(),
                front.buffered() == old(front).buffered(),
                old(front).wf(),
                offset == HEADER_LEN || (offset == offset0 && front.pending() == batch),
                starts_with_record(front.pending()) ==> offset <= record_span(front.pending()),
                out@ + stripped(records(front.pending()), offset as nat) == stripped(
                    records(batch),
                    offset0,
                ),
                complete_len(batch) - complete_len(front.pending()) == batch.len()
                    - front.pending().len(),
            decreases front.pending().len(),
        {
            if !front.record_ready() {
                assert(complete_len(front.pending()) == 0);
                return Err(RelayError::MalformedRecord);
            }
            let ghost pending = front.pending();
            let ghost consumed = front.buffered().take(front.position() as int);
            assert(consumed + first_record(pending) + after_first(pending) =~= front.buffered());
            let record = front.next_record();
            let record_len: usize = record.len();
            let payload = &record[offset..record_len];
            out.extend_from_slice(payload);
            proof {
                lemma_records_unfold(pending, offset as nat);
            }
            offset = HEADER_LEN;
        }
        front.reset();
        Ok(out)
    }

    /// The front direction of the relay loop. A batch is drained and
    /// forwarded; the end of the stream and a failed read each end the relay,
    /// and leave the codec alone.
    pub fn on_front(&mut self, front: &mut TLSCodec, event: ReadEvent) -> (forward: Result<
        Vec<u8>,
        RelayError,
    >)
        requires
            old(front).wf(),
            event == ReadEvent::Ready && starts_with_record(old(front).pending())
                ==> old(self).first_offset() <= record_span(old(front).pending()),
        ensures
            final(self).wf() == old(self).wf(),
            final(self).staged() == old(self).staged(),
            final(front).wf(),
            final(front).enabled() == old(front).enabled(),
            forward is Ok <==> event == ReadEvent::Ready && whole_records(old(front).pending()),
            forward matches Ok(bytes) ==> bytes@ == stripped(
                records(old(front).pending()),
                old(self).first_offset(),
            ),
            forward is Ok ==> final(front).buffered() == Seq::<u8>::empty(),
            forward is Ok ==> final(front).position() == 0,
            event == ReadEvent::Ready ==> final(self).first_offset() == HEADER_LEN,
            event == ReadEvent::Ready && forward is Err ==> forward == Err::<Vec<u8>, RelayError>(
                RelayError::MalformedRecord,
            ),
            event == ReadEvent::Ready && forward is Err
                ==> final(front).buffered() == old(front).buffered(),
            event == ReadEvent::Ready && forward is Err
                ==> final(front).position() == old(front).position()
                    + complete_len(old(front).pending()),
            event == ReadEvent::Closed ==> forward == Err::<Vec<u8>, RelayError>(
                RelayError::Closed(Side::Front),
            ),
            event == ReadEvent::Failed ==> forward == Err::<Vec<u8>, RelayError>(
                RelayError::Failed(Side::Front),
            ),
            event != ReadEvent::Ready ==> *final(front) == *old(front),
            event != ReadEvent::Ready ==> *final(self) == *old(self),
    {
        match event {
            ReadEvent::Ready => self.drain(front),
            ReadEvent::Closed => Err(RelayError::Closed(Side::Front)),
            ReadEvent::Failed => Err(RelayError::Failed(Side::Front)),
        }
    }

    /// The window of the working buffer that a read from the back fills: all
    /// of it behind the header.
    pub fn read_window(&mut self) -> (window: &mut [u8])
        requires
            old(self).wf(),
        ensures
            window@ == old(self).staged(),
            window@.len() == MAX_PAYLOAD,
            final(self).first_offset() == old(self).first_offset(),
            final(window)@.len() == window@.len() ==> final(self).wf() && final(self).staged()
                == final(window)@,
    {
        let ghost before = self.out_buf@;
        let whole: &mut [u8] = &mut self.out_buf;
        let (header, window) = whole.split_at_mut(HEADER_LEN);
        assert(window@ =~= before.skip(HEADER_LEN as int));
        assert(header@ =~= before.take(HEADER_LEN as int));
        window
    }

    /// The back direction of the relay loop: `n` bytes have been read into
    /// the window. They leave as one application-data record; a read of
    /// nothing means that the back has closed, which ends the relay.
    pub fn on_back(&mut self, n: usize) -> (frame: Result<&[u8], RelayError>)
        requires
            old(self).wf(),
            n <= MAX_PAYLOAD,
        ensures
            final(self).wf(),
            final(self).staged() == old(self).staged(),
            final(self).first_offset() == old(self).first_offset(),
            frame is Ok <==> n > 0,
            frame matches Ok(record) ==> record@ == application_record(
                old(self).staged().take(n as int),
            ) && record@.len() == HEADER_LEN + n,
            frame matches Err(e) ==> e == RelayError::Closed(Side::Back),
    {
        if n == 0 {
            return Err(RelayError::Closed(Side::Back));
        }
        let ghost before = self.out_buf@;
        self.out_buf[3] = (n / 256) as u8;
        self.out_buf[4] = (n % 256) as u8;
        assert(self.out_buf@.skip(HEADER_LEN as int) =~= before.skip(HEADER_LEN as int));
        let whole: &[u8] = &self.out_buf;
        let record = &whole[0..n + HEADER_LEN];
        assert(record@ =~= application_record(before.skip(HEADER_LEN as int).take(n as int)));
        Ok(record)
    }
}

} // verus!
