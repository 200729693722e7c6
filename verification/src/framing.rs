//! The wire model of TLS record framing, as a theory over byte sequences.
//!
//! A record is a five byte header (content type, two version bytes, and a
//! big-endian sixteen bit payload length) followed by exactly that many
//! payload bytes. Nothing but the declared length is interpreted here.

use vstd::prelude::*;

verus! {

/// Number of bytes in a record header.
pub const HEADER_LEN: usize = 5;

/// Content type byte of an application-data record.
pub const APPLICATION_DATA: u8 = 0x17;

/// Both version bytes of a synthesized record.
pub const VERSION_BYTE: u8 = 0x03;

/// Size of the working buffer in which one outgoing record is assembled.
pub const MAX_RECORD: usize = 0x2000;

/// Largest payload that fits the working buffer behind a header.
pub const MAX_PAYLOAD: usize = MAX_RECORD - HEADER_LEN;

/// The payload length that the header at the start of `s` declares.
pub open spec fn declared_len(s: Seq<u8>) -> nat
    recommends
        s.len() >= HEADER_LEN,
{
    (s[3] as nat) * 256 + (s[4] as nat)
}

/// Header plus declared payload: the number of bytes the record at the start
/// of `s` spans.
pub open spec fn record_span(s: Seq<u8>) -> nat
    recommends
        s.len() >= HEADER_LEN,
{
    HEADER_LEN as nat + declared_len(s)
}

/// `s` begins with one whole record: a full header, and all the bytes that
/// the header declares.
pub open spec fn starts_with_record(s: Seq<u8>) -> bool {
    s.len() >= HEADER_LEN && record_span(s) <= s.len()
}

/// The first record of `s`, header included.
pub open spec fn first_record(s: Seq<u8>) -> Seq<u8>
    recommends
        starts_with_record(s),
{
    s.take(record_span(s) as int)
}

/// What follows the first record of `s`.
pub open spec fn after_first(s: Seq<u8>) -> Seq<u8>
    recommends
        starts_with_record(s),
{
    s.skip(record_span(s) as int)
}

/// Length of the longest prefix of `s` that is a run of whole records. The
/// scan stops at the first position where a whole record is not available.
pub open spec fn complete_len(s: Seq<u8>) -> nat
    decreases s.len(),
{
    if starts_with_record(s) {
        record_span(s) + complete_len(after_first(s))
    } else {
        0
    }
}

/// `s` is a run of whole records and nothing else.
pub open spec fn whole_records(s: Seq<u8>) -> bool {
    complete_len(s) == s.len()
}

/// The whole records at the front of `s`, in stream order, each with its
/// header.
pub open spec fn records(s: Seq<u8>) -> Seq<Seq<u8>>
    decreases s.len(),
{
    if starts_with_record(s) {
        seq![first_record(s)] + records(after_first(s))
    } else {
        Seq::empty()
    }
}

/// The bytes forwarded for a run of records when their headers are stripped:
/// the first record loses its leading `first_offset` bytes, every later one
/// its five header bytes.
pub open spec fn stripped(recs: Seq<Seq<u8>>, first_offset: nat) -> Seq<u8>
    decreases recs.len(),
{
    if recs.len() == 0 {
        Seq::empty()
    } else {
        recs[0].skip(first_offset as int) + stripped(recs.drop_first(), HEADER_LEN as nat)
    }
}

/// The application-data record that carries `payload`.
pub open spec fn application_record(payload: Seq<u8>) -> Seq<u8>
    recommends
        payload.len() <= 0xffff,
{
    seq![
        APPLICATION_DATA,
        VERSION_BYTE,
        VERSION_BYTE,
        (payload.len() / 256) as u8,
        (payload.len() % 256) as u8,
    ] + payload
}

/// Concatenation of `chunks`, in order.
pub open spec fn concat(chunks: Seq<Seq<u8>>) -> Seq<u8>
    decreases chunks.len(),
{
    if chunks.len() == 0 {
        Seq::empty()
    } else {
        concat(chunks.drop_last()) + chunks.last()
    }
}

/// Taking the first record off a stream takes the first of its records, and
/// leaves the others as the records of what follows. Stripped of their
/// headers, they are the first record's share and then the share of the rest.
pub proof fn lemma_records_unfold(s: Seq<u8>, first_offset: nat)
    requires
        starts_with_record(s),
    ensures
        records(s).len() > 0,
        records(s)[0] == first_record(s),
        records(s).drop_first() == records(after_first(s)),
        stripped(records(s), first_offset) == first_record(s).skip(first_offset as int) + stripped(
            records(after_first(s)),
            HEADER_LEN as nat,
        ),
{
    assert(records(s) =~= seq![first_record(s)] + records(after_first(s)));
    assert(records(s).drop_first() =~= records(after_first(s)));
}

/// The complete prefix never exceeds the input.
pub proof fn lemma_complete_len_bound(s: Seq<u8>)
    ensures
        complete_len(s) <= s.len(),
    decreases s.len(),
{
    if starts_with_record(s) {
        lemma_complete_len_bound(after_first(s));
    }
}

/// A run of whole records followed by anything scans as the run, then as
/// what follows it.
pub proof fn lemma_scan_past_whole(a: Seq<u8>, b: Seq<u8>)
    requires
        whole_records(a),
    ensures
        complete_len(a + b) == a.len() + complete_len(b),
        records(a + b) == records(a) + records(b),
    decreases a.len(),
{
    if starts_with_record(a) {
        let n = record_span(a) as int;
        let ab = a + b;
        lemma_complete_len_bound(after_first(a));
        assert(ab[3] == a[3] && ab[4] == a[4]);
        assert(starts_with_record(ab));
        assert(record_span(ab) == n);
        assert(after_first(ab) =~= after_first(a) + b);
        assert(first_record(ab) =~= first_record(a));
        lemma_scan_past_whole(after_first(a), b);
        assert(records(a + b) =~= records(a) + records(b));
    } else {
        assert(a.len() == 0);
        assert(a + b =~= b);
    }
}

/// The complete prefix of `s` is a run of whole records, and the scan of what
/// is left finds none: the leftover starts with an unfinished record or is
/// empty.
pub proof fn lemma_complete_prefix(s: Seq<u8>)
    ensures
        complete_len(s) <= s.len(),
        whole_records(s.take(complete_len(s) as int)),
        records(s.take(complete_len(s) as int)) == records(s),
        !starts_with_record(s.skip(complete_len(s) as int)),
        complete_len(s.skip(complete_len(s) as int)) == 0,
    decreases s.len(),
{
    lemma_complete_len_bound(s);
    if starts_with_record(s) {
        let n = record_span(s) as int;
        let rest = after_first(s);
        let k = complete_len(rest) as int;
        lemma_complete_prefix(rest);
        let head = s.take(n + k);
        assert(head[3] == s[3] && head[4] == s[4]);
        assert(starts_with_record(head));
        assert(after_first(head) =~= rest.take(k));
        assert(first_record(head) =~= first_record(s));
        assert(s.skip(n + k) =~= rest.skip(k));
    } else {
        assert(s.take(0) =~= Seq::<u8>::empty());
        assert(s.skip(0) =~= s);
    }
}

/// Input that grows never makes the scan take less, and as soon as the
/// bytes left behind by one scan have grown into a whole record, the next
/// scan takes that record.
pub proof fn lemma_growing_input(s: Seq<u8>, more: Seq<u8>)
    ensures
        complete_len(s) <= complete_len(s + more),
        starts_with_record(s.skip(complete_len(s) as int) + more) ==> complete_len(s + more)
            >= complete_len(s) + record_span(s.skip(complete_len(s) as int) + more),
{
    let n = complete_len(s) as int;
    lemma_complete_prefix(s);
    lemma_scan_past_whole(s.take(n), s.skip(n) + more);
    assert(s.take(n) + (s.skip(n) + more) =~= s + more);
}

/// Concatenation with one more chunk in front.
pub proof fn lemma_concat_prepend(first: Seq<u8>, rest: Seq<Seq<u8>>)
    ensures
        concat(seq![first] + rest) == first + concat(rest),
    decreases rest.len(),
{
    let all = seq![first] + rest;
    if rest.len() == 0 {
        assert(all.drop_last() =~= Seq::<Seq<u8>>::empty());
        assert(concat(all.drop_last()) =~= Seq::<u8>::empty());
        assert(concat(all) =~= first + concat(rest));
    } else {
        lemma_concat_prepend(first, rest.drop_last());
        assert(all.drop_last() =~= seq![first] + rest.drop_last());
        assert(all.last() == rest.last());
        assert(concat(all) =~= first + concat(rest));
    }
}

/// The records found in `s` are whole, each exactly as long as its own header
/// says, and laid end to end in stream order they are the complete prefix of
/// `s`: nothing is lost, repeated or moved.
pub proof fn lemma_records_cover(s: Seq<u8>)
    ensures
        concat(records(s)) == s.take(complete_len(s) as int),
        forall|i: int|
            0 <= i < records(s).len() ==> (#[trigger] records(s)[i]).len() >= HEADER_LEN
                && records(s)[i].len() == record_span(records(s)[i]),
    decreases s.len(),
{
    if starts_with_record(s) {
        let rest = after_first(s);
        lemma_records_cover(rest);
        lemma_complete_len_bound(rest);
        lemma_concat_prepend(first_record(s), records(rest));
        assert(first_record(s) + rest.take(complete_len(rest) as int) =~= s.take(
            complete_len(s) as int,
        ));
        assert(first_record(s)[3] == s[3] && first_record(s)[4] == s[4]);
        assert forall|i: int| 0 <= i < records(s).len() implies (#[trigger] records(s)[i]).len()
            >= HEADER_LEN && records(s)[i].len() == record_span(records(s)[i]) by {
            if i > 0 {
                assert(records(s)[i] == records(rest)[i - 1]);
            }
        }
    } else {
        assert(s.take(0) =~= Seq::<u8>::empty());
    }
}

/// Stripping a run of records with one more record at its end.
pub proof fn lemma_stripped_push(recs: Seq<Seq<u8>>, last: Seq<u8>, first_offset: nat)
    ensures
        stripped(recs.push(last), first_offset) == stripped(recs, first_offset) + last.skip(
            if recs.len() == 0 {
                first_offset as int
            } else {
                HEADER_LEN as int
            },
        ),
    decreases recs.len(),
{
    let all = recs.push(last);
    if recs.len() == 0 {
        assert(all.drop_first() =~= Seq::<Seq<u8>>::empty());
        assert(stripped(all.drop_first(), HEADER_LEN as nat) =~= Seq::<u8>::empty());
    } else {
        lemma_stripped_push(recs.drop_first(), last, HEADER_LEN as nat);
        assert(all.drop_first() =~= recs.drop_first().push(last));
        assert(all[0] == recs[0]);
        if recs.len() == 1 {
            assert(recs.drop_first().len() == 0);
        }
    }
}

/// One application-data record for each of `chunks`, in order.
pub open spec fn wrapped(chunks: Seq<Seq<u8>>) -> Seq<Seq<u8>> {
    Seq::new(chunks.len(), |i: int| application_record(chunks[i]))
}

/// Wrapping is undone by unwrapping. When every chunk fits a record, each
/// record that wraps one of `chunks` is an application-data record that
/// declares the length of its chunk; sent one after the other, the records
/// are a run of whole records; scanning that stream finds exactly those
/// records; and stripping their headers gives the chunks back, concatenated
/// in order.
pub proof fn lemma_wrapped_stream(chunks: Seq<Seq<u8>>)
    requires
        forall|i: int| 0 <= i < chunks.len() ==> (#[trigger] chunks[i]).len() <= 0xffff,
    ensures
        forall|i: int|
            0 <= i < chunks.len() ==> (#[trigger] wrapped(chunks)[i])[0] == APPLICATION_DATA
                && declared_len(wrapped(chunks)[i]) == chunks[i].len(),
        whole_records(concat(wrapped(chunks))),
        records(concat(wrapped(chunks))) == wrapped(chunks),
        stripped(wrapped(chunks), HEADER_LEN as nat) == concat(chunks),
    decreases chunks.len(),
{
    if chunks.len() == 0 {
        assert(wrapped(chunks) =~= Seq::<Seq<u8>>::empty());
    } else {
        let init = chunks.drop_last();
        let payload = chunks.last();
        let record = application_record(payload);
        let stream = concat(wrapped(init));
        lemma_wrapped_stream(init);
        assert(wrapped(chunks).drop_last() =~= wrapped(init));
        assert(wrapped(chunks).last() == record);
        assert(wrapped(chunks) =~= wrapped(init).push(record));

        assert(declared_len(record) == payload.len());
        assert(starts_with_record(record));
        assert(after_first(record) =~= Seq::<u8>::empty());
        assert(first_record(record) =~= record);
        assert(complete_len(after_first(record)) == 0);
        assert(records(after_first(record)) =~= Seq::<Seq<u8>>::empty());
        assert(records(record) =~= seq![record]);

        lemma_scan_past_whole(stream, record);
        lemma_stripped_push(wrapped(init), record, HEADER_LEN as nat);
        assert(record.skip(HEADER_LEN as int) =~= payload);
    }
}

} // verus!
