use bytes::BytesMut;
use tls_relay::codec::TLSCodec;
use tls_relay::passthrough::{disable_framing, on_chunk, take_buffered};
use tls_relay::relay::{ReadEvent, RelayError, Side};
use tls_relay::unwrap::UnwrapRelay;

fn framed(content_type: u8, payload: &[u8]) -> Vec<u8> {
    let mut out = vec![
        content_type,
        0x03,
        0x03,
        (payload.len() / 256) as u8,
        (payload.len() % 256) as u8,
    ];
    out.extend_from_slice(payload);
    out
}

fn decoded(wire: &[u8]) -> TLSCodec {
    let mut codec = TLSCodec::new();
    let mut src = BytesMut::from(wire);
    assert_eq!(codec.decode(&mut src), Some(()));
    assert!(src.is_empty());
    codec
}

fn opaque(bytes: &[u8]) -> TLSCodec {
    let mut codec = TLSCodec::new();
    codec.enable_codec = false;
    let mut src = BytesMut::from(bytes);
    assert_eq!(codec.decode(&mut src), Some(()));
    codec
}

#[test]
fn drain_strips_every_header() {
    let mut wire = framed(0x17, b"hello ");
    wire.extend_from_slice(&framed(0x17, b""));
    wire.extend_from_slice(&framed(0x16, b"world"));
    let mut front = decoded(&wire);
    let mut relay = UnwrapRelay::new(5);
    assert_eq!(relay.drain(&mut front), Ok(b"hello world".to_vec()));
    assert!(!front.has_content());
    assert!(!front.has_next());
}

#[test]
fn content_offset_applies_to_the_first_record_only() {
    let mut wire = framed(0x17, b"abcdef");
    wire.extend_from_slice(&framed(0x17, b"ghi"));
    let mut front = decoded(&wire);
    let mut relay = UnwrapRelay::new(8);
    assert_eq!(relay.drain(&mut front), Ok(b"defghi".to_vec()));

    let mut front = decoded(&wire);
    assert_eq!(relay.drain(&mut front), Ok(b"abcdefghi".to_vec()));
}

#[test]
fn content_offset_may_keep_the_header_or_drop_the_record() {
    let wire = framed(0x17, b"xy");
    let mut front = decoded(&wire);
    assert_eq!(UnwrapRelay::new(0).drain(&mut front), Ok(wire.clone()));
    let mut front = decoded(&wire);
    assert_eq!(UnwrapRelay::new(7).drain(&mut front), Ok(Vec::new()));
}

#[test]
fn content_offset_is_spent_by_an_empty_first_drain() {
    let mut relay = UnwrapRelay::new(9);
    let mut front = TLSCodec::new();
    assert_eq!(relay.drain(&mut front), Ok(Vec::new()));
    let mut front = decoded(&framed(0x17, b"payload"));
    assert_eq!(relay.on_front(&mut front, ReadEvent::Ready), Ok(b"payload".to_vec()));
}

#[test]
fn drain_starts_at_the_cursor() {
    let mut wire = framed(0x16, b"sniffed");
    wire.extend_from_slice(&framed(0x17, b"rest"));
    let mut front = decoded(&wire);
    front.next_record();
    let mut relay = UnwrapRelay::new(5);
    assert_eq!(relay.drain(&mut front), Ok(b"rest".to_vec()));
}

#[test]
fn drain_rejects_bytes_that_are_not_records() {
    let mut front = opaque(&[0x17, 3, 3, 0, 9, 1, 2]);
    let mut relay = UnwrapRelay::new(5);
    assert_eq!(relay.drain(&mut front), Err(RelayError::MalformedRecord));

    let mut bytes = framed(0x17, b"ok");
    bytes.extend_from_slice(&[0x17, 3, 3]);
    let mut front = opaque(&bytes);
    assert_eq!(relay.on_front(&mut front, ReadEvent::Ready), Err(RelayError::MalformedRecord));
}

#[test]
fn front_closing_or_failing_ends_the_relay() {
    let wire = framed(0x17, b"kept");
    let mut front = decoded(&wire);
    let mut relay = UnwrapRelay::new(5);
    assert_eq!(
        relay.on_front(&mut front, ReadEvent::Closed),
        Err(RelayError::Closed(Side::Front))
    );
    assert_eq!(
        relay.on_front(&mut front, ReadEvent::Failed),
        Err(RelayError::Failed(Side::Front))
    );
    assert!(front.has_next());
    assert_eq!(front.peek_record(), &wire[..]);
}

#[test]
fn window_is_the_buffer_behind_the_header() {
    let mut relay = UnwrapRelay::new(5);
    assert_eq!(relay.read_window().len(), 8187);
    assert_eq!(relay.read_window().len(), 0x2000 - 5);
}

#[test]
fn back_bytes_leave_as_one_application_record() {
    let mut relay = UnwrapRelay::new(5);
    relay.read_window()[..4].copy_from_slice(b"pong");
    assert_eq!(relay.on_back(4), Ok(&[0x17u8, 0x03, 0x03, 0x00, 0x04, b'p', b'o', b'n', b'g'][..]));
    // The window is reused, the header constants stay.
    relay.read_window()[..2].copy_from_slice(b"ab");
    assert_eq!(relay.on_back(2), Ok(&[0x17u8, 0x03, 0x03, 0x00, 0x02, b'a', b'b'][..]));
    assert_eq!(relay.on_back(3), Ok(&[0x17u8, 0x03, 0x03, 0x00, 0x03, b'a', b'b', b'n'][..]));
}

#[test]
fn back_length_is_big_endian() {
    let mut relay = UnwrapRelay::new(5);
    let data: Vec<u8> = (0..8187).map(|i| (i % 251) as u8).collect();
    relay.read_window().copy_from_slice(&data);
    let frame = relay.on_back(0x0102).unwrap().to_vec();
    assert_eq!(&frame[..5], &[0x17, 0x03, 0x03, 0x01, 0x02]);
    assert_eq!(&frame[5..], &data[..0x0102]);
    let frame = relay.on_back(8187).unwrap().to_vec();
    assert_eq!(frame.len(), 0x2000);
    assert_eq!(&frame[..5], &[0x17, 0x03, 0x03, 0x1f, 0xfb]);
    assert_eq!(&frame[5..], &data[..]);
}

#[test]
fn back_read_of_nothing_ends_the_relay() {
    let mut relay = UnwrapRelay::new(5);
    assert_eq!(relay.on_back(0), Err(RelayError::Closed(Side::Back)));
}

#[test]
fn wrapped_bytes_unwrap_to_themselves() {
    let reads: Vec<Vec<u8>> = vec![
        b"first".to_vec(),
        (0..8187).map(|i| (i % 7) as u8).collect(),
        vec![0xff],
        (0..300).map(|i| (i % 13) as u8).collect(),
    ];
    let mut sender = UnwrapRelay::new(5);
    let mut wire: Vec<u8> = Vec::new();
    for read in &reads {
        sender.read_window()[..read.len()].copy_from_slice(read);
        let frame = sender.on_back(read.len()).unwrap();
        assert!(frame.len() - 5 <= 8187);
        assert_eq!(frame[0], 0x17);
        wire.extend_from_slice(frame);
    }
    let mut receiver = UnwrapRelay::new(5);
    let mut codec = TLSCodec::new();
    let mut src = BytesMut::new();
    let mut seen: Vec<u8> = Vec::new();
    for piece in wire.chunks(1000) {
        src.extend_from_slice(piece);
        let event = if codec.decode(&mut src).is_some() {
            ReadEvent::Ready
        } else {
            continue;
        };
        seen.extend_from_slice(&receiver.on_front(&mut codec, event).unwrap());
    }
    assert!(src.is_empty());
    assert_eq!(seen, reads.concat());
}

#[test]
fn passthrough_switches_both_codecs_to_opaque() {
    let wire = framed(0x17, b"abc");
    let mut front = decoded(&wire);
    let mut back = TLSCodec::new();
    disable_framing(&mut front, &mut back);
    assert!(!front.enable_codec);
    assert!(!back.enable_codec);
    assert!(front.has_next());
    assert_eq!(front.peek_record(), &wire[..]);
    assert!(!back.has_content());
}

#[test]
fn passthrough_flushes_what_was_buffered() {
    let mut wire = framed(0x16, b"hello");
    wire.extend_from_slice(&framed(0x17, b"more"));
    let mut front = decoded(&wire);
    front.next_record();
    assert_eq!(take_buffered(&mut front), Some(&wire[..]));
    assert!(!front.has_next());
    assert!(front.has_content());

    let mut back = TLSCodec::new();
    assert_eq!(take_buffered(&mut back), None);
    assert!(!back.has_next());
}

#[test]
fn passthrough_forwards_each_chunk_as_it_came() {
    let mut front = TLSCodec::new();
    let mut back = TLSCodec::new();
    disable_framing(&mut front, &mut back);
    let mut src = BytesMut::from(&[0x17u8, 3, 3, 0, 9, 1][..]);
    assert_eq!(front.decode(&mut src), Some(()));
    assert_eq!(
        on_chunk(&mut front, Side::Front, ReadEvent::Ready),
        Ok(&[0x17u8, 3, 3, 0, 9, 1][..])
    );
    let mut src = BytesMut::from(&[2u8, 3][..]);
    assert_eq!(front.decode(&mut src), Some(()));
    assert_eq!(on_chunk(&mut front, Side::Front, ReadEvent::Ready), Ok(&[2u8, 3][..]));
    let mut src = BytesMut::from(&[9u8][..]);
    assert_eq!(back.decode(&mut src), Some(()));
    assert_eq!(on_chunk(&mut back, Side::Back, ReadEvent::Ready), Ok(&[9u8][..]));
}

#[test]
fn passthrough_ends_when_a_side_closes_or_fails() {
    let mut codec = opaque(&[1, 2, 3]);
    assert_eq!(
        on_chunk(&mut codec, Side::Front, ReadEvent::Closed),
        Err(RelayError::Closed(Side::Front))
    );
    assert_eq!(
        on_chunk(&mut codec, Side::Back, ReadEvent::Closed),
        Err(RelayError::Closed(Side::Back))
    );
    assert_eq!(
        on_chunk(&mut codec, Side::Front, ReadEvent::Failed),
        Err(RelayError::Failed(Side::Front))
    );
    assert_eq!(
        on_chunk(&mut codec, Side::Back, ReadEvent::Failed),
        Err(RelayError::Failed(Side::Back))
    );
    assert!(codec.has_next());
}
