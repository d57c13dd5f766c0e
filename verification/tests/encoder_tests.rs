use ldactl::decoder::SseDecoder;
use ldactl::encoder::SseEncoder;
use ldactl::frame::{Event, Frame};

#[test]
fn encoder_named_event() {
    let event = Frame::Event(Event {
        id: Some(b"1".to_vec()),
        name: b"example".to_vec(),
        data: b"hello, world".to_vec(),
    });
    let mut buf: Vec<u8> = Vec::new();
    let mut encoder = SseEncoder::new();
    encoder.encode(event, &mut buf).unwrap();
    let result = String::from_utf8(buf).unwrap();
    assert_eq!(result, "id: 1\nevent: example\ndata: hello, world\n\n");
}

#[test]
fn id_is_sticky() {
    let event = Frame::Event(Event {
        id: Some(b"1".to_vec()),
        name: b"example".to_vec(),
        data: b"hello, world".to_vec(),
    });
    let mut buf: Vec<u8> = Vec::new();
    let mut encoder = SseEncoder::new();
    encoder.encode(event, &mut buf).unwrap();
    let event = Frame::Event(Event {
        id: None,
        name: b"example".to_vec(),
        data: b"hello, world".to_vec(),
    });
    encoder.encode(event, &mut buf).unwrap();
    let result = String::from_utf8(buf).unwrap();
    assert_eq!(result, "id: 1\nevent: example\ndata: hello, world\n\nid: 1\nevent: example\ndata: hello, world\n\n");
}

#[test]
fn comments() {
    let event = Frame::Comment(b"hello, world".to_vec());
    let mut buf: Vec<u8> = Vec::new();
    let mut encoder = SseEncoder::new();
    encoder.encode(event, &mut buf).unwrap();
    let result = String::from_utf8(buf).unwrap();
    assert_eq!(result, ": hello, world\n");
}

#[test]
fn multi_line_comment() {
    let event = Frame::Comment(b"hello, world\nthis is a test".to_vec());
    let mut buf: Vec<u8> = Vec::new();
    let mut encoder = SseEncoder::new();
    encoder.encode(event, &mut buf).unwrap();
    let result = String::from_utf8(buf).unwrap();
    assert_eq!(result, ": hello, world\n: this is a test\n");
}

#[test]
fn retry() {
    let event = Frame::Retry(1000);
    let mut buf: Vec<u8> = Vec::new();
    let mut encoder = SseEncoder::new();
    encoder.encode(event, &mut buf).unwrap();
    let result = String::from_utf8(buf).unwrap();
    assert_eq!(result, "retry: 1000\n");
}

#[test]
fn retry_overflow() {
    let event = Frame::Retry(u64::MAX as u128 * 1000);
    let mut buf: Vec<u8> = Vec::new();
    let mut encoder = SseEncoder::new();
    encoder.encode(event, &mut buf).unwrap();
    let result = String::from_utf8(buf).unwrap();
    assert_eq!(result, "retry: 18446744073709551615000\n");
}

#[test]
fn data_multiline() {
    let event = Frame::Event(Event {
        id: Some(b"1".to_vec()),
        name: b"example".to_vec(),
        data: b"hello, world\nthis is a test".to_vec(),
    });
    let mut buf: Vec<u8> = Vec::new();
    let mut encoder = SseEncoder::new();
    encoder.encode(event, &mut buf).unwrap();
    let result = String::from_utf8(buf).unwrap();
    assert_eq!(
        result,
        "id: 1\nevent: example\ndata: hello, world\ndata: this is a test\n\n"
    );
}

#[test]
fn encoded_event_round_trips_through_decoder() {
    let original = Event {
        id: Some(b"42".to_vec()),
        name: b"example".to_vec(),
        data: b"line one\nline two".to_vec(),
    };
    let mut buf: Vec<u8> = Vec::new();
    let mut encoder = SseEncoder::new();
    encoder.encode(Frame::Event(original.clone()), &mut buf).unwrap();

    let mut decoder = SseDecoder::new();
    let decoded = decoder.decode(&mut buf).unwrap().unwrap();
    assert_eq!(decoded, Frame::Event(original));
    assert!(buf.is_empty());
}

#[test]
fn encoded_retry_round_trips_through_decoder() {
    let mut buf: Vec<u8> = Vec::new();
    let mut encoder = SseEncoder::new();
    encoder.encode(Frame::Retry(2500), &mut buf).unwrap();
    let mut decoder = SseDecoder::new();
    let decoded = decoder.decode(&mut buf).unwrap().unwrap();
    assert_eq!(decoded, Frame::Retry(2500));
}
