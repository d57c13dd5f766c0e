use ldactl::decoder::SseDecoder;
use ldactl::errors::SseDecodeError;
use ldactl::frame::{Event, Frame};

#[test]
fn decoder_test_event() {
    let mut bytes: Vec<u8> = b"event: foo\ndata: bar\n\n".to_vec();
    let mut decoder = SseDecoder::new();
    let event = decoder.decode(&mut bytes).unwrap().unwrap();

    // should reset after event dispatch
    assert_eq!(decoder.current_event_type().as_slice(), b"message");
    assert_eq!(
        event,
        Frame::Event(Event {
            id: None,
            name: b"foo".to_vec(),
            data: b"bar".to_vec()
        })
    );
}

#[test]
fn decoder_test_current_event_type() {
    let mut bytes: Vec<u8> = b"event: foo\ndata: bar\nevent: baz\n".to_vec();
    let mut decoder = SseDecoder::new();
    let _ = decoder.decode(&mut bytes);

    assert_eq!(decoder.current_event_type().as_slice(), b"baz");
}

#[test]
fn decoder_test_event_retry() {
    let mut bytes: Vec<u8> = b"retry: 100\n".to_vec();
    let mut decoder = SseDecoder::new();
    let event = decoder.decode(&mut bytes).unwrap().unwrap();

    assert_eq!(event, Frame::Retry(100));
}

#[test]
fn decoder_test_event_retry_invalid() {
    let mut bytes: Vec<u8> = b"retry: foo\n".to_vec();
    let mut decoder = SseDecoder::new();
    let event = decoder.decode(&mut bytes).unwrap();

    assert!(event.is_none());
}

#[test]
fn decoder_event_has_id() {
    let mut bytes: Vec<u8> = b"id: 1\nevent: foo\ndata: bar\n\n".to_vec();
    let mut decoder = SseDecoder::new();
    let event = decoder.decode(&mut bytes).unwrap().unwrap();

    assert!(matches!(event, Frame::Event(Event { id: Some(v), .. }) if v.as_slice() == b"1"));
}

#[test]
fn require_blank_line() {
    let mut bytes: Vec<u8> = b"event: foo\ndata: bar".to_vec();
    let mut decoder = SseDecoder::new();
    let event = decoder.decode(&mut bytes);
    assert!(matches!(event, Ok(None)));
    bytes.push(b'\n');
    // should error if we reported this the last write
    let event = decoder.decode_eof(&mut bytes);
    assert!(matches!(event, Err(SseDecodeError::UnexpectedEof)));
}

#[test]
fn comment_is_reported() {
    let mut bytes: Vec<u8> = b": keepalive\n".to_vec();
    let mut decoder = SseDecoder::new();
    let frame = decoder.decode(&mut bytes).unwrap().unwrap();
    assert_eq!(frame, Frame::Comment(b"keepalive".to_vec()));
}

#[test]
fn id_with_nul_is_ignored() {
    let mut bytes: Vec<u8> = b"id: a\x00b\nevent: foo\ndata: bar\n\n".to_vec();
    let mut decoder = SseDecoder::new();
    let event = decoder.decode(&mut bytes).unwrap().unwrap();
    assert!(matches!(event, Frame::Event(Event { id: None, .. })));
}

#[test]
fn id_persists_across_dispatch() {
    let mut bytes: Vec<u8> = b"id: 7\ndata: one\n\ndata: two\n\n".to_vec();
    let mut decoder = SseDecoder::new();
    let first = decoder.decode(&mut bytes).unwrap().unwrap();
    assert!(matches!(first, Frame::Event(Event { id: Some(ref v), .. }) if v.as_slice() == b"7"));
    let second = decoder.decode(&mut bytes).unwrap().unwrap();
    assert!(matches!(second, Frame::Event(Event { id: Some(ref v), .. }) if v.as_slice() == b"7"));
}

#[test]
fn event_name_must_be_utf8() {
    let mut bytes: Vec<u8> = b"event: \xff\ndata: x\n\n".to_vec();
    let mut decoder = SseDecoder::new();
    let ret = decoder.decode(&mut bytes);
    assert!(matches!(ret, Err(SseDecodeError::Utf8Error(_))));
    assert!(decoder.is_closed());
}

#[test]
fn size_limit_closes_decoder() {
    let mut bytes: Vec<u8> = b"data: 0123456789abcdef\n".to_vec();
    let mut decoder = SseDecoder::with_max_size(10);
    let ret = decoder.decode(&mut bytes);
    match ret {
        Err(SseDecodeError::ExceededSizeLimit(e)) => {
            assert_eq!(e.limit(), 10);
            assert_eq!(e.incoming_len(), 17);
            assert_eq!(e.consumed_len(), 0);
        }
        other => panic!("unexpected result: {:?}", other),
    }
    assert!(decoder.is_closed());
    // input is discarded while closed, until a reset
    let mut more: Vec<u8> = b"data: x\n\n".to_vec();
    assert!(matches!(decoder.decode(&mut more), Ok(None)));
    assert!(more.is_empty());
    decoder.reset();
    assert!(!decoder.is_closed());
    let mut again: Vec<u8> = b"data: x\n\n".to_vec();
    let event = decoder.decode(&mut again).unwrap().unwrap();
    assert!(matches!(event, Frame::Event(_)));
}

#[test]
fn crlf_line_endings_are_tolerated() {
    let mut bytes: Vec<u8> = b"event: foo\r\ndata: bar\r\n\r\n".to_vec();
    let mut decoder = SseDecoder::new();
    let event = decoder.decode(&mut bytes).unwrap().unwrap();
    assert_eq!(
        event,
        Frame::Event(Event {
            id: None,
            name: b"foo".to_vec(),
            data: b"bar".to_vec()
        })
    );
}

#[test]
fn multi_line_data_joined() {
    let mut bytes: Vec<u8> = b"data: a\ndata: b\n\n".to_vec();
    let mut decoder = SseDecoder::new();
    let event = decoder.decode(&mut bytes).unwrap().unwrap();
    assert_eq!(
        event,
        Frame::Event(Event {
            id: None,
            name: b"message".to_vec(),
            data: b"a\nb".to_vec()
        })
    );
}

#[test]
fn empty_line_without_data_resets_event_type() {
    let mut bytes: Vec<u8> = b"event: foo\n\ndata: x\n\n".to_vec();
    let mut decoder = SseDecoder::new();
    let event = decoder.decode(&mut bytes).unwrap().unwrap();
    // the blank line after `event:` reset the type without dispatching
    assert_eq!(
        event,
        Frame::Event(Event {
            id: None,
            name: b"message".to_vec(),
            data: b"x".to_vec()
        })
    );
}

#[test]
fn parts_round_trip() {
    let decoder = SseDecoder::with_max_size(64);
    let parts = decoder.into_parts();
    assert_eq!(parts.1, 64);
    let rebuilt = SseDecoder::from_parts(parts);
    assert_eq!(rebuilt.max_buf_size(), 64);
    assert_eq!(rebuilt.max_buf_len(), 64);
    assert!(!rebuilt.is_closed());
    assert_eq!(rebuilt.buf_len(), 0);
    assert_eq!(rebuilt.buf_remaining(), 64);
}

#[test]
fn check_utf8_reports_first_failure() {
    assert!(ldactl::unicode::check_utf8("caf\u{e9} \u{2603}".as_bytes()).is_ok());
    let err = ldactl::unicode::check_utf8(b"ab\xf0\x28").unwrap_err();
    assert_eq!(err.valid_up_to, 2);
    assert_eq!(err.error_len, Some(1));
    let err = ldactl::unicode::check_utf8(b"ab\xe2\x82").unwrap_err();
    assert_eq!(err.valid_up_to, 2);
    assert_eq!(err.error_len, None);
}

#[test]
fn eof_with_unterminated_event_is_an_error() {
    let mut bytes: Vec<u8> = b"event: foo\ndata: bar".to_vec();
    let mut decoder = SseDecoder::new();
    assert!(matches!(decoder.decode(&mut bytes), Ok(None)));
    let ret = decoder.decode_eof(&mut bytes);
    assert!(matches!(ret, Err(SseDecodeError::UnexpectedEof)));
    assert!(decoder.is_closed());
}
