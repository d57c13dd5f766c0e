use ldactl::field_decoder::{Field, FieldFrame, FieldKind, SseFieldDecoder};

#[test]
fn empty_line() {
    let mut decoder = SseFieldDecoder::default();
    let mut buf: Vec<u8> = b"\n".to_vec();
    let result = decoder.decode(&mut buf);
    assert_eq!(result, Some(FieldFrame::EmptyLine));
}

#[test]
fn empty_line_cr() {
    let mut decoder = SseFieldDecoder::default();
    let mut buf: Vec<u8> = b"\r\n".to_vec();
    let result = decoder.decode(&mut buf);
    assert_eq!(result, Some(FieldFrame::EmptyLine));
}

#[test]
fn field_decoder_named_event() {
    let mut decoder = SseFieldDecoder::default();
    let mut buf: Vec<u8> = b"event: test\n".to_vec();
    let result = decoder.decode(&mut buf);
    assert_eq!(
        result,
        Some(FieldFrame::Field(Field(FieldKind::Event, b"test\n".to_vec())))
    );
}

#[test]
fn data_field() {
    let mut decoder = SseFieldDecoder::default();
    let mut buf: Vec<u8> = b"data: test\n".to_vec();
    let result = decoder.decode(&mut buf);
    assert_eq!(
        result,
        Some(FieldFrame::Field(Field(FieldKind::Data, b"test\n".to_vec())))
    );
}

#[test]
fn data_field_split() {
    let mut decoder = SseFieldDecoder::default();
    let mut buf: Vec<u8> = b"data: hello ".to_vec();
    let result = decoder.decode(&mut buf);
    assert_eq!(result, None);
    buf.extend_from_slice(b"world\n");
    let result = decoder.decode(&mut buf);
    assert_eq!(
        result,
        Some(FieldFrame::Field(Field(
            FieldKind::Data,
            b"hello world\n".to_vec()
        )))
    );
}

#[test]
fn comment_field() {
    let mut decoder = SseFieldDecoder::default();
    let mut buf: Vec<u8> = b": test\n".to_vec();
    let result = decoder.decode(&mut buf);
    assert_eq!(
        result,
        Some(FieldFrame::Field(Field(FieldKind::Comment, b"test\n".to_vec())))
    );
}

#[test]
fn retry_field() {
    let mut decoder = SseFieldDecoder::default();
    let mut buf: Vec<u8> = b"retry: 1000\n".to_vec();
    let result = decoder.decode(&mut buf);
    assert_eq!(
        result,
        Some(FieldFrame::Field(Field(FieldKind::Retry, b"1000\n".to_vec())))
    );
}

#[test]
fn id_field() {
    let mut decoder = SseFieldDecoder::default();
    let mut buf: Vec<u8> = b"id: 1000\n".to_vec();
    let result = decoder.decode(&mut buf);
    assert_eq!(
        result,
        Some(FieldFrame::Field(Field(FieldKind::Id, b"1000\n".to_vec())))
    );
}

#[test]
fn unamed_event() {
    let mut decoder = SseFieldDecoder::default();
    let mut buf: Vec<u8> = b"event:\n".to_vec();
    let result = decoder.decode(&mut buf);
    assert_eq!(
        result,
        Some(FieldFrame::Field(Field(FieldKind::Event, b"\n".to_vec())))
    );
}

#[test]
fn unamed_event_with_space() {
    let mut decoder = SseFieldDecoder::default();
    let mut buf: Vec<u8> = b"event: \n".to_vec();
    let result = decoder.decode(&mut buf);
    assert_eq!(
        result,
        Some(FieldFrame::Field(Field(FieldKind::Event, b"\n".to_vec())))
    );
}

#[test]
fn values_trim_first_space() {
    let fields = vec!["event", "data", "retry", "id", "unknown"];
    for field in fields {
        let mut decoder = SseFieldDecoder::default();
        let mut buf: Vec<u8> = format!("{}: value\n", field).into_bytes();
        let result = decoder.decode(&mut buf);
        assert!(
            matches!(result, Some(FieldFrame::Field(Field(_, value))) if value.as_slice() == b"value\n")
        );
    }
}

#[test]
fn field_no_colon() {
    let mut decoder = SseFieldDecoder::default();
    let mut buf: Vec<u8> = b"event\n".to_vec();
    let result = decoder.decode(&mut buf);
    assert_eq!(
        result,
        Some(FieldFrame::Field(Field(
            FieldKind::UnknownField(b"event\n".to_vec()),
            Vec::new()
        )))
    );
}

#[test]
fn field_cr() {
    let mut decoder = SseFieldDecoder::default();
    let mut buf: Vec<u8> = b"event\r:\r\n".to_vec();
    let result = decoder.decode(&mut buf);
    assert_eq!(
        result,
        Some(FieldFrame::Field(Field(
            FieldKind::UnknownField(b"event\r".to_vec()),
            b"\r\n".to_vec()
        )))
    );
}

#[test]
fn strips_bom() {
    let mut decoder = SseFieldDecoder::default();
    let mut buf: Vec<u8> = "\u{feff}event: test\n".as_bytes().to_vec();
    let result = decoder.decode(&mut buf);
    assert_eq!(
        result,
        Some(FieldFrame::Field(Field(FieldKind::Event, b"test\n".to_vec())))
    );
}

#[test]
fn strips_partial_bom() {
    let mut decoder = SseFieldDecoder::default();
    let partial_bom: &[u8] = &[0xEF];
    let mut buf: Vec<u8> = partial_bom.to_vec();
    let result = decoder.decode(&mut buf);
    assert_eq!(result, None);
    buf.push(0xBB);
    let result = decoder.decode(&mut buf);
    assert_eq!(result, None);
    buf.push(0xBF);
    buf.extend_from_slice(b"event: test\n");
    let result = decoder.decode(&mut buf);
    assert_eq!(
        result,
        Some(FieldFrame::Field(Field(FieldKind::Event, b"test\n".to_vec())))
    );
}

#[test]
fn does_not_strip_partial_invalid_bom() {
    let mut decoder = SseFieldDecoder::default();
    let partial_bom: &[u8] = &[0xEF, 0xBB];
    let mut buf: Vec<u8> = partial_bom.to_vec();
    let result = decoder.decode(&mut buf);
    assert_eq!(result, None);
    buf.extend_from_slice(b"event: test\n");
    let result = decoder.decode(&mut buf);
    assert_eq!(
        result,
        Some(FieldFrame::Field(Field(
            FieldKind::UnknownField(b"\xEF\xBBevent".to_vec()),
            b"test\n".to_vec()
        )))
    );
}

#[test]
fn does_not_strip_inner_bom() {
    let mut decoder = SseFieldDecoder::default();
    let mut buf: Vec<u8> = "event: \u{feff}test\n".as_bytes().to_vec();
    let result = decoder.decode(&mut buf);
    assert_eq!(
        result,
        Some(FieldFrame::Field(Field(
            FieldKind::Event,
            "\u{feff}test\n".as_bytes().to_vec()
        )))
    );
}

#[test]
fn advance_if() {
    let mut bytes: Vec<u8> = b"Hello, world!".to_vec();
    ldactl::bufext::bump_if(&mut bytes, b'H');
    assert_eq!(bytes.as_slice(), b"ello, world!");
    let mut bytes: Vec<u8> = b"f".to_vec();
    ldactl::bufext::advance(&mut bytes, 1);
    assert!(bytes.is_empty());
    ldactl::bufext::bump_if(&mut bytes, b'f');
    assert!(bytes.is_empty());
}

#[test]
fn find_pos() {
    let bytes: Vec<u8> = b"Hello, world!".to_vec();
    let pos = ldactl::bufext::find_either(&bytes, 0, b',', b',');
    assert_eq!(pos, Some(5));
    assert_eq!(bytes[pos.unwrap()], b',');

    let bytes: Vec<u8> = b"Hello, world!".to_vec();
    let pos = ldactl::bufext::find_either(&bytes, 0, b'X', b'X');
    assert_eq!(pos, None);
}
