use athas_core::framing::{encode_frame, try_parse_frame, FrameParse, MAX_FRAME_PAYLOAD};

fn parse(bytes: &[u8]) -> FrameParse {
    try_parse_frame(&bytes.to_vec())
}

#[test]
fn encode_wraps_payload_in_length_header() {
    let framed = encode_frame(&b"hello".to_vec());
    assert_eq!(framed, b"Content-Length: 5\r\n\r\nhello".to_vec());

    let empty = encode_frame(&Vec::new());
    assert_eq!(empty, b"Content-Length: 0\r\n\r\n".to_vec());

    let long = encode_frame(&vec![7u8; 1234]);
    assert!(long.starts_with(b"Content-Length: 1234\r\n\r\n"));
    assert_eq!(long.len(), b"Content-Length: 1234\r\n\r\n".len() + 1234);
}

#[test]
fn decode_inverts_encode_with_trailing_bytes() {
    let mut buf = encode_frame(&b"{\"id\":1}".to_vec());
    let frame_len = buf.len();
    buf.extend_from_slice(b"Content-Length: 3\r\n\r\nxyz");
    match try_parse_frame(&buf) {
        FrameParse::Frame { payload, consumed } => {
            assert_eq!(payload, b"{\"id\":1}".to_vec());
            assert_eq!(consumed, frame_len);
        }
        _ => panic!("a whole frame sits at the front"),
    }
}

#[test]
fn empty_payload_parses() {
    match parse(b"Content-Length: 0\r\n\r\n") {
        FrameParse::Frame { payload, consumed } => {
            assert_eq!(payload, Vec::<u8>::new());
            assert_eq!(consumed, 21);
        }
        _ => panic!("an empty frame is complete"),
    }
}

#[test]
fn partial_frames_ask_for_more() {
    assert!(matches!(parse(b""), FrameParse::Incomplete));
    assert!(matches!(parse(b"Content-Len"), FrameParse::Incomplete));
    assert!(matches!(parse(b"Content-Length: "), FrameParse::Incomplete));
    assert!(matches!(parse(b"Content-Length: 12"), FrameParse::Incomplete));
    assert!(matches!(parse(b"Content-Length: 5\r\n"), FrameParse::Incomplete));
    assert!(matches!(parse(b"Content-Length: 5\r\n\r\nhel"), FrameParse::Incomplete));
}

#[test]
fn malformed_frames_are_rejected() {
    assert!(matches!(parse(b"GET / HTTP/1.1\r\n"), FrameParse::Invalid));
    assert!(matches!(parse(b"content-length: 5\r\n\r\nhello"), FrameParse::Invalid));
    assert!(matches!(parse(b"Content-Length: x"), FrameParse::Invalid));
    assert!(matches!(parse(b"Content-Length: 5\rX\r\nhello"), FrameParse::Invalid));
    assert!(matches!(parse(b"Content-Length: 5 \r\n\r\nhello"), FrameParse::Invalid));
    // a bare carriage return inside a later header line
    assert!(matches!(
        parse(b"Content-Length: 5\r\nContent-Type: a\rb\r\n\r\nhello"),
        FrameParse::Invalid
    ));
}

#[test]
fn additional_header_lines_are_tolerated() {
    match parse(b"Content-Length: 5\r\nContent-Type: application/vscode-jsonrpc\r\n\r\nhelloXYZ") {
        FrameParse::Frame { payload, consumed } => {
            assert_eq!(payload, b"hello".to_vec());
            assert_eq!(
                consumed,
                b"Content-Length: 5\r\nContent-Type: application/vscode-jsonrpc\r\n\r\nhello".len()
            );
        }
        _ => panic!("the extra header line is ignored"),
    }
    // still incomplete while a header line is open
    assert!(matches!(
        parse(b"Content-Length: 5\r\nContent-Type"),
        FrameParse::Incomplete
    ));
    assert!(matches!(
        parse(b"Content-Length: 5\r\nContent-Type: x\r\n"),
        FrameParse::Incomplete
    ));
}

#[test]
fn oversized_declarations_are_rejected() {
    // just over the cap, and a nine-digit declaration
    let too_big = format!("Content-Length: {}\r\n\r\n", MAX_FRAME_PAYLOAD + 1);
    assert!(matches!(parse(too_big.as_bytes()), FrameParse::Invalid));
    assert!(matches!(parse(b"Content-Length: 999999999\r\n\r\n"), FrameParse::Invalid));
    // the cap itself is still only incomplete while bytes are missing
    let at_cap = format!("Content-Length: {}\r\n\r\n", MAX_FRAME_PAYLOAD);
    assert!(matches!(parse(at_cap.as_bytes()), FrameParse::Incomplete));
}

#[test]
fn zero_padded_lengths_are_read_by_value() {
    match parse(b"Content-Length: 05\r\n\r\nhello") {
        FrameParse::Frame { payload, consumed } => {
            assert_eq!(payload, b"hello".to_vec());
            assert_eq!(consumed, 27);
        }
        _ => panic!("a zero-padded length still declares five bytes"),
    }
    assert!(matches!(
        parse(b"Content-Length: 00\r\n\r\nrest"),
        FrameParse::Frame { consumed: 22, .. }
    ));
    assert!(matches!(
        parse(b"Content-Length: 0\r\n\r\nrest"),
        FrameParse::Frame { consumed: 21, .. }
    ));
    // zero padding does not hide an oversized declaration
    assert!(matches!(parse(b"Content-Length: 099999999\r\n\r\n"), FrameParse::Invalid));
}
