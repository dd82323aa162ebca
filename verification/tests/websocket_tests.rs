use racoon::frame::{build, build_opt, read_frame, Frame, FrameError};
use racoon::headers::Headers;
use racoon::stream::{AbstractStream, TestStreamWrapper};
use racoon::websocket::{handshake_key_base64, validate_upgrade, Message, WebSocket};

#[test]
fn test_read_single_frame() {
    let frame = Frame { fin: 1, op_code: 1, payload: "Hello World".as_bytes().to_vec() };

    let frame_bytes = build(&frame);

    let mut stream = TestStreamWrapper::new(frame_bytes, 1024);
    let result = read_frame(&mut stream, 500);

    assert_eq!(true, result.is_ok());
    let decoded_frame = result.unwrap();

    assert_eq!(frame.fin, decoded_frame.fin);
    assert_eq!(frame.op_code, decoded_frame.op_code);
    assert_eq!(frame.payload, decoded_frame.payload);
}

#[test]
fn test_read_multiple_frames() {
    let frame = Frame { fin: 1, op_code: 1, payload: "Hello World".as_bytes().to_vec() };
    let text_frame_bytes = build_opt(&frame, true);

    let frame2 = Frame { fin: 1, op_code: 9, payload: "PING".as_bytes().to_vec() };
    let ping_frame_bytes = build_opt(&frame2, true);

    let mut multiple_frame_bytes = text_frame_bytes;
    multiple_frame_bytes.extend(&ping_frame_bytes);

    let mut stream = TestStreamWrapper::new(multiple_frame_bytes, 1024);

    let result1 = read_frame(&mut stream, 500);
    assert_eq!(true, result1.is_ok());
    let decoded_frame = result1.unwrap();
    assert_eq!(frame.fin, decoded_frame.fin);
    assert_eq!(frame.op_code, decoded_frame.op_code);
    assert_eq!(frame.payload, decoded_frame.payload);

    let result2 = read_frame(&mut stream, 500);
    assert_eq!(true, result2.is_ok());
    let decoded_frame2 = result2.unwrap();
    assert_eq!(frame2.fin, decoded_frame2.fin);
    assert_eq!(frame2.op_code, decoded_frame2.op_code);
    assert_eq!(frame2.payload, decoded_frame2.payload);

    // both frames consumed back to back: nothing left in the pushback
    assert_eq!(0, stream.restored_len());
}

#[test]
fn test_frame_build_server() {
    let frame = Frame { fin: 0, op_code: 1, payload: "Hello World".as_bytes().to_vec() };

    let frame_bytes = build_opt(&frame, true);

    let mut stream = TestStreamWrapper::new(frame_bytes, 1024);
    let reader = read_frame(&mut stream, 1000);
    assert_eq!(true, reader.is_ok());

    let frame = reader.unwrap();
    assert_eq!(frame.fin, 0);
    assert_eq!(frame.op_code, 1);
    assert_eq!(frame.payload, "Hello World".as_bytes().to_vec());
}

#[test]
fn test_frame_length_round_trip() {
    // every tier of the three-tier length scheme, masked and unmasked
    for len in [0usize, 1, 125, 126, 127, 65535, 65536] {
        let payload: Vec<u8> = (0..len).map(|i| (i % 251) as u8).collect();
        for mask in [false, true] {
            let frame = Frame { fin: 1, op_code: 2, payload: payload.clone() };
            let bytes = build_opt(&frame, mask);
            let mut stream = TestStreamWrapper::new(bytes, 4096);
            let decoded = read_frame(&mut stream, 70000).unwrap();
            assert_eq!(1, decoded.fin);
            assert_eq!(2, decoded.op_code);
            assert_eq!(payload, decoded.payload);
            assert_eq!(0, stream.restored_len());
        }
    }
}

#[test]
fn test_frame_payload_ceiling() {
    let frame = Frame { fin: 1, op_code: 2, payload: vec![7u8; 501] };
    let bytes = build(&frame);
    let mut stream = TestStreamWrapper::new(bytes, 1024);
    let err = read_frame(&mut stream, 500).unwrap_err();
    assert_eq!(FrameError::PayloadSizeExceed, err);

    let frame_at = Frame { fin: 1, op_code: 2, payload: vec![7u8; 500] };
    let bytes_at = build(&frame_at);
    let mut stream_at = TestStreamWrapper::new(bytes_at, 1024);
    assert!(read_frame(&mut stream_at, 500).is_ok());
}

#[test]
fn test_frame_truncated() {
    let frame = Frame { fin: 1, op_code: 2, payload: vec![7u8; 32] };
    let mut bytes = build(&frame);
    bytes.truncate(10);
    let mut stream = TestStreamWrapper::new(bytes, 1024);
    let err = read_frame(&mut stream, 500).unwrap_err();
    assert_eq!(FrameError::ConnectionClosed, err);
}

#[test]
fn test_handshake_accept_token() {
    // the accept token for the sample key of RFC 6455's own handshake
    let token = handshake_key_base64("dGhlIHNhbXBsZSBub25jZQ==");
    assert_eq!("s3pPLMBiTxaQ9kYGzzhZRbK+xOo=", token);
    // leading and trailing spaces on the key are removed first
    let token2 = handshake_key_base64("  dGhlIHNhbXBsZSBub25jZQ==  ");
    assert_eq!("s3pPLMBiTxaQ9kYGzzhZRbK+xOo=", token2);
}

fn upgrade_headers() -> Headers {
    let mut headers = Headers::new();
    headers.set("Connection", b"keep-alive, Upgrade");
    headers.set("Upgrade", b"websocket");
    headers.set("Sec-WebSocket-Key", b"dGhlIHNhbXBsZSBub25jZQ==");
    headers
}

#[test]
fn test_validate_upgrade() {
    let headers = upgrade_headers();
    assert_eq!(
        Ok("dGhlIHNhbXBsZSBub25jZQ==".to_string()),
        validate_upgrade("GET", &headers)
    );
    assert!(validate_upgrade("POST", &headers).is_err());

    let mut no_key = upgrade_headers();
    no_key.set("Sec-WebSocket-Key", b"x");
    assert!(validate_upgrade("GET", &no_key).is_ok());

    let mut wrong_upgrade = upgrade_headers();
    wrong_upgrade.set("Upgrade", b"h2c");
    assert!(validate_upgrade("GET", &wrong_upgrade).is_err());
}

#[test]
fn test_websocket_close_frame_scenario() {
    // a close frame with the 2-byte payload 0x03 0xE8 and nothing else
    let close = Frame { fin: 1, op_code: 8, payload: vec![0x03, 0xE8] };
    let bytes = build(&close);
    let stream = TestStreamWrapper::new(bytes, 1024);

    let (mut ws, upgraded) = WebSocket::from_parts(stream, "GET", &upgrade_headers());
    assert!(upgraded);
    assert_eq!(36, ws.uid.len());

    match ws.message() {
        Some(Message::Close(code, reason)) => {
            assert_eq!(1000, code);
            assert_eq!("No close message specified.", reason);
        },
        _ => panic!("expected a close message"),
    }
    // receiving stops after a close frame
    assert!(ws.message().is_none());
}

#[test]
fn test_websocket_text_and_ping() {
    let text = Frame { fin: 1, op_code: 1, payload: b"hi there".to_vec() };
    let ping = Frame { fin: 1, op_code: 9, payload: Vec::new() };
    let mut bytes = build(&text);
    bytes.extend(build(&ping));
    let stream = TestStreamWrapper::new(bytes, 1024);

    let (mut ws, upgraded) = WebSocket::from_parts(stream, "GET", &upgrade_headers());
    assert!(upgraded);

    match ws.message() {
        Some(Message::Text(t)) => assert_eq!("hi there", t),
        _ => panic!("expected a text message"),
    }
    match ws.message() {
        Some(Message::Ping()) => {},
        _ => panic!("expected a ping"),
    }

    // the handshake and the automatic pong both went out on the stream
    let written = ws.into_stream();
    let sent = written.written_bytes();
    let text = String::from_utf8_lossy(sent);
    assert!(text.starts_with("HTTP/1.1 101 Switching Protocols\r\n"));
    assert!(text.contains("Sec-WebSocket-Accept: s3pPLMBiTxaQ9kYGzzhZRbK+xOo="));
    let pong = build(&Frame { fin: 1, op_code: 10, payload: Vec::new() });
    assert_eq!(&sent[sent.len() - pong.len()..], pong.as_slice());
}

#[test]
fn test_websocket_send_text() {
    let stream = TestStreamWrapper::new(Vec::new(), 1024);
    let (mut ws, upgraded) = WebSocket::from_parts(stream, "GET", &upgrade_headers());
    assert!(upgraded);
    ws.send_text("pong back").unwrap();
    let sent = ws.into_stream();
    let expected = build(&Frame { fin: 1, op_code: 1, payload: b"pong back".to_vec() });
    let written = sent.written_bytes();
    assert_eq!(&written[written.len() - expected.len()..], expected.as_slice());
}

#[test]
fn test_websocket_rejects_non_upgrade() {
    let stream = TestStreamWrapper::new(Vec::new(), 1024);
    let headers = Headers::new();
    let (ws, upgraded) = WebSocket::from_parts(stream, "GET", &headers);
    assert!(!upgraded);
    // nothing was written for a request that is no upgrade
    assert_eq!(0, ws.into_stream().written_bytes().len());
}

#[test]
fn test_mask_round_trip_bytes() {
    // build with a mask, read back: the payload survives the double XOR
    let payload: Vec<u8> = (0u16..256).map(|b| b as u8).collect();
    let frame = Frame { fin: 1, op_code: 2, payload: payload.clone() };
    let bytes = build_opt(&frame, true);
    assert_ne!(&bytes[bytes.len() - payload.len()..], payload.as_slice());
    let mut stream = TestStreamWrapper::new(bytes, 7);
    let decoded = read_frame(&mut stream, 1024).unwrap();
    assert_eq!(payload, decoded.payload);
}

#[test]
fn test_close_frame_with_reason() {
    // a close frame whose payload carries a code and a reason
    let mut payload = vec![0x03u8, 0xE8u8];
    payload.extend(b"bye");
    let close = Frame { fin: 1, op_code: 8, payload };
    let stream = TestStreamWrapper::new(build(&close), 1024);
    let (mut ws, upgraded) = WebSocket::from_parts(stream, "GET", &upgrade_headers());
    assert!(upgraded);
    match ws.message() {
        Some(Message::Close(code, reason)) => {
            assert_eq!(1000, code);
            assert_eq!("bye", reason);
        },
        _ => panic!("expected a close message"),
    }
}
