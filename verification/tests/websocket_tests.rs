use proxy::error::IoKind;
use proxy::http_tools::{header_value, read_request, HttpResponse};
use proxy::websocket::{
    accept_key, check_upgrade, classify, client_frame, client_handshake_request,
    destination_payload, fresh_key, key_of_nonce, pong_frame, read_frame, server_frame,
    server_handshake, Inbound,
};
use proxy::IOError;

#[test]
fn accept_key_of_the_protocol_example() {
    assert_eq!(accept_key(b"dGhlIHNhbXBsZSBub25jZQ=="), b"s3pPLMBiTxaQ9kYGzzhZRbK+xOo=".to_vec());
}

#[test]
fn handshake_with_key_switches_protocols() {
    let raw = b"GET /chat HTTP/1.1\r\nHost: example.com\r\nUpgrade: websocket\r\nSec-WebSocket-Key: dGhlIHNhbXBsZSBub25jZQ==\r\n\r\n";
    let request = read_request(raw).unwrap();
    let (response, outcome) = server_handshake(&request);
    assert!(outcome.is_ok());
    assert_eq!(response.status, 101);
    assert_eq!(
        header_value(&response.headers, b"Sec-WebSocket-Accept"),
        Some(b"s3pPLMBiTxaQ9kYGzzhZRbK+xOo=".to_vec())
    );
    assert_eq!(header_value(&response.headers, b"Upgrade"), Some(b"websocket".to_vec()));
    assert_eq!(header_value(&response.headers, b"Connection"), Some(b"Upgrade".to_vec()));
    assert_eq!(response.headers.len(), 8);
    assert!(response.body.is_empty());
}

#[test]
fn handshake_without_key_does_not_switch() {
    for raw in [
        b"GET / HTTP/1.1\r\nHost: example.com\r\n\r\n".as_slice(),
        b"GET / HTTP/1.1\r\nSec-WebSocket-Key:\r\n\r\n".as_slice(),
    ] {
        let request = read_request(raw).unwrap();
        let (response, outcome) = server_handshake(&request);
        assert_eq!(response.status, 200);
        assert_eq!(header_value(&response.headers, b"connection"), Some(b"Accepted".to_vec()));
        assert_eq!(response.body, b"only websocket connection accpted on this server.".to_vec());
        match outcome {
            Err(IOError::IoError(f)) => {
                assert_eq!(f.kind, IoKind::NotFound);
                assert_eq!(f.message, "WebSocket key not found in headers");
            }
            other => panic!("unexpected outcome {:?}", other),
        }
    }
}

#[test]
fn client_request_offers_key() {
    let request = client_handshake_request(b"example.com:80", b"a2V5");
    assert_eq!(request.method, b"GET".to_vec());
    assert_eq!(request.target, b"/".to_vec());
    assert_eq!(header_value(&request.headers, b"host"), Some(b"example.com:80".to_vec()));
    assert_eq!(header_value(&request.headers, b"sec-websocket-key"), Some(b"a2V5".to_vec()));
    assert_eq!(header_value(&request.headers, b"sec-websocket-version"), Some(b"13".to_vec()));
    assert_eq!(header_value(&request.headers, b"upgrade"), Some(b"websocket".to_vec()));
    assert_eq!(request.headers.len(), 9);
    let (response, outcome) = server_handshake(&request);
    assert!(outcome.is_ok());
    assert!(check_upgrade(&response).is_ok());
}

#[test]
fn keys_from_nonces() {
    assert_eq!(key_of_nonce(b"the sample nonce"), b"dGhlIHNhbXBsZSBub25jZQ==".to_vec());
    let key = fresh_key().unwrap();
    assert_eq!(key.len(), 24);
    assert_ne!(fresh_key().unwrap(), key);
}

#[test]
fn only_101_is_an_upgrade() {
    assert!(check_upgrade(&HttpResponse::new(101)).is_ok());
    let mut refused = HttpResponse::new(200);
    refused.body = b"no".to_vec();
    assert!(matches!(check_upgrade(&refused), Err(IOError::InvalidData(m)) if m == "no"));
    refused.body = vec![0xff, 0xfe];
    assert!(matches!(check_upgrade(&refused), Err(IOError::InvalidData(m)) if m.is_empty()));
}

#[test]
fn frames_by_kind() {
    assert!(matches!(read_frame(&[0x82, 0x02, b'h', b'i']), Inbound::Payload(d) if d == b"hi"));
    assert!(matches!(read_frame(&[0x81, 0x02, b'h', b'i']), Inbound::Payload(d) if d == b"hi"));
    assert!(matches!(read_frame(&[0x88, 0x00]), Inbound::Close));
    assert!(matches!(read_frame(&[0x89, 0x00]), Inbound::Ping(d) if d.is_empty()));
    assert!(matches!(read_frame(&[0x89, 0x02, b'h', b'i']), Inbound::Ping(d) if d == b"hi"));
    assert!(matches!(read_frame(&[0x8a, 0x00]), Inbound::Pong));
    assert!(matches!(read_frame(&[0x82]), Inbound::Incomplete));
    assert!(matches!(read_frame(&[0x82, 0x05, b'h']), Inbound::Incomplete));
    assert!(matches!(read_frame(&[]), Inbound::Incomplete));
    assert!(matches!(read_frame(&[0xf2, 0x00]), Inbound::Malformed(_)));
    assert!(matches!(read_frame(&[0x83, 0x00]), Inbound::Malformed(_)));
}

#[test]
fn classification_of_opcodes() {
    assert!(matches!(classify(Ok(Some((1, b"a".to_vec())))), Inbound::Payload(d) if d == b"a"));
    assert!(matches!(classify(Ok(Some((2, vec![])))), Inbound::Payload(d) if d.is_empty()));
    assert!(matches!(classify(Ok(Some((8, vec![])))), Inbound::Close));
    assert!(matches!(classify(Ok(Some((9, b"p".to_vec())))), Inbound::Ping(d) if d == b"p"));
    assert!(matches!(classify(Ok(Some((9, vec![0u8; 126])))), Inbound::Malformed(_)));
    assert!(matches!(classify(Ok(Some((10, vec![])))), Inbound::Pong));
    assert!(matches!(classify(Ok(Some((3, vec![])))), Inbound::Malformed(m) if m == "unknown opcode"));
    assert!(matches!(classify(Ok(None)), Inbound::Incomplete));
    assert!(matches!(classify(Err("bad".to_string())), Inbound::Malformed(m) if m == "bad"));
}

#[test]
fn server_frames_are_plain() {
    assert_eq!(server_frame(b"hi".to_vec()), vec![0x82, 0x02, b'h', b'i']);
    assert_eq!(server_frame(Vec::new()), vec![0x82, 0x00]);
    let long = server_frame(vec![7u8; 300]);
    assert_eq!(&long[..4], &[0x82, 126, 0x01, 0x2c]);
    assert_eq!(long.len(), 304);
}

#[test]
fn client_frames_are_masked_and_decode_back() {
    let frame = client_frame(b"payload".to_vec());
    assert_eq!(frame.len(), 2 + 4 + 7);
    assert_eq!(frame[0], 0x82);
    assert_eq!(frame[1], 0x80 | 7);
    assert!(matches!(read_frame(&frame), Inbound::Payload(d) if d == b"payload"));
}

#[test]
fn destination_reports_by_kind() {
    assert_eq!(destination_payload(Inbound::Payload(b"x".to_vec())).unwrap(), b"x".to_vec());
    assert!(matches!(destination_payload(Inbound::Ping(b"x".to_vec())), Err(IOError::EmptyData)));
    assert!(matches!(destination_payload(Inbound::Pong), Err(IOError::EmptyData)));
    match destination_payload(Inbound::Close) {
        Err(IOError::IoError(f)) => {
            assert_eq!(f.kind, IoKind::ConnectionAborted);
            assert_eq!(f.message, "server disconnected");
        }
        other => panic!("unexpected {:?}", other),
    }
    match destination_payload(Inbound::Incomplete) {
        Err(IOError::IoError(f)) => {
            assert_eq!(f.kind, IoKind::InvalidData);
            assert_eq!(f.message, "no valid message found");
        }
        other => panic!("unexpected {:?}", other),
    }
    match destination_payload(Inbound::Malformed("why".to_string())) {
        Err(IOError::IoError(f)) => {
            assert_eq!(f.kind, IoKind::Other);
            assert_eq!(f.message, "why");
        }
        other => panic!("unexpected {:?}", other),
    }
}

#[test]
fn pong_frames_carry_what_the_ping_carried() {
    assert_eq!(pong_frame(Vec::new()), vec![0x8a, 0x00]);
    assert_eq!(pong_frame(b"hi".to_vec()), vec![0x8a, 0x02, b'h', b'i']);
    let long = pong_frame(vec![1u8; 125]);
    assert_eq!(&long[..2], &[0x8a, 125]);
    assert!(matches!(read_frame(&long), Inbound::Pong));
}

#[test]
fn frame_bytes_by_length() {
    let frame = server_frame(vec![9u8; 125]);
    assert_eq!(&frame[..2], &[0x82, 125]);
    assert_eq!(frame.len(), 127);
    let frame = server_frame(vec![9u8; 126]);
    assert_eq!(&frame[..4], &[0x82, 126, 0x00, 0x7e]);
    let frame = server_frame(vec![9u8; 65535]);
    assert_eq!(&frame[..4], &[0x82, 126, 0xff, 0xff]);
    let frame = server_frame(vec![9u8; 65536]);
    assert_eq!(&frame[..10], &[0x82, 127, 0, 0, 0, 0, 0, 1, 0, 0]);
    assert_eq!(frame.len(), 10 + 65536);
    let masked = client_frame(vec![9u8; 126]);
    assert_eq!(&masked[..4], &[0x82, 0x80 | 126, 0x00, 0x7e]);
    assert_eq!(masked.len(), 4 + 4 + 126);
}
