use proxy::http_tools::{
    add_header, read_request, read_response, write_request, write_response, HttpRequest,
    HttpResponse,
};
use proxy::websocket::{client_frame, read_frame, server_frame, Inbound};
use proxy::{Base64, IOError, PipelineDirection, PipelineStep, RSult, Read};

/// A fixed sequence of bytes that looks irregular.
fn sample(len: usize, seed: u32) -> Vec<u8> {
    let mut state = seed.wrapping_mul(2654435761).wrapping_add(12345);
    (0..len)
        .map(|_| {
            state = state.wrapping_mul(1664525).wrapping_add(1013904223);
            (state >> 24) as u8
        })
        .collect()
}

fn encoded_len(count: usize) -> usize {
    4 * (count / 3) + [0, 2, 3][count % 3]
}

#[test]
fn decoding_undoes_encoding_for_many_payloads() {
    for len in 0..200 {
        let data = sample(len, len as u32);
        let mut step = Base64::new(Some("fw"));
        step.set_pipeline_direction(PipelineDirection::Forward);
        assert_eq!(step.write(&data).unwrap(), encoded_len(len));
        let text = step.read().unwrap();
        assert_eq!(text.len(), encoded_len(len));
        assert!(!text.contains(&b'\n'));
        step.set_pipeline_direction(PipelineDirection::Backward);
        assert_eq!(step.write(&text).unwrap(), len);
        assert_eq!(step.read().unwrap(), data);
    }
}

#[test]
fn encoding_undoes_decoding_for_every_short_text() {
    let symbols: Vec<u8> = (0x20u8..0x7f).collect();
    let mut accepted = 0;
    let mut texts: Vec<Vec<u8>> = vec![Vec::new()];
    for a in &symbols {
        texts.push(vec![*a]);
        for b in &symbols {
            texts.push(vec![*a, *b]);
        }
    }
    for a in [b'!', b'3', b'r', b'=', b'7'] {
        for b in &symbols {
            for c in &symbols {
                texts.push(vec![a, *b, *c]);
            }
        }
    }
    for text in texts {
        let mut step = Base64::new(Some("bw"));
        step.set_pipeline_direction(PipelineDirection::Forward);
        match step.write(&text) {
            Ok(count) => {
                accepted += 1;
                let data = step.read().unwrap();
                assert_eq!(data.len(), count);
                assert_eq!(text.len(), encoded_len(count));
                step.set_pipeline_direction(PipelineDirection::Backward);
                step.write(&data).unwrap();
                assert_eq!(step.read().unwrap(), text);
            }
            Err(e) => {
                assert!(matches!(e, IOError::ParseError));
                assert_eq!(step.len().unwrap(), 0);
            }
        }
    }
    assert!(accepted > 1000);
}

#[test]
fn salt_prefix_has_the_length_asked_for() {
    for length in [0usize, 1, 2, 7, 64, 1000] {
        let mut step = RSult::with_mode(PipelineDirection::Forward, length);
        let payload = sample(33, length as u32);
        assert_eq!(step.write(&payload).unwrap(), length + 33);
        let salted = step.read().unwrap();
        assert_eq!(salted.len(), length + 33);
        assert_eq!(&salted[length..], &payload[..]);
        step.set_pipeline_direction(PipelineDirection::Backward);
        assert_eq!(step.write(&salted).unwrap(), 33);
        assert_eq!(step.read().unwrap(), payload);
    }
}

#[test]
fn salt_is_drawn_anew() {
    let mut step = RSult::with_mode(PipelineDirection::Forward, 16);
    step.write(b"").unwrap();
    let first = step.read().unwrap();
    step.write(b"").unwrap();
    let second = step.read().unwrap();
    assert_eq!(first.len(), 16);
    assert_ne!(first, second);
}

#[test]
fn frames_read_back_as_their_payload() {
    for len in [0usize, 1, 125, 126, 127, 65535, 65536, 70000] {
        let data = sample(len, 7);
        let plain = server_frame(data.clone());
        assert!(matches!(read_frame(&plain), Inbound::Payload(d) if d == data));
        let masked = client_frame(data.clone());
        assert_eq!(masked.len(), plain.len() + 4);
        assert!(matches!(read_frame(&masked), Inbound::Payload(d) if d == data));
    }
}

#[test]
fn every_status_has_a_text() {
    for status in 100u16..=999 {
        let wire = write_response(&HttpResponse::new(status));
        let head = format!("HTTP/1.1 {} ", status);
        assert!(wire.starts_with(head.as_bytes()));
        assert!(wire.ends_with(b"\r\n\r\n"));
        assert!(wire.len() > head.len() + 4);
        let line = &wire[..wire.len() - 4];
        assert!(!line.contains(&b'\r') && !line.contains(&b'\n'));
        let back = read_response(&wire).unwrap();
        assert_eq!(back.status, status);
        assert!(back.headers.is_empty() && back.body.is_empty());
    }
    assert_eq!(write_response(&HttpResponse::new(400)), b"HTTP/1.1 400 Bad Request\r\n\r\n".to_vec());
    assert_eq!(
        write_response(&HttpResponse::new(799)),
        b"HTTP/1.1 799 <unknown status code>\r\n\r\n".to_vec()
    );
}

#[test]
fn what_is_written_is_read_back() {
    use_round_trip(b"GET", b"/", &[], b"");
    use_round_trip(b"HEAD", b"/a/b?c=d", &[(b"client_token", b"dG9rZW4=")], b"");
    use_round_trip(
        b"GET",
        b"/",
        &[(b"content-length", b"5"), (b"client_token", b"a b\tc"), (b"x-empty", b"")],
        b"hello\r\n\r\nmore",
    );
}

fn use_round_trip(method: &[u8], target: &[u8], headers: &[(&[u8], &[u8])], body: &[u8]) {
    let mut request = HttpRequest::new(method);
    request.target = target.to_vec();
    for (name, value) in headers {
        add_header(&mut request.headers, name, value);
    }
    request.body = body.to_vec();
    let back = read_request(&write_request(&request)).unwrap();
    assert_eq!(back.method, request.method);
    assert_eq!(back.target, request.target);
    assert_eq!(back.version, request.version);
    assert_eq!(back.headers.len(), request.headers.len());
    for (a, b) in back.headers.iter().zip(request.headers.iter()) {
        assert_eq!(a.name, b.name);
        assert_eq!(a.value, b.value);
    }
    assert_eq!(back.body, request.body);
}
