use proxy::http_tools::{
    add_header, header_value, parse_header, parse_reponse_line, parse_request_line, parse_status,
    parse_version, read_request, read_response, write_request, write_response, HttpRequest,
    HttpResponse, HttpVersion,
};
use proxy::IOError;

#[test]
fn request_with_headers_and_body() {
    let raw = b"GET /path HTTP/1.1\r\nHost: localhost:8080\r\nClient_Token:  abc= \r\n\r\nhello";
    let request = read_request(raw).unwrap();
    assert_eq!(request.method, b"GET".to_vec());
    assert_eq!(request.target, b"/path".to_vec());
    assert_eq!(request.version, HttpVersion::Http11);
    assert_eq!(request.headers.len(), 2);
    assert_eq!(request.headers[0].name, b"Host".to_vec());
    assert_eq!(request.headers[1].name, b"Client_Token".to_vec());
    assert_eq!(request.headers[0].value, b"localhost:8080".to_vec());
    assert_eq!(header_value(&request.headers, b"client_token"), Some(b"abc=".to_vec()));
    assert_eq!(header_value(&request.headers, b"CLIENT_TOKEN"), Some(b"abc=".to_vec()));
    assert_eq!(header_value(&request.headers, b"missing"), None);
    assert_eq!(request.body, b"hello".to_vec());
}

#[test]
fn request_without_headers_or_body() {
    let request = read_request(b"HEAD / HTTP/1.0\r\n\r\n").unwrap();
    assert_eq!(request.method, b"HEAD".to_vec());
    assert_eq!(request.version, HttpVersion::Http10);
    assert!(request.headers.is_empty());
    assert!(request.body.is_empty());
}

#[test]
fn body_may_hold_blank_lines() {
    let request = read_request(b"GET / HTTP/1.1\r\n\r\na\r\n\r\nb").unwrap();
    assert_eq!(request.body, b"a\r\n\r\nb".to_vec());
}

#[test]
fn malformed_requests_are_parse_errors() {
    let cases: Vec<&[u8]> = vec![
        b"",
        b"GET / HTTP/1.1\r\n",
        b"GET / HTTP/1.1\n\n",
        b"GET / HTTP/9.9\r\n\r\n",
        b"GET /\r\n\r\n",
        b" / HTTP/1.1\r\n\r\n",
        b"G\x01T / HTTP/1.1\r\n\r\n",
        b"GET / HTTP/1.1\r\nNoColon\r\n\r\n",
        b"GET / HTTP/1.1\r\n: value\r\n\r\n",
        b"GET / HTTP/1.1\r\nBad Name: v\r\n\r\n",
        b"GET / HTTP/1.1\r\nName: v\x00\r\n\r\n",
        b"GET / HTTP/1.1\r\nName: a\nb\r\n\r\n",
        b"\r\n\r\n",
    ];
    for raw in cases {
        assert!(matches!(read_request(raw), Err(IOError::ParseError)));
    }
}

#[test]
fn response_with_status_and_body() {
    let raw = b"HTTP/1.1 403 Forbidden\r\nContent-Length: 13\r\n\r\nInvalid Token";
    let response = read_response(raw).unwrap();
    assert_eq!(response.status, 403);
    assert_eq!(response.version, HttpVersion::Http11);
    assert_eq!(header_value(&response.headers, b"content-length"), Some(b"13".to_vec()));
    assert_eq!(response.body, b"Invalid Token".to_vec());
}

#[test]
fn malformed_responses_are_parse_errors() {
    let cases: Vec<&[u8]> = vec![
        b"HTTP/1.1 20 OK\r\n\r\n",
        b"HTTP/1.1 099 Low\r\n\r\n",
        b"HTTP/1.1 2000 OK\r\n\r\n",
        b"HTTP/1.1\r\n\r\n",
        b"200 OK\r\n\r\n",
        b"HTTP/1.1 200 OK\r\n",
    ];
    for raw in cases {
        assert!(matches!(read_response(raw), Err(IOError::ParseError)));
    }
}

#[test]
fn start_lines() {
    let (method, target, version) = parse_request_line(b"POST /x?y=1 HTTP/2.0 extra").unwrap();
    assert_eq!(method, b"POST".to_vec());
    assert_eq!(target, b"/x?y=1".to_vec());
    assert_eq!(version, HttpVersion::Http2);
    assert!(parse_request_line(b"POST  HTTP/1.1").is_none());
    assert_eq!(parse_reponse_line(b"HTTP/1.1 101 Switching Protocols"), Some((HttpVersion::Http11, 101)));
    assert_eq!(parse_reponse_line(b"HTTP/3.0 999"), Some((HttpVersion::Http3, 999)));
    assert_eq!(parse_reponse_line(b"HTTP/1.1 abc"), None);
    assert_eq!(parse_version(b"HTTP/0.9"), Some(HttpVersion::Http09));
    assert_eq!(parse_version(b"http/1.1"), None);
    assert_eq!(parse_status(b"100"), Some(100));
    assert_eq!(parse_status(b"010"), None);
}

#[test]
fn header_lines() {
    let h = parse_header(b"Sec-WebSocket-Key: dGhlIHNhbXBsZSBub25jZQ==").unwrap();
    assert_eq!(h.name, b"Sec-WebSocket-Key".to_vec());
    assert_eq!(h.value, b"dGhlIHNhbXBsZSBub25jZQ==".to_vec());
    let h = parse_header(b"X:").unwrap();
    assert_eq!(h.name, b"X".to_vec());
    assert!(h.value.is_empty());
    let h = parse_header(b"Date:Mon, 01 Jan 2024 00:00:00 GMT").unwrap();
    assert_eq!(h.value, b"Mon, 01 Jan 2024 00:00:00 GMT".to_vec());
    assert!(parse_header(b"no colon here").is_none());
}

#[test]
fn response_bytes_on_the_wire() {
    let mut response = HttpResponse::new(200);
    add_header(&mut response.headers, b"Content-Length", b"5");
    response.body = b"hello".to_vec();
    assert_eq!(
        write_response(&response),
        b"HTTP/1.1 200 OK\r\nContent-Length: 5\r\n\r\nhello".to_vec()
    );
    let refused = HttpResponse { status: 403, ..HttpResponse::new(0) };
    assert_eq!(write_response(&refused), b"HTTP/1.1 403 Forbidden\r\n\r\n".to_vec());
    let switching = HttpResponse::new(101);
    assert_eq!(write_response(&switching), b"HTTP/1.1 101 Switching Protocols\r\n\r\n".to_vec());
}

#[test]
fn request_bytes_on_the_wire() {
    let mut request = HttpRequest::new(b"GET");
    add_header(&mut request.headers, b"client_token", b"abc=");
    request.body = b"xyz".to_vec();
    let bytes = write_request(&request);
    assert_eq!(bytes, b"GET / HTTP/1.1\r\nclient_token: abc=\r\n\r\nxyz".to_vec());
    let back = read_request(&bytes).unwrap();
    assert_eq!(back.method, request.method);
    assert_eq!(back.target, request.target);
    assert_eq!(back.headers.len(), 1);
    assert_eq!(back.headers[0].value, b"abc=".to_vec());
    assert_eq!(back.body, request.body);
}

#[test]
fn header_names_stay_as_written() {
    let h = parse_header(b"Host: 127.0.0.1:9000").unwrap();
    assert_eq!(h.name, b"Host".to_vec());
    assert_eq!(h.value, b"127.0.0.1:9000".to_vec());
    let mut headers = Vec::new();
    add_header(&mut headers, b"X-Mixed-Case", b"1");
    assert_eq!(headers[0].name, b"X-Mixed-Case".to_vec());
    assert_eq!(header_value(&headers, b"x-mixed-case"), Some(b"1".to_vec()));
    assert_eq!(header_value(&headers, b"X-MIXED-CASE"), Some(b"1".to_vec()));
}
