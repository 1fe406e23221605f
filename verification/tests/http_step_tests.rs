use proxy::error::IoKind;
use proxy::http_step::{Action, Judgement};
use proxy::http_tools::{add_header, header_value, HttpResponse};
use proxy::{HttpStep, IOError};

fn response(status: u16, body: &[u8]) -> HttpResponse {
    let mut r = HttpResponse::new(status);
    r.body = body.to_vec();
    r
}

fn invalid_data(e: &IOError, told: &str) -> bool {
    matches!(e, IOError::IoError(f) if f.kind == IoKind::InvalidData && f.message == told)
}

#[test]
fn new_step_has_nothing() {
    let mut step = HttpStep::new("http://upstream:8080");
    assert_eq!(step.address(), "http://upstream:8080");
    assert!(!step.has_token());
    assert_eq!(step.pending(), None);
    assert!(matches!(step.begin(), Action::Handshake));
}

#[test]
fn writes_wait_for_the_next_read() {
    let mut step = HttpStep::new("http://upstream:8080");
    assert_eq!(step.write(b"abc"), 3);
    assert_eq!(step.write(b"de"), 2);
    assert_eq!(step.pending(), Some(5));
    let request = step.data_request();
    assert_eq!(request.method, b"GET".to_vec());
    assert_eq!(request.body, b"abcde".to_vec());
    assert_eq!(header_value(&request.headers, b"content-length"), Some(b"5".to_vec()));
    assert_eq!(header_value(&request.headers, b"client_token"), None);
    let body = step.take_data(response(200, b"reply")).unwrap();
    assert_eq!(body, b"reply".to_vec());
    assert_eq!(step.pending(), None);
}

#[test]
fn handshake_takes_the_token() {
    let mut step = HttpStep::new("http://upstream:8080");
    let opening = HttpStep::handshake_request();
    assert_eq!(opening.method, b"GET".to_vec());
    assert!(opening.headers.is_empty());
    assert!(opening.body.is_empty());

    let mut answer = HttpResponse::new(200);
    add_header(&mut answer.headers, b"client_token", b"tok=");
    assert!(matches!(step.after_handshake(&answer), Action::Send));
    assert!(step.has_token());
    assert!(matches!(step.begin(), Action::Send));
    let request = step.size_request();
    assert_eq!(request.method, b"HEAD".to_vec());
    assert_eq!(header_value(&request.headers, b"client_token"), Some(b"tok=".to_vec()));
    let request = step.data_request();
    assert_eq!(header_value(&request.headers, b"client_token"), Some(b"tok=".to_vec()));
    assert_eq!(header_value(&request.headers, b"content-length"), Some(b"0".to_vec()));
}

#[test]
fn failed_handshakes() {
    let mut step = HttpStep::new("http://upstream:8080");
    match step.after_handshake(&HttpResponse::new(200)) {
        Action::Fail(e) => assert!(invalid_data(&e, "Token Not Found")),
        other => panic!("unexpected {:?}", other),
    }
    match step.after_handshake(&response(500, b"down")) {
        Action::Fail(e) => assert!(invalid_data(&e, "down")),
        other => panic!("unexpected {:?}", other),
    }
    match step.accept_handshake(&response(500, &[0xff])) {
        Err(e) => assert!(invalid_data(&e, "Invalid utf8")),
        other => panic!("unexpected {:?}", other),
    }
    assert!(!step.has_token());
}

#[test]
fn answers_are_judged() {
    assert!(matches!(HttpStep::judge(&response(200, b"")), Judgement::Accepted));
    assert!(matches!(HttpStep::judge(&response(403, b"Invalid Token")), Judgement::Renew));
    assert!(matches!(HttpStep::judge(&response(403, &[0xff])), Judgement::Rejected(e) if invalid_data(&e, "Invalid utf8")));
    assert!(matches!(HttpStep::judge(&response(400, b"bad")), Judgement::Rejected(e) if invalid_data(&e, "bad")));

    let mut step = HttpStep::new("http://upstream:8080");
    step.begin();
    assert!(matches!(step.after_answer(&response(200, b"")), Action::Finish));
    assert!(matches!(step.after_answer(&response(403, b"no")), Action::Handshake));
    assert!(matches!(step.after_answer(&response(200, b"")), Action::Finish));
    assert!(matches!(step.after_answer(&response(403, b"no")), Action::Fail(e) if invalid_data(&e, "no")));
    assert!(matches!(step.after_answer(&response(404, b"gone")), Action::Fail(e) if invalid_data(&e, "gone")));
    step.begin();
    assert!(matches!(step.after_answer(&response(403, b"no")), Action::Handshake));
}

#[test]
fn refused_data_stays_buffered() {
    let mut step = HttpStep::new("http://upstream:8080");
    step.write(b"keep");
    assert!(matches!(step.take_data(response(500, b"later")), Err(IOError::UnknownError(m)) if m == "later"));
    assert!(matches!(step.take_data(response(500, &[0xc0])), Err(IOError::ParseError)));
    assert_eq!(step.pending(), Some(4));
}

#[test]
fn pending_size_from_the_length_header() {
    let mut answer = HttpResponse::new(200);
    add_header(&mut answer.headers, b"Content-Length", b"42");
    assert_eq!(HttpStep::size_of(&answer).unwrap(), 42);
    let mut answer = HttpResponse::new(200);
    add_header(&mut answer.headers, b"Content-Length", b"many");
    assert!(matches!(HttpStep::size_of(&answer), Err(e) if invalid_data(&e, "Invalid Content-Length")));
    match HttpStep::size_of(&HttpResponse::new(200)) {
        Err(IOError::IoError(f)) => {
            assert_eq!(f.kind, IoKind::NotFound);
            assert_eq!(f.message, "Content-Length Header Not Found");
        }
        other => panic!("unexpected {:?}", other),
    }
}

#[test]
fn clone_forgets_token_and_data() {
    let mut step = HttpStep::new("http://upstream:8080");
    step.write(b"abc");
    let mut answer = HttpResponse::new(200);
    add_header(&mut answer.headers, b"client_token", b"tok=");
    step.accept_handshake(&answer).unwrap();
    let copy = step.bclone();
    assert_eq!(copy.address(), "http://upstream:8080");
    assert!(!copy.has_token());
    assert_eq!(copy.pending(), None);
}
