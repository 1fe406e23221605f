use proxy::address::{connect_target, listen_target, parse_session_config};
use proxy::entry::{
    on_frame, on_readable, on_writable, relay_forward, Arrival, FramedWorker, Verdict,
};
use proxy::websocket::Inbound;
use proxy::error::{IoFailure, IoKind};
use proxy::stdio_step::read_plan;
use proxy::registry::{parse_entry_kind, parse_step, EntryKind, StepChoice};
use proxy::{
    BoxedClone, IOError, Pipeline, PipelineDirection, PipelineStep, Read, STDioEntry, STDioStep,
};

/// A destination with a script: what it answers to reads, and what it
/// says to writes.
struct Scripted {
    inbox: Vec<u8>,
    received: Vec<Vec<u8>>,
    fail_write: Option<fn() -> IOError>,
    fail_read: Option<fn() -> IOError>,
}

impl Scripted {
    fn echo() -> Scripted {
        Scripted { inbox: Vec::new(), received: Vec::new(), fail_write: None, fail_read: None }
    }
}

impl Read for Scripted {
    fn read(&mut self) -> Result<Vec<u8>, IOError> {
        if let Some(f) = self.fail_read {
            return Err(f());
        }
        if self.inbox.is_empty() {
            return Err(IOError::EmptyData);
        }
        Ok(std::mem::take(&mut self.inbox))
    }
}

impl BoxedClone for Scripted {
    fn bclone(&self) -> Self {
        Scripted::echo()
    }
}

impl PipelineStep for Scripted {
    fn start(&mut self) {}

    fn len(&mut self) -> Result<usize, IOError> {
        Ok(self.inbox.len())
    }

    fn set_pipeline_direction(&mut self, _direction: PipelineDirection) {}

    fn write(&mut self, buf: &[u8]) -> Result<usize, IOError> {
        if let Some(f) = self.fail_write {
            return Err(f());
        }
        self.received.push(buf.to_vec());
        self.inbox.extend_from_slice(buf);
        Ok(buf.len())
    }
}

fn pipeline(step: Scripted) -> Pipeline<Scripted> {
    Pipeline::new(vec![step], Some(1024))
}

#[test]
fn tcp_relay_scenario() {
    let mut p = pipeline(Scripted::echo());
    p.start();
    assert!(matches!(on_readable(&mut p, Arrival::Data(b"ping".to_vec())), Verdict::Continue));
    let (send, verdict) = on_writable(&mut p);
    assert!(matches!(verdict, Verdict::Continue));
    assert_eq!(send, Some(b"ping".to_vec()));
    let (send, verdict) = on_writable(&mut p);
    assert!(matches!(verdict, Verdict::Continue));
    assert_eq!(send, None);
}

#[test]
fn failed_or_empty_read_disconnects() {
    let mut p = pipeline(Scripted::echo());
    assert!(matches!(on_readable(&mut p, Arrival::Failed), Verdict::Disconnect));
    assert!(matches!(on_readable(&mut p, Arrival::Nothing), Verdict::Disconnect));
    assert!(!p.read_available());
}

#[test]
fn empty_data_never_ends_the_loop() {
    let mut step = Scripted::echo();
    step.fail_write = Some(|| IOError::EmptyData);
    let mut p = pipeline(step);
    assert!(matches!(relay_forward(&mut p, b"x".to_vec()), Verdict::Continue));
    let mut step = Scripted::echo();
    step.inbox = b"stale".to_vec();
    step.fail_read = Some(|| IOError::EmptyData);
    let mut p = pipeline(step);
    let (send, verdict) = on_writable(&mut p);
    assert_eq!(send, None);
    assert!(matches!(verdict, Verdict::Continue));
}

#[test]
fn other_errors_abort_the_connection() {
    let mut step = Scripted::echo();
    step.fail_write = Some(|| IOError::InvalidStep("order".to_string()));
    let mut p = pipeline(step);
    let verdict = on_readable(&mut p, Arrival::Data(b"x".to_vec()));
    assert!(matches!(verdict, Verdict::Abort(IOError::InvalidStep(m)) if m == "order"));
    let mut step = Scripted::echo();
    step.inbox = b"data".to_vec();
    step.fail_read = Some(|| IOError::ParseError);
    let mut p = pipeline(step);
    let (send, verdict) = on_writable(&mut p);
    assert_eq!(send, None);
    assert!(matches!(verdict, Verdict::Abort(IOError::ParseError)));
}

#[test]
fn framed_worker_shakes_hands_first() {
    let mut p = pipeline(Scripted::echo());
    let mut worker = FramedWorker::new();
    assert!(!worker.handshaked);
    let (send, verdict) = worker.on_writable(&mut p);
    assert_eq!(send, None);
    assert!(matches!(verdict, Verdict::Continue));

    let raw = b"GET / HTTP/1.1\r\nSec-WebSocket-Key: dGhlIHNhbXBsZSBub25jZQ==\r\n\r\n".to_vec();
    let (send, verdict) = worker.on_readable(&mut p, Arrival::Data(raw));
    assert!(matches!(verdict, Verdict::Continue));
    assert!(worker.handshaked);
    let wire = send.unwrap();
    assert!(wire.starts_with(b"HTTP/1.1 101 Switching Protocols\r\n"));
    let text = String::from_utf8(wire).unwrap();
    assert!(text.contains("Sec-WebSocket-Accept: s3pPLMBiTxaQ9kYGzzhZRbK+xOo=\r\n"));
    assert!(text.ends_with("\r\n\r\n"));
    assert!(!p.read_available());

    let (send, verdict) = worker.on_readable(&mut p, Arrival::Data(vec![0x82, 0x02, b'h', b'i']));
    assert_eq!(send, None);
    assert!(matches!(verdict, Verdict::Continue));
    let (send, verdict) = worker.on_writable(&mut p);
    assert!(matches!(verdict, Verdict::Continue));
    assert_eq!(send, Some(vec![0x82, 0x02, b'h', b'i']));

    let (send, verdict) = worker.on_readable(&mut p, Arrival::Data(vec![0x89, 0x02, b'h', b'i']));
    assert!(matches!(verdict, Verdict::Continue));
    assert_eq!(send, Some(vec![0x8a, 0x02, b'h', b'i']));
    assert!(!p.read_available());
    let (send, verdict) = worker.on_readable(&mut p, Arrival::Data(vec![0x8a, 0x00]));
    assert!(matches!(verdict, Verdict::Continue));
    assert_eq!(send, None);
    assert!(!p.read_available());
    let (_, verdict) = worker.on_readable(&mut p, Arrival::Data(vec![0x88, 0x00]));
    assert!(matches!(verdict, Verdict::Disconnect));
}

#[test]
fn framed_worker_refuses_plain_requests() {
    let mut p = pipeline(Scripted::echo());
    let mut worker = FramedWorker::new();
    let raw = b"GET / HTTP/1.1\r\nHost: a\r\n\r\n".to_vec();
    let (send, verdict) = worker.on_readable(&mut p, Arrival::Data(raw));
    assert!(matches!(verdict, Verdict::Disconnect));
    assert!(!worker.handshaked);
    assert!(send.unwrap().starts_with(b"HTTP/1.1 200 OK\r\n"));

    let (send, verdict) = worker.on_readable(&mut p, Arrival::Data(b"garbage".to_vec()));
    assert!(matches!(verdict, Verdict::Disconnect));
    assert_eq!(send, None);
    let (send, verdict) = worker.on_readable(&mut p, Arrival::Nothing);
    assert!(matches!(verdict, Verdict::Disconnect));
    assert_eq!(send, None);
}

#[test]
fn framed_worker_ends_on_broken_frames() {
    let mut p = pipeline(Scripted::echo());
    let mut worker = FramedWorker { handshaked: true };
    for arrival in [
        Arrival::Failed,
        Arrival::Nothing,
        Arrival::Data(vec![0x82]),
        Arrival::Data(vec![0xf2, 0x00]),
    ] {
        let (send, verdict) = worker.on_readable(&mut p, arrival);
        assert_eq!(send, None);
        assert!(matches!(verdict, Verdict::Disconnect));
    }
    assert!(!p.read_available());
}

#[test]
fn read_plans() {
    assert!(matches!(read_plan(Ok(0)), Err(IOError::EmptyData)));
    assert!(matches!(read_plan(Ok(17)), Ok(17)));
    let failure = IoFailure { kind: IoKind::Other, message: "EBADF".to_string() };
    assert!(matches!(read_plan(Err(failure)), Err(IOError::IoError(f)) if f.message == "EBADF"));
    let step = STDioStep::new();
    assert_eq!(step, STDioStep::default());
    assert!(matches!(step.read_plan(Ok(3)), Ok(3)));
}

#[test]
fn listen_addresses() {
    let t = listen_target("tcp://127.0.0.1:9000").unwrap();
    assert_eq!(t.host, "127.0.0.1");
    assert_eq!(t.port, 9000);
    let t = listen_target("ws://localhost:8080").unwrap();
    assert_eq!(t.host, "localhost");
    assert_eq!(t.port, 8080);
    assert!(listen_target("ws://localhost").is_none());
    assert!(listen_target("localhost:8080").is_none());
    assert!(listen_target("stdio:").is_none());
    assert!(listen_target("").is_none());
}

#[test]
fn connect_addresses() {
    let t = connect_target("tcp://upstream:7000", false).unwrap();
    assert_eq!((t.host.as_str(), t.port), ("upstream", 7000));
    assert!(connect_target("ws://upstream", false).is_none());
    assert_eq!(connect_target("ws://upstream", true).unwrap().port, 80);
    assert_eq!(connect_target("http://upstream/x", true).unwrap().port, 80);
    assert_eq!(connect_target("wss://upstream/x", true).unwrap().port, 443);
    assert_eq!(connect_target("https://upstream", true).unwrap().port, 443);
    assert_eq!(connect_target("wss://upstream:9443", true).unwrap().port, 9443);
    assert!(connect_target("ftp://upstream", true).is_none());
    assert!(connect_target("not a uri", true).is_none());
}

#[test]
fn session_entry_configuration() {
    let c = parse_session_config(b"http://0.0.0.0:8080-pepper-30").unwrap();
    assert_eq!(c.target.host, "0.0.0.0");
    assert_eq!(c.target.port, 8080);
    assert_eq!(c.salt, b"pepper".to_vec());
    assert_eq!(c.timeout, 30);
    assert!(parse_session_config(b"http://0.0.0.0:8080-pepper-30-more").is_some());
    assert!(parse_session_config(b"http://0.0.0.0:8080-pepper").is_none());
    assert!(parse_session_config(b"http://0.0.0.0:8080-pepper-soon").is_none());
    assert!(parse_session_config(b"ws://0.0.0.0:8080-pepper-30").is_some());
    assert!(parse_session_config(b"http://0.0.0.0-pepper-30").is_none());
    assert!(parse_session_config(b"\xff\xfe-pepper-30").is_none());
}

#[test]
fn step_texts() {
    assert!(matches!(parse_step(b"stdio:"), Some(StepChoice::Stdio)));
    assert!(matches!(parse_step(b"ws://h:1"), Some(StepChoice::Ws(a)) if a == b"ws://h:1"));
    assert!(matches!(parse_step(b"wss://h"), Some(StepChoice::Wss(a)) if a == b"wss://h"));
    assert!(matches!(parse_step(b"b64:fw"), Some(StepChoice::B64(c)) if c == b"fw"));
    assert!(matches!(parse_step(b"tcp://h:2"), Some(StepChoice::Tcp(a)) if a == b"tcp://h:2"));
    assert!(matches!(parse_step(b"salt:bw-16"), Some(StepChoice::Salt(c)) if c == b"bw-16"));
    assert!(matches!(parse_step(b"salt:bw-16:x"), Some(StepChoice::Salt(c)) if c == b"bw-16"));
    assert!(matches!(parse_step(b"gzip:9"), Some(StepChoice::Unknown)));
    assert!(parse_step(b"stdio").is_none());
    assert!(parse_step(b"").is_none());
}

#[test]
fn entry_texts() {
    assert_eq!(parse_entry_kind(b"ws://0.0.0.0:1"), Some(EntryKind::Ws));
    assert_eq!(parse_entry_kind(b"stdio:"), Some(EntryKind::Stdio));
    assert_eq!(parse_entry_kind(b"tcp://127.0.0.1:9000"), Some(EntryKind::Tcp));
    assert_eq!(parse_entry_kind(b"http://h:1"), None);
    assert_eq!(parse_entry_kind(b"tcp"), None);
}

#[test]
fn stdio_entry_cycle() {
    let mut entry = STDioEntry::new(String::new(), pipeline(Scripted::echo()), 10);
    assert_eq!(entry.loop_time(), 10);
    entry.start();
    assert!(matches!(entry.on_input(Vec::new()), Verdict::Continue));
    let (send, verdict) = entry.on_idle();
    assert_eq!(send, None);
    assert!(matches!(verdict, Verdict::Continue));
    assert!(matches!(entry.on_input(b"line\n".to_vec()), Verdict::Continue));
    let (send, verdict) = entry.on_idle();
    assert_eq!(send, Some(b"line\n".to_vec()));
    assert!(matches!(verdict, Verdict::Continue));
    let mut copy = entry.clone();
    assert_eq!(copy.loop_time(), 10);
    let (send, _) = copy.on_idle();
    assert_eq!(send, None);
}

#[test]
fn frames_one_by_one() {
    let mut p = pipeline(Scripted::echo());
    let (send, verdict) = on_frame(&mut p, Inbound::Ping(b"are you there".to_vec()));
    assert!(matches!(verdict, Verdict::Continue));
    let mut pong = vec![0x8a, 13];
    pong.extend_from_slice(b"are you there");
    assert_eq!(send, Some(pong));
    assert!(!p.read_available());
    let (send, verdict) = on_frame(&mut p, Inbound::Pong);
    assert!(send.is_none() && matches!(verdict, Verdict::Continue));
    let (send, verdict) = on_frame(&mut p, Inbound::Close);
    assert!(send.is_none() && matches!(verdict, Verdict::Disconnect));
    assert!(!p.read_available());
    let (send, verdict) = on_frame(&mut p, Inbound::Payload(b"data".to_vec()));
    assert!(send.is_none() && matches!(verdict, Verdict::Continue));
    assert_eq!(p.read().unwrap(), b"data".to_vec());
    let (send, verdict) = on_frame(&mut p, Inbound::Ping(vec![0u8; 126]));
    assert!(send.is_none() && matches!(verdict, Verdict::Disconnect));
}
