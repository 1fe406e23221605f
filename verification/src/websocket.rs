use crate::base64_step::padded_base64;
use crate::error::{IOError, IoFailure, IoKind};
use crate::http_tools::{
    add_header, find_header, header_value, headers_view, HeaderView, HttpRequest, HttpResponse,
    HttpVersion, RequestView, ResponseView,
};
use crate::text::text_of;
use base64::engine::general_purpose::STANDARD;
use base64::Engine;
use bytes::BytesMut;
use tokio_util::codec::{Decoder, Encoder};
use vstd::prelude::*;
use vstd::slice::slice_to_vec;
use vstd::string::{StringExecFns, StringSliceAdditionalSpecFns};
use vstd::utf8::{decode_utf8, valid_utf8};
use websocket_codec::{Message, MessageCodec, Opcode};

verus! {

/// The SHA-1 digest of `data`.
pub uninterp spec fn sha1(data: Seq<u8>) -> Seq<u8>;

/// `openssl::sha::sha1`. Trusted: the result is the named digest of the
/// input, 20 bytes long.
#[verifier::external_body]
fn sha1_digest(data: &[u8]) -> (digest: Vec<u8>)
    ensures
        digest@ == sha1(data@),
        digest@.len() == 20,
{
    openssl::sha::sha1(data).to_vec()
}

/// `Engine::encode` of the `base64` crate, on its standard padded engine.
/// Trusted: the result is the padded base64 text of the input.
#[verifier::external_body]
fn base64_standard_text(data: &[u8]) -> (text: Vec<u8>)
    ensures
        text@ == padded_base64(data@),
{
    STANDARD.encode(data).into_bytes()
}

/// The text that `bytes` encode, or the empty text where they encode none.
pub open spec fn text_or_empty(bytes: Seq<u8>) -> Seq<char> {
    if valid_utf8(bytes) {
        decode_utf8(bytes)
    } else {
        Seq::<char>::empty()
    }
}

/// The fixed text that the protocol appends to a key.
pub open spec fn key_suffix() -> Seq<u8> {
    "258EAFA5-E914-47DA-95CA-C5AB0DC85B11".spec_bytes()
}

/// The accept value that answers a key: the base64 text of the SHA-1
/// digest of the key followed by the protocol's fixed text.
pub open spec fn accept_of(key: Seq<u8>) -> Seq<u8> {
    padded_base64(sha1(key + key_suffix()))
}

/// Computes the accept value for a client's key.
pub fn accept_key(key: &[u8]) -> (accept: Vec<u8>)
    ensures
        accept@ == accept_of(key@),
{
    let mut joined = slice_to_vec(key);
    let mut suffix = slice_to_vec("258EAFA5-E914-47DA-95CA-C5AB0DC85B11".as_bytes());
    joined.append(&mut suffix);
    let digest = sha1_digest(joined.as_slice());
    base64_standard_text(digest.as_slice())
}

/// A header field with the name as written.
pub open spec fn named(name: &str, value: Seq<u8>) -> HeaderView {
    HeaderView { name: name.spec_bytes(), value }
}

/// The key that a request offers for an upgrade: the value of its key
/// header, if it has one that is not empty.
pub open spec fn offered_key(request: RequestView) -> Option<Seq<u8>> {
    match find_header(request.headers, "Sec-WebSocket-Key".spec_bytes()) {
        Some(key) => if key.len() > 0 {
            Some(key)
        } else {
            None
        },
        None => None,
    }
}

/// The response that switches protocols: 101 with the accept value.
pub open spec fn upgrade_response(accept: Seq<u8>) -> ResponseView {
    ResponseView {
        status: 101,
        version: HttpVersion::Http11,
        headers: seq![
            named("Connection", "Upgrade".spec_bytes()),
            named("Accept", "text/html; charset=utf-8".spec_bytes()),
            named("Upgrade", "websocket".spec_bytes()),
            named("Sec-WebSocket-Accept", accept),
            named("Connection", "keep-alive".spec_bytes()),
            named("Keep-Alive", "timeout=6553600".spec_bytes()),
            named("Upgrade-Insecure-Requests", "1".spec_bytes()),
            named("custom-header", "1".spec_bytes()),
        ],
        body: Seq::<u8>::empty(),
    }
}

/// The response to a request that offers no key: 200, no switch of
/// protocols, and a short text.
pub open spec fn plain_response() -> ResponseView {
    ResponseView {
        status: 200,
        version: HttpVersion::Http11,
        headers: seq![
            named("Connection", "Accepted".spec_bytes()),
            named("custom-header", "1".spec_bytes()),
        ],
        body: "only websocket connection accpted on this server.".spec_bytes(),
    }
}

fn put(headers: &mut Vec<crate::http_tools::Header>, name: &str, value: &[u8])
    ensures
        headers_view(final(headers)@) == headers_view(old(headers)@).push(named(name, value@)),
{
    add_header(headers, name.as_bytes(), value);
}

/// Answers an upgrade request. With a key the answer switches protocols
/// and the handshake is done; without one the answer is a plain 200 and
/// the handshake has failed.
pub fn server_handshake(request: &HttpRequest) -> (r: (HttpResponse, Result<(), IOError>))
    ensures
        match offered_key(request@) {
            Some(key) => r.0@ == upgrade_response(accept_of(key)) && r.1 is Ok,
            None => {
                &&& r.0@ == plain_response()
                &&& r.1 matches Err(IOError::IoError(failure)) && failure.kind == IoKind::NotFound
                    && failure.message@ == "WebSocket key not found in headers"@
            },
        },
{
    let key = match header_value(&request.headers, "Sec-WebSocket-Key".as_bytes()) {
        Some(k) => if k.len() > 0 {
            Some(k)
        } else {
            None
        },
        None => None,
    };
    match key {
        None => {
            let mut response = HttpResponse::new(200);
            put(&mut response.headers, "Connection", "Accepted".as_bytes());
            put(&mut response.headers, "custom-header", "1".as_bytes());
            response.body = slice_to_vec(
                "only websocket connection accpted on this server.".as_bytes(),
            );
            assert(response@.headers =~= plain_response().headers);
            let failure = IoFailure {
                kind: IoKind::NotFound,
                message: String::from_str("WebSocket key not found in headers"),
            };
            (response, Err(IOError::IoError(failure)))
        },
        Some(k) => {
            let accept = accept_key(k.as_slice());
            let mut response = HttpResponse::new(101);
            put(&mut response.headers, "Connection", "Upgrade".as_bytes());
            put(&mut response.headers, "Accept", "text/html; charset=utf-8".as_bytes());
            put(&mut response.headers, "Upgrade", "websocket".as_bytes());
            put(&mut response.headers, "Sec-WebSocket-Accept", accept.as_slice());
            put(&mut response.headers, "Connection", "keep-alive".as_bytes());
            put(&mut response.headers, "Keep-Alive", "timeout=6553600".as_bytes());
            put(&mut response.headers, "Upgrade-Insecure-Requests", "1".as_bytes());
            put(&mut response.headers, "custom-header", "1".as_bytes());
            assert(response@.headers =~= upgrade_response(accept@).headers);
            (response, Ok(()))
        },
    }
}

/// The request with which a client asks `host` for an upgrade, offering
/// `key`.
pub open spec fn upgrade_request(host: Seq<u8>, key: Seq<u8>) -> RequestView {
    RequestView {
        method: "GET".spec_bytes(),
        target: seq![0x2Fu8],
        version: HttpVersion::Http11,
        headers: seq![
            named("Host", host),
            named("Accept", "text/html; charset=utf-8".spec_bytes()),
            named("Keep-Alive", "timeout=6553600".spec_bytes()),
            named(
                "User-Agent",
                "Mozilla/5.0 (X11; Ubuntu; Linux x86_64; rv:125.0) Gecko/20100101 Firefox/125.0".spec_bytes(),
            ),
            named("Upgrade", "websocket".spec_bytes()),
            named("Connection", "Upgrade".spec_bytes()),
            named("Sec-WebSocket-Key", key),
            named("Sec-WebSocket-Version", "13".spec_bytes()),
            named("Upgrade-Insecure-Requests", "1".spec_bytes()),
        ],
        body: Seq::<u8>::empty(),
    }
}

/// Builds the upgrade request of a client.
pub fn client_handshake_request(host: &[u8], key: &[u8]) -> (request: HttpRequest)
    ensures
        request@ == upgrade_request(host@, key@),
{
    let mut request = HttpRequest::new("GET".as_bytes());
    put(&mut request.headers, "Host", host);
    put(&mut request.headers, "Accept", "text/html; charset=utf-8".as_bytes());
    put(&mut request.headers, "Keep-Alive", "timeout=6553600".as_bytes());
    put(
        &mut request.headers,
        "User-Agent",
        "Mozilla/5.0 (X11; Ubuntu; Linux x86_64; rv:125.0) Gecko/20100101 Firefox/125.0".as_bytes(),
    );
    put(&mut request.headers, "Upgrade", "websocket".as_bytes());
    put(&mut request.headers, "Connection", "Upgrade".as_bytes());
    put(&mut request.headers, "Sec-WebSocket-Key", key);
    put(&mut request.headers, "Sec-WebSocket-Version", "13".as_bytes());
    put(&mut request.headers, "Upgrade-Insecure-Requests", "1".as_bytes());
    assert(request@.headers =~= upgrade_request(host@, key@).headers);
    request
}

/// `openssl::rand::rand_bytes`, applied to a fresh buffer of `count`
/// bytes. Trusted: where it succeeds the buffer that comes back has
/// `count` bytes; nothing is claimed of their values. The count is kept
/// small because the call refuses lengths that do not fit a C `int`.
#[verifier::external_body]
fn random_nonce(count: usize) -> (r: Option<Vec<u8>>)
    requires
        count <= 0x1000_0000,
    ensures
        r is Some ==> r.unwrap()@.len() == count,
{
    let mut nonce = vec![0u8; count];
    match openssl::rand::rand_bytes(nonce.as_mut_slice()) {
        Ok(()) => Some(nonce),
        Err(_) => None,
    }
}

/// The key that goes with a nonce: its base64 text.
pub fn key_of_nonce(nonce: &[u8]) -> (key: Vec<u8>)
    ensures
        key@ == padded_base64(nonce@),
{
    base64_standard_text(nonce)
}

/// Draws a fresh key for an upgrade request. Whatever nonce the generator
/// gave, the key is its base64 text; a failing generator is an error.
pub fn fresh_key() -> (r: Result<Vec<u8>, IOError>)
    ensures
        match r {
            Ok(key) => exists|nonce: Seq<u8>|
                nonce.len() == 16 && key@ == #[trigger] padded_base64(nonce),
            Err(e) => e matches IOError::Error(_),
        },
{
    match random_nonce(16) {
        Some(nonce) => Ok(key_of_nonce(nonce.as_slice())),
        None => Err(IOError::Error(String::from_str("random generator failed"))),
    }
}

/// Judges the answer to an upgrade request: only 101 switches protocols;
/// any other status is invalid data, told with the body as text where the
/// body is text.
pub fn check_upgrade(response: &HttpResponse) -> (r: Result<(), IOError>)
    ensures
        response.status == 101 ==> r is Ok,
        response.status != 101 ==> (r matches Err(IOError::InvalidData(told)) && told@
            == text_or_empty(response.body@)),
{
    if response.status == 101 {
        return Ok(());
    }
    let told = match text_of(slice_to_vec(response.body.as_slice())) {
        Some(text) => text,
        None => String::new(),
    };
    Err(IOError::InvalidData(told))
}

/// What the frame decoder makes of `bytes`: a message, given by its
/// opcode number and its data; nothing yet, where the bytes hold no whole
/// message; or the reason for which the bytes are refused.
pub uninterp spec fn decoded(bytes: Seq<u8>) -> Result<Option<(u8, Seq<u8>)>, Seq<char>>;

/// The outcome of a decode, with bytes and texts taken by their view.
pub open spec fn decoded_view(
    r: Result<Option<(u8, Vec<u8>)>, String>,
) -> Result<Option<(u8, Seq<u8>)>, Seq<char>> {
    match r {
        Ok(Some((opcode, data))) => Ok(Some((opcode, data@))),
        Ok(None) => Ok(None),
        Err(e) => Err(e@),
    }
}

/// `Decoder::decode` of `websocket_codec::MessageCodec`, on a fresh codec
/// and a buffer that holds `bytes`. Trusted: the outcome is the named one
/// for these bytes. The codec's masking flag plays no part in decoding.
#[verifier::external_body]
fn decode_message(bytes: &[u8]) -> (r: Result<Option<(u8, Vec<u8>)>, String>)
    ensures
        decoded_view(r) == decoded(bytes@),
{
    let mut buffer = BytesMut::from(bytes);
    match MessageCodec::server().decode(&mut buffer) {
        Ok(Some(message)) => Ok(Some((u8::from(message.opcode()), message.data().to_vec()))),
        Ok(None) => Ok(None),
        Err(e) => Err(e.to_string()),
    }
}

/// The decoder reads `frame` as the message with `opcode` that carries
/// `data`.
pub open spec fn reads_as(frame: Seq<u8>, opcode: u8, data: Seq<u8>) -> bool {
    decoded(frame) == Ok::<Option<(u8, Seq<u8>)>, Seq<char>>(Some((opcode, data)))
}

/// The length field of a frame without the mask bit: the length itself
/// up to 125; 126 and the length in two bytes up to 65535; 127 and the
/// length in eight bytes beyond; the longer forms with the high byte
/// first.
pub open spec fn length_field(len: nat) -> Seq<u8> {
    if len <= 125 {
        seq![len as u8]
    } else if len <= 65535 {
        seq![126u8, (len / 256) as u8, (len % 256) as u8]
    } else {
        seq![
            127u8,
            ((len / 0x100_0000_0000_0000) % 256) as u8,
            ((len / 0x1_0000_0000_0000) % 256) as u8,
            ((len / 0x100_0000_0000) % 256) as u8,
            ((len / 0x1_0000_0000) % 256) as u8,
            ((len / 0x100_0000) % 256) as u8,
            ((len / 0x1_0000) % 256) as u8,
            ((len / 0x100) % 256) as u8,
            (len % 256) as u8,
        ]
    }
}

/// The bytes of one whole frame without mask: the final bit and the
/// opcode, the length field, the data.
pub open spec fn plain_frame(opcode: u8, data: Seq<u8>) -> Seq<u8> {
    seq![(0x80 + opcode) as u8] + length_field(data.len()) + data
}

/// `frame` is a masked frame for `opcode` and `data`: it starts as the
/// frame without mask does, but with the mask bit set in the length
/// field, and it is longer by the four bytes of the key.
pub open spec fn masked_frame(frame: Seq<u8>, opcode: u8, data: Seq<u8>) -> bool {
    &&& frame.len() == plain_frame(opcode, data).len() + 4
    &&& frame[0] == plain_frame(opcode, data)[0]
    &&& frame[1] == plain_frame(opcode, data)[1] + 0x80
}

/// `Opcode::try_from`, `Message::new` and `Encoder::encode` of
/// `websocket_codec`, on a codec made by
/// `MessageCodec::with_masked_encode`, for a binary message or for a pong
/// short enough for a control frame. Trusted: the decoder reads the bytes
/// as that message, whatever key a masking codec drew; without masking
/// the bytes are the frame as written out above; with masking they are a
/// masked frame.
#[verifier::external_body]
fn encode_frame(masked: bool, opcode: u8, data: Vec<u8>) -> (frame: Vec<u8>)
    requires
        opcode == 2 || (opcode == 10 && data@.len() <= 125),
    ensures
        reads_as(frame@, opcode, data@),
        !masked ==> frame@ == plain_frame(opcode, data@),
        masked ==> masked_frame(frame@, opcode, data@),
{
    let mut buffer = BytesMut::new();
    let message = Message::new(Opcode::try_from(opcode).unwrap(), data).unwrap();
    let _ = MessageCodec::with_masked_encode(masked).encode(&message, &mut buffer);
    buffer.to_vec()
}

/// What arrived on a framed connection.
#[derive(Debug)]
pub enum Inbound {
    /// A text or binary message: payload for the pipeline.
    Payload(Vec<u8>),
    /// A ping, with what it carries: to be answered with a pong that
    /// carries the same, never handed on.
    Ping(Vec<u8>),
    /// A pong: never handed on.
    Pong,
    /// A close frame.
    Close,
    /// The bytes hold no whole message.
    Incomplete,
    /// The bytes are not a frame; the reason is given.
    Malformed(String),
}

pub enum InboundView {
    Payload(Seq<u8>),
    Ping(Seq<u8>),
    Pong,
    Close,
    Incomplete,
    Malformed(Seq<char>),
}

impl View for Inbound {
    type V = InboundView;

    open spec fn view(&self) -> InboundView {
        match self {
            Inbound::Payload(data) => InboundView::Payload(data@),
            Inbound::Ping(data) => InboundView::Ping(data@),
            Inbound::Pong => InboundView::Pong,
            Inbound::Close => InboundView::Close,
            Inbound::Incomplete => InboundView::Incomplete,
            Inbound::Malformed(why) => InboundView::Malformed(why@),
        }
    }
}

/// How a decoded message counts: opcodes 1 and 2 carry payload, 8 closes,
/// 9 is a ping, which may carry up to 125 bytes, and 10 a pong; anything
/// else is malformed.
pub open spec fn classified(outcome: Result<Option<(u8, Seq<u8>)>, Seq<char>>) -> InboundView {
    match outcome {
        Ok(Some((opcode, data))) => if opcode == 1 || opcode == 2 {
            InboundView::Payload(data)
        } else if opcode == 8 {
            InboundView::Close
        } else if opcode == 9 && data.len() <= 125 {
            InboundView::Ping(data)
        } else if opcode == 10 {
            InboundView::Pong
        } else {
            InboundView::Malformed("unknown opcode"@)
        },
        Ok(None) => InboundView::Incomplete,
        Err(why) => InboundView::Malformed(why),
    }
}

/// Sorts a decoded message.
pub fn classify(outcome: Result<Option<(u8, Vec<u8>)>, String>) -> (r: Inbound)
    ensures
        r@ == classified(decoded_view(outcome)),
{
    match outcome {
        Ok(Some((opcode, data))) => {
            if opcode == 1 || opcode == 2 {
                Inbound::Payload(data)
            } else if opcode == 8 {
                Inbound::Close
            } else if opcode == 9 && data.len() <= 125 {
                Inbound::Ping(data)
            } else if opcode == 10 {
                Inbound::Pong
            } else {
                Inbound::Malformed(String::from_str("unknown opcode"))
            }
        },
        Ok(None) => Inbound::Incomplete,
        Err(why) => Inbound::Malformed(why),
    }
}

/// Decodes the first frame in `bytes` and sorts it.
pub fn read_frame(bytes: &[u8]) -> (r: Inbound)
    ensures
        r@ == classified(decoded(bytes@)),
{
    classify(decode_message(bytes))
}

/// Frames `data` as one binary message from a server: not masked.
pub fn server_frame(data: Vec<u8>) -> (frame: Vec<u8>)
    ensures
        frame@ == plain_frame(2, data@),
        classified(decoded(frame@)) == InboundView::Payload(data@),
{
    encode_frame(false, 2, data)
}

/// Frames the pong that answers a ping which carried `data`: not masked,
/// with the same data.
pub fn pong_frame(data: Vec<u8>) -> (frame: Vec<u8>)
    requires
        data@.len() <= 125,
    ensures
        frame@ == plain_frame(10, data@),
        classified(decoded(frame@)) == InboundView::Pong,
{
    encode_frame(false, 10, data)
}

/// Frames `data` as one binary message from a client: masked with a key
/// drawn at random. Whatever the key, the frame is a masked frame and
/// reads back as payload `data`.
pub fn client_frame(data: Vec<u8>) -> (frame: Vec<u8>)
    ensures
        masked_frame(frame@, 2, data@),
        classified(decoded(frame@)) == InboundView::Payload(data@),
{
    encode_frame(true, 2, data)
}

/// What a destination hands to the pipeline for what arrived: payload as
/// it is; "nothing available" for a ping or a pong; an I/O failure for a
/// close frame, for bytes that hold no whole message, and for bytes that
/// are no frame.
pub open spec fn destination_says(inbound: InboundView, r: Result<Seq<u8>, IOError>) -> bool {
    match inbound {
        InboundView::Payload(data) => r == Ok::<Seq<u8>, IOError>(data),
        InboundView::Ping(_) => r == Err::<Seq<u8>, IOError>(IOError::EmptyData),
        InboundView::Pong => r == Err::<Seq<u8>, IOError>(IOError::EmptyData),
        InboundView::Close => r matches Err(IOError::IoError(f)) && f.kind
            == IoKind::ConnectionAborted && f.message@ == "server disconnected"@,
        InboundView::Incomplete => r matches Err(IOError::IoError(f)) && f.kind
            == IoKind::InvalidData && f.message@ == "no valid message found"@,
        InboundView::Malformed(why) => r matches Err(IOError::IoError(f)) && f.kind
            == IoKind::Other && f.message@ == why,
    }
}

/// Turns what arrived at a destination into what its read reports.
pub fn destination_payload(inbound: Inbound) -> (r: Result<Vec<u8>, IOError>)
    ensures
        destination_says(inbound@, crate::pipeline_module::drained_view(r)),
{
    match inbound {
        Inbound::Payload(data) => Ok(data),
        Inbound::Ping(_) => Err(IOError::EmptyData),
        Inbound::Pong => Err(IOError::EmptyData),
        Inbound::Close => Err(
            IOError::IoError(
                IoFailure {
                    kind: IoKind::ConnectionAborted,
                    message: String::from_str("server disconnected"),
                },
            ),
        ),
        Inbound::Incomplete => Err(
            IOError::IoError(
                IoFailure {
                    kind: IoKind::InvalidData,
                    message: String::from_str("no valid message found"),
                },
            ),
        ),
        Inbound::Malformed(why) => Err(
            IOError::IoError(IoFailure { kind: IoKind::Other, message: why }),
        ),
    }
}

} // verus!
