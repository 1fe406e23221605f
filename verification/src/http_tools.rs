use crate::error::IOError;
use crate::text::{bytes_equal, decimal_text, lower, split, split_on, to_lower, trim, trimmed};
use http::StatusCode;
use vstd::prelude::*;
use vstd::slice::slice_to_vec;
use vstd::string::StringSliceAdditionalSpecFns;

verus! {

/// The protocol versions a start line may name.
#[derive(Clone, Copy, PartialEq, Eq, Structural, Debug)]
pub enum HttpVersion {
    Http09,
    Http10,
    Http11,
    Http2,
    Http3,
}

/// One header field. The name is kept as it was written; names are
/// compared letter case aside.
#[derive(Debug)]
pub struct Header {
    pub name: Vec<u8>,
    pub value: Vec<u8>,
}

pub struct HeaderView {
    pub name: Seq<u8>,
    pub value: Seq<u8>,
}

impl View for Header {
    type V = HeaderView;

    open spec fn view(&self) -> HeaderView {
        HeaderView { name: self.name@, value: self.value@ }
    }
}

/// The views of the header fields in `headers`.
pub open spec fn headers_view(headers: Seq<Header>) -> Seq<HeaderView> {
    Seq::new(headers.len(), |i: int| headers[i]@)
}

/// A request: start line, header fields, body.
#[derive(Debug)]
pub struct HttpRequest {
    pub method: Vec<u8>,
    pub target: Vec<u8>,
    pub version: HttpVersion,
    pub headers: Vec<Header>,
    pub body: Vec<u8>,
}

pub struct RequestView {
    pub method: Seq<u8>,
    pub target: Seq<u8>,
    pub version: HttpVersion,
    pub headers: Seq<HeaderView>,
    pub body: Seq<u8>,
}

impl View for HttpRequest {
    type V = RequestView;

    open spec fn view(&self) -> RequestView {
        RequestView {
            method: self.method@,
            target: self.target@,
            version: self.version,
            headers: headers_view(self.headers@),
            body: self.body@,
        }
    }
}

/// A response: status, header fields, body.
#[derive(Debug)]
pub struct HttpResponse {
    pub status: u16,
    pub version: HttpVersion,
    pub headers: Vec<Header>,
    pub body: Vec<u8>,
}

pub struct ResponseView {
    pub status: u16,
    pub version: HttpVersion,
    pub headers: Seq<HeaderView>,
    pub body: Seq<u8>,
}

impl View for HttpResponse {
    type V = ResponseView;

    open spec fn view(&self) -> ResponseView {
        ResponseView {
            status: self.status,
            version: self.version,
            headers: headers_view(self.headers@),
            body: self.body@,
        }
    }
}

// The grammar of start lines and header fields below is this library's
// own, written out in full: methods and header names are tokens, targets
// are visible ASCII, header values are visible ASCII with spaces and
// tabs. It is narrower than what some other readers of the protocol
// take: a header value with a byte of 0x80 or above is refused here, and
// a target is not read as an address.

/// An ASCII letter.
pub open spec fn is_alpha(b: u8) -> bool {
    0x41 <= b <= 0x5A || 0x61 <= b <= 0x7A
}

/// A byte that may stand in a method or a header name: a letter, a digit,
/// or one of ``!#$%&'*+-.^_`|~``.
pub open spec fn is_token_byte(b: u8) -> bool {
    is_alpha(b) || 0x30 <= b <= 0x39 || b == 0x21 || 0x23 <= b <= 0x27 || b == 0x2A || b == 0x2B
        || b == 0x2D || b == 0x2E || b == 0x5E || b == 0x5F || b == 0x60 || b == 0x7C || b
        == 0x7E
}

/// A method or header name: at least one byte, token bytes only.
pub open spec fn is_token(text: Seq<u8>) -> bool {
    text.len() > 0 && forall|i: int| 0 <= i < text.len() ==> is_token_byte(#[trigger] text[i])
}

/// A request target: at least one byte, visible ASCII only.
pub open spec fn is_target(text: Seq<u8>) -> bool {
    text.len() > 0 && forall|i: int| 0 <= i < text.len() ==> 0x21 <= #[trigger] text[i] <= 0x7E
}

/// A header value: visible ASCII, spaces and tabs.
pub open spec fn is_field_value(text: Seq<u8>) -> bool {
    forall|i: int|
        0 <= i < text.len() ==> (#[trigger] text[i] == 0x09 || 0x20 <= text[i] <= 0x7E)
}

fn check_token(text: &[u8]) -> (r: bool)
    ensures
        r == is_token(text@),
{
    let n = text.len();
    if n == 0 {
        return false;
    }
    let mut i: usize = 0;
    while i < n
        invariant
            i <= n,
            n == text@.len(),
            forall|j: int| 0 <= j < i ==> is_token_byte(#[trigger] text@[j]),
        decreases n - i,
    {
        let b = text[i];
        let ok = (0x41u8 <= b && b <= 0x5Au8) || (0x61u8 <= b && b <= 0x7Au8) || (0x30u8 <= b && b
            <= 0x39u8) || b == 0x21u8 || (0x23u8 <= b && b <= 0x27u8) || b == 0x2Au8 || b
            == 0x2Bu8 || b == 0x2Du8 || b == 0x2Eu8 || b == 0x5Eu8 || b == 0x5Fu8 || b == 0x60u8
            || b == 0x7Cu8 || b == 0x7Eu8;
        if !ok {
            return false;
        }
        i = i + 1;
    }
    true
}

fn check_target(text: &[u8]) -> (r: bool)
    ensures
        r == is_target(text@),
{
    let n = text.len();
    if n == 0 {
        return false;
    }
    let mut i: usize = 0;
    while i < n
        invariant
            i <= n,
            n == text@.len(),
            forall|j: int| 0 <= j < i ==> 0x21 <= #[trigger] text@[j] <= 0x7E,
        decreases n - i,
    {
        let b = text[i];
        if b < 0x21u8 || b > 0x7Eu8 {
            return false;
        }
        i = i + 1;
    }
    true
}

fn check_field_value(text: &[u8]) -> (r: bool)
    ensures
        r == is_field_value(text@),
{
    let n = text.len();
    let mut i: usize = 0;
    while i < n
        invariant
            i <= n,
            n == text@.len(),
            forall|j: int|
                0 <= j < i ==> (#[trigger] text@[j] == 0x09 || 0x20 <= text@[j] <= 0x7E),
        decreases n - i,
    {
        let b = text[i];
        if !(b == 0x09u8 || (0x20u8 <= b && b <= 0x7Eu8)) {
            return false;
        }
        i = i + 1;
    }
    true
}

/// The version that `text` names, if it names one.
pub open spec fn version_of(text: Seq<u8>) -> Option<HttpVersion> {
    if text == "HTTP/0.9".spec_bytes() {
        Some(HttpVersion::Http09)
    } else if text == "HTTP/1.0".spec_bytes() {
        Some(HttpVersion::Http10)
    } else if text == "HTTP/1.1".spec_bytes() {
        Some(HttpVersion::Http11)
    } else if text == "HTTP/2.0".spec_bytes() {
        Some(HttpVersion::Http2)
    } else if text == "HTTP/3.0".spec_bytes() {
        Some(HttpVersion::Http3)
    } else {
        None
    }
}

/// Reads a protocol version.
pub fn parse_version(text: &[u8]) -> (r: Option<HttpVersion>)
    ensures
        r == version_of(text@),
{
    if bytes_equal(text, "HTTP/0.9".as_bytes()) {
        Some(HttpVersion::Http09)
    } else if bytes_equal(text, "HTTP/1.0".as_bytes()) {
        Some(HttpVersion::Http10)
    } else if bytes_equal(text, "HTTP/1.1".as_bytes()) {
        Some(HttpVersion::Http11)
    } else if bytes_equal(text, "HTTP/2.0".as_bytes()) {
        Some(HttpVersion::Http2)
    } else if bytes_equal(text, "HTTP/3.0".as_bytes()) {
        Some(HttpVersion::Http3)
    } else {
        None
    }
}

/// The `k`-th piece of a split line, empty where the line has fewer.
pub open spec fn field(parts: Seq<Seq<u8>>, k: int) -> Seq<u8> {
    if 0 <= k < parts.len() {
        parts[k]
    } else {
        Seq::<u8>::empty()
    }
}

/// What a request line says: method, target and version, the first three
/// pieces between single spaces. `None` where one of them is not
/// well-formed.
pub open spec fn request_line_of(line: Seq<u8>) -> Option<(Seq<u8>, Seq<u8>, HttpVersion)> {
    let parts = split_on(line, 0x20u8);
    let method = field(parts, 0);
    let target = field(parts, 1);
    let version = version_of(field(parts, 2));
    if is_token(method) && is_target(target) && version is Some {
        Some((method, target, version.unwrap()))
    } else {
        None
    }
}

fn piece(parts: &Vec<Vec<u8>>, k: usize) -> (r: Vec<u8>)
    ensures
        r@ == field(crate::text::parts_view(parts@), k as int),
{
    if k < parts.len() {
        slice_to_vec(parts[k].as_slice())
    } else {
        Vec::new()
    }
}

/// Reads a request line.
pub fn parse_request_line(line: &[u8]) -> (r: Option<(Vec<u8>, Vec<u8>, HttpVersion)>)
    ensures
        match request_line_of(line@) {
            Some((method, target, version)) => r is Some && r.unwrap().0@ == method && r.unwrap().1@
                == target && r.unwrap().2 == version,
            None => r is None,
        },
{
    let parts = split(line, 0x20u8);
    let method = piece(&parts, 0);
    let target = piece(&parts, 1);
    let version_text = piece(&parts, 2);
    let version = parse_version(version_text.as_slice());
    if !check_token(method.as_slice()) || !check_target(target.as_slice()) {
        return None;
    }
    match version {
        Some(v) => Some((method, target, v)),
        None => None,
    }
}

/// The status that three decimal digits write, the first of them not 0.
pub open spec fn status_of(text: Seq<u8>) -> Option<u16> {
    if text.len() == 3 && 0x31 <= text[0] <= 0x39 && 0x30 <= text[1] <= 0x39 && 0x30 <= text[2]
        <= 0x39 {
        Some(((text[0] - 0x30) * 100 + (text[1] - 0x30) * 10 + (text[2] - 0x30)) as u16)
    } else {
        None
    }
}

/// Reads a status code.
pub fn parse_status(text: &[u8]) -> (r: Option<u16>)
    ensures
        r == status_of(text@),
        r is Some ==> 100 <= r.unwrap() <= 999,
{
    if text.len() != 3 {
        return None;
    }
    let a = text[0];
    let b = text[1];
    let c = text[2];
    if a < 0x31u8 || a > 0x39u8 || b < 0x30u8 || b > 0x39u8 || c < 0x30u8 || c > 0x39u8 {
        return None;
    }
    let hundreds: u16 = (a - 0x30u8) as u16;
    let tens: u16 = (b - 0x30u8) as u16;
    let ones: u16 = (c - 0x30u8) as u16;
    Some(hundreds * 100 + tens * 10 + ones)
}

/// What a status line says: version and status, the first two pieces
/// between single spaces; the reason that follows is not read.
pub open spec fn response_line_of(line: Seq<u8>) -> Option<(HttpVersion, u16)> {
    let parts = split_on(line, 0x20u8);
    let version = version_of(field(parts, 0));
    let status = status_of(field(parts, 1));
    if version is Some && status is Some {
        Some((version.unwrap(), status.unwrap()))
    } else {
        None
    }
}

/// Reads a status line.
pub fn parse_reponse_line(line: &[u8]) -> (r: Option<(HttpVersion, u16)>)
    ensures
        r == response_line_of(line@),
        r is Some ==> 100 <= r.unwrap().1 <= 999,
{
    let parts = split(line, 0x20u8);
    let version_text = piece(&parts, 0);
    let status_text = piece(&parts, 1);
    let version = parse_version(version_text.as_slice());
    let status = parse_status(status_text.as_slice());
    match (version, status) {
        (Some(v), Some(s)) => Some((v, s)),
        _ => None,
    }
}

/// `k` is the place of the first `b` in `text`.
pub open spec fn first_at(text: Seq<u8>, b: u8, k: int) -> bool {
    &&& 0 <= k < text.len()
    &&& text[k] == b
    &&& forall|j: int| 0 <= j < k ==> text[j] != b
}

/// What a header line says: the name before the first colon, as written,
/// and the value after it, without the blanks around it. `None`
/// where there is no colon, the name is no token, or the value holds a
/// byte that is neither visible ASCII nor a blank.
pub open spec fn header_of(line: Seq<u8>) -> Option<HeaderView> {
    if exists|k: int| first_at(line, 0x3Au8, k) {
        let k = choose|k: int| first_at(line, 0x3Au8, k);
        let name = line.take(k);
        let value = trimmed(line.skip(k + 1));
        if is_token(name) && is_field_value(value) {
            Some(HeaderView { name, value })
        } else {
            None
        }
    } else {
        None
    }
}

/// Reads a header line.
pub fn parse_header(line: &[u8]) -> (r: Option<Header>)
    ensures
        match header_of(line@) {
            Some(h) => r is Some && r.unwrap()@ == h,
            None => r is None,
        },
{
    let n = line.len();
    let mut k: usize = 0;
    while k < n && line[k] != 0x3Au8
        invariant
            k <= n,
            n == line@.len(),
            forall|j: int| 0 <= j < k ==> line@[j] != 0x3Au8,
        decreases n - k,
    {
        k = k + 1;
    }
    if k == n {
        assert forall|j: int| !first_at(line@, 0x3Au8, j) by {}
        return None;
    }
    assert(first_at(line@, 0x3Au8, k as int));
    assert forall|j: int| first_at(line@, 0x3Au8, j) implies j == k by {}
    let name = &line[0..k];
    let value = trim(&line[k + 1..n]);
    if check_token(name) && check_field_value(value.as_slice()) {
        Some(Header { name: slice_to_vec(name), value })
    } else {
        None
    }
}

/// The four bytes from place `k` of `buf` are an empty line after a line
/// end: CR LF CR LF.
pub open spec fn blank_line_at(buf: Seq<u8>, k: int) -> bool {
    &&& 0 <= k
    &&& k + 4 <= buf.len()
    &&& buf[k] == 0x0D
    &&& buf[k + 1] == 0x0A
    &&& buf[k + 2] == 0x0D
    &&& buf[k + 3] == 0x0A
}

/// The head of the message in `buf` ends at `k`: the first empty line
/// starts there.
pub open spec fn head_ends_at(buf: Seq<u8>, k: int) -> bool {
    &&& blank_line_at(buf, k)
    &&& forall|j: int| 0 <= j < k ==> !blank_line_at(buf, j)
}

/// The lines of a head, each given without the CR LF that must end it.
/// `None` where a line feed stands without a carriage return before it.
pub open spec fn lines_of(head: Seq<u8>) -> Option<Seq<Seq<u8>>> {
    let parts = split_on(head, 0x0Au8);
    if forall|i: int|
        0 <= i < parts.len() - 1 ==> (#[trigger] parts[i]).len() > 0 && parts[i].last() == 0x0D {
        Some(Seq::new((parts.len() - 1) as nat, |i: int| parts[i].drop_last()))
    } else {
        None
    }
}

/// The header fields that `lines` give, from line `from` on; `None` where
/// one of the lines is no header line.
pub open spec fn headers_of(lines: Seq<Seq<u8>>, from: int) -> Option<Seq<HeaderView>> {
    if forall|i: int| from <= i < lines.len() ==> (#[trigger] header_of(lines[i])) is Some {
        Some(Seq::new((lines.len() - from) as nat, |i: int| header_of(lines[i + from]).unwrap()))
    } else {
        None
    }
}

/// A message split into the lines of its head and its body.
pub struct Framed {
    pub lines: Seq<Seq<u8>>,
    pub body: Seq<u8>,
}

/// The framing of the message in `buf`: the head runs up to the first
/// empty line and is made of lines that end in CR LF, the first of them
/// the start line; the body is what follows the empty line. `None` where
/// there is no empty line or the head is not made of such lines.
pub open spec fn framed(buf: Seq<u8>) -> Option<Framed> {
    if exists|k: int| head_ends_at(buf, k) {
        let k = choose|k: int| head_ends_at(buf, k);
        match lines_of(buf.take(k + 2)) {
            Some(lines) => if lines.len() >= 1 {
                Some(Framed { lines, body: buf.skip(k + 4) })
            } else {
                None
            },
            None => None,
        }
    } else {
        None
    }
}

/// The request that the bytes `buf` hold, if they hold one.
pub open spec fn request_of(buf: Seq<u8>) -> Option<RequestView> {
    match framed(buf) {
        Some(f) => match (request_line_of(f.lines[0]), headers_of(f.lines, 1)) {
            (Some((method, target, version)), Some(headers)) => Some(
                RequestView { method, target, version, headers, body: f.body },
            ),
            _ => None,
        },
        None => None,
    }
}

/// The response that the bytes `buf` hold, if they hold one.
pub open spec fn response_of(buf: Seq<u8>) -> Option<ResponseView> {
    match framed(buf) {
        Some(f) => match (response_line_of(f.lines[0]), headers_of(f.lines, 1)) {
            (Some((version, status)), Some(headers)) => Some(
                ResponseView { status, version, headers, body: f.body },
            ),
            _ => None,
        },
        None => None,
    }
}

fn find_head_end(buf: &[u8]) -> (r: Option<usize>)
    ensures
        match r {
            Some(k) => head_ends_at(buf@, k as int),
            None => forall|k: int| !head_ends_at(buf@, k),
        },
{
    let n = buf.len();
    if n < 4 {
        assert forall|k: int| !head_ends_at(buf@, k) by {}
        return None;
    }
    let mut k: usize = 0;
    while k <= n - 4
        invariant
            n == buf@.len(),
            n >= 4,
            k <= n - 3,
            forall|j: int| 0 <= j < k ==> !blank_line_at(buf@, j),
        decreases n - k,
    {
        if buf[k] == 0x0Du8 && buf[k + 1] == 0x0Au8 && buf[k + 2] == 0x0Du8 && buf[k + 3]
            == 0x0Au8 {
            return Some(k);
        }
        k = k + 1;
    }
    assert forall|j: int| !head_ends_at(buf@, j) by {}
    None
}

fn split_lines(head: &[u8]) -> (r: Option<Vec<Vec<u8>>>)
    ensures
        match lines_of(head@) {
            Some(lines) => r is Some && crate::text::parts_view(r.unwrap()@) == lines,
            None => r is None,
        },
{
    let parts = split(head, 0x0Au8);
    let ghost shown = crate::text::parts_view(parts@);
    let count = parts.len() - 1;
    let mut lines: Vec<Vec<u8>> = Vec::new();
    let mut i: usize = 0;
    while i < count
        invariant
            i <= count,
            count == parts@.len() - 1,
            shown == crate::text::parts_view(parts@),
            shown == split_on(head@, 0x0Au8),
            lines@.len() == i,
            forall|j: int| 0 <= j < i ==> (#[trigger] shown[j]).len() > 0 && shown[j].last() == 0x0D,
            forall|j: int| 0 <= j < i ==> (#[trigger] lines@[j])@ == shown[j].drop_last(),
        decreases count - i,
    {
        let part = parts[i].as_slice();
        assert(part@ == shown[i as int]);
        let m = part.len();
        if m == 0 || part[m - 1] != 0x0Du8 {
            return None;
        }
        let line = slice_to_vec(&part[0..m - 1]);
        lines.push(line);
        i = i + 1;
    }
    assert(crate::text::parts_view(lines@) =~= Seq::new(
        (shown.len() - 1) as nat,
        |i: int| shown[i].drop_last(),
    ));
    Some(lines)
}

fn parse_headers(lines: &Vec<Vec<u8>>) -> (r: Option<Vec<Header>>)
    requires
        lines@.len() >= 1,
    ensures
        match headers_of(crate::text::parts_view(lines@), 1) {
            Some(headers) => r is Some && headers_view(r.unwrap()@) == headers,
            None => r is None,
        },
{
    let ghost shown = crate::text::parts_view(lines@);
    let n = lines.len();
    let mut headers: Vec<Header> = Vec::new();
    let mut i: usize = 1;
    while i < n
        invariant
            1 <= i <= n,
            n == lines@.len(),
            shown == crate::text::parts_view(lines@),
            headers@.len() == i - 1,
            forall|j: int| 1 <= j < i ==> (#[trigger] header_of(shown[j])) is Some,
            forall|j: int|
                0 <= j < i - 1 ==> (#[trigger] headers@[j])@ == header_of(shown[j + 1]).unwrap(),
        decreases n - i,
    {
        let line = lines[i].as_slice();
        assert(line@ == shown[i as int]);
        match parse_header(line) {
            Some(h) => {
                headers.push(h);
            },
            None => {
                return None;
            },
        }
        i = i + 1;
    }
    assert(headers_view(headers@) =~= Seq::new(
        (shown.len() - 1) as nat,
        |i: int| header_of(shown[i + 1]).unwrap(),
    ));
    Some(headers)
}

fn parse_framing(buf: &[u8]) -> (r: Option<(Vec<Vec<u8>>, Vec<u8>)>)
    ensures
        match framed(buf@) {
            Some(f) => r is Some && crate::text::parts_view(r.unwrap().0@) == f.lines
                && r.unwrap().1@ == f.body,
            None => r is None,
        },
{
    match find_head_end(buf) {
        None => None,
        Some(k) => {
            let n = buf.len();
            assert forall|j: int| head_ends_at(buf@, j) implies j == k by {}
            let head = &buf[0..k + 2];
            match split_lines(head) {
                None => None,
                Some(lines) => {
                    if lines.len() == 0 {
                        return None;
                    }
                    let body = slice_to_vec(&buf[k + 4..n]);
                    Some((lines, body))
                },
            }
        },
    }
}

/// Reads a request from the bytes that arrived. Malformed bytes are a
/// `ParseError`.
pub fn read_request(buf: &[u8]) -> (r: Result<HttpRequest, IOError>)
    ensures
        match request_of(buf@) {
            Some(request) => r is Ok && r.unwrap()@ == request,
            None => r == Err::<HttpRequest, IOError>(IOError::ParseError),
        },
{
    match parse_framing(buf) {
        None => Err(IOError::ParseError),
        Some((lines, body)) => {
            let start = parse_request_line(lines[0].as_slice());
            let headers = parse_headers(&lines);
            match (start, headers) {
                (Some((method, target, version)), Some(headers)) => Ok(
                    HttpRequest { method, target, version, headers, body },
                ),
                _ => Err(IOError::ParseError),
            }
        },
    }
}

/// Reads a response from the bytes that arrived. Malformed bytes are a
/// `ParseError`.
pub fn read_response(buf: &[u8]) -> (r: Result<HttpResponse, IOError>)
    ensures
        match response_of(buf@) {
            Some(response) => r is Ok && r.unwrap()@ == response && 100 <= r.unwrap().status
                <= 999,
            None => r == Err::<HttpResponse, IOError>(IOError::ParseError),
        },
{
    match parse_framing(buf) {
        None => Err(IOError::ParseError),
        Some((lines, body)) => {
            let start = parse_reponse_line(lines[0].as_slice());
            let headers = parse_headers(&lines);
            match (start, headers) {
                (Some((version, status)), Some(headers)) => Ok(
                    HttpResponse { status, version, headers, body },
                ),
                _ => Err(IOError::ParseError),
            }
        },
    }
}

/// The value of the first header in `headers` named `name`, letter case
/// aside.
pub open spec fn find_header(headers: Seq<HeaderView>, name: Seq<u8>) -> Option<Seq<u8>>
    decreases headers.len(),
{
    if headers.len() == 0 {
        None
    } else if lower(headers[0].name) == lower(name) {
        Some(headers[0].value)
    } else {
        find_header(headers.skip(1), name)
    }
}

/// Looks a header up by name, letter case aside.
pub fn header_value(headers: &Vec<Header>, name: &[u8]) -> (r: Option<Vec<u8>>)
    ensures
        match find_header(headers_view(headers@), name@) {
            Some(value) => r is Some && r.unwrap()@ == value,
            None => r is None,
        },
{
    let wanted = to_lower(name);
    let n = headers.len();
    let ghost shown = headers_view(headers@);
    let mut i: usize = 0;
    assert(shown.skip(0) =~= shown);
    while i < n
        invariant
            i <= n,
            n == headers@.len(),
            shown == headers_view(headers@),
            wanted@ == lower(name@),
            find_header(shown, name@) == find_header(shown.skip(i as int), name@),
        decreases n - i,
    {
        assert(shown.skip(i as int).skip(1) =~= shown.skip(i + 1));
        let held = to_lower(headers[i].name.as_slice());
        if bytes_equal(held.as_slice(), wanted.as_slice()) {
            return Some(slice_to_vec(headers[i].value.as_slice()));
        }
        i = i + 1;
    }
    None
}

/// The canonical text of a status: the number, a space, and the reason
/// phrase that goes with it.
pub uninterp spec fn status_text(code: u16) -> Seq<u8>;

/// What is known of a status text: it starts with the decimal digits of
/// the code and a space, and it holds neither carriage return nor line
/// feed.
pub open spec fn status_text_shape(code: u16, text: Seq<u8>) -> bool {
    &&& text.len() >= 4
    &&& text.take(3) == decimal_text(code as nat)
    &&& text[3] == 0x20u8
    &&& forall|i: int| 0 <= i < text.len() ==> text[i] != 0x0Du8 && text[i] != 0x0Au8
}

/// `StatusCode::from_u16` of the `http` crate, and the text its `Display`
/// gives. Trusted: for a code from 100 to 999 this is the named text of
/// that code, made of the number, a space and a reason phrase on one
/// line.
#[verifier::external_body]
fn status_line_text(code: u16) -> (text: Vec<u8>)
    requires
        100 <= code <= 999,
    ensures
        text@ == status_text(code),
        status_text_shape(code, text@),
{
    StatusCode::from_u16(code).unwrap().to_string().into_bytes()
}

/// One header field as it goes on the wire: name, colon, space, value,
/// CR LF.
pub open spec fn header_text(h: HeaderView) -> Seq<u8> {
    h.name + seq![0x3Au8, 0x20u8] + h.value + seq![0x0Du8, 0x0Au8]
}

/// The header fields as they go on the wire, in order.
pub open spec fn headers_text(headers: Seq<HeaderView>) -> Seq<u8>
    decreases headers.len(),
{
    if headers.len() == 0 {
        Seq::<u8>::empty()
    } else {
        headers_text(headers.drop_last()) + header_text(headers.last())
    }
}

/// A request as it goes on the wire: method, target and `HTTP/1.1` on the
/// first line, the header fields, an empty line, the body.
pub open spec fn request_text(r: RequestView) -> Seq<u8> {
    r.method + seq![0x20u8] + r.target + seq![0x20u8] + "HTTP/1.1".spec_bytes() + seq![
        0x0Du8,
        0x0Au8,
    ] + headers_text(r.headers) + seq![0x0Du8, 0x0Au8] + r.body
}

/// A response as it goes on the wire: `HTTP/1.1` and the status text on
/// the first line, the header fields, an empty line, the body.
pub open spec fn response_text(r: ResponseView) -> Seq<u8> {
    "HTTP/1.1".spec_bytes() + seq![0x20u8] + status_text(r.status) + seq![0x0Du8, 0x0Au8]
        + headers_text(r.headers) + seq![0x0Du8, 0x0Au8] + r.body
}

fn push_all(out: &mut Vec<u8>, bytes: &[u8])
    ensures
        final(out)@ == old(out)@ + bytes@,
{
    let mut more = slice_to_vec(bytes);
    out.append(&mut more);
}

fn push_line_end(out: &mut Vec<u8>)
    ensures
        final(out)@ == old(out)@ + seq![0x0Du8, 0x0Au8],
{
    out.push(0x0Du8);
    out.push(0x0Au8);
}

fn push_headers(out: &mut Vec<u8>, headers: &Vec<Header>)
    ensures
        final(out)@ == old(out)@ + headers_text(headers_view(headers@)),
{
    let n = headers.len();
    let ghost shown = headers_view(headers@);
    let mut i: usize = 0;
    while i < n
        invariant
            i <= n,
            n == headers@.len(),
            shown == headers_view(headers@),
            out@ == old(out)@ + headers_text(shown.take(i as int)),
        decreases n - i,
    {
        assert(shown.take(i + 1).drop_last() =~= shown.take(i as int));
        push_all(out, headers[i].name.as_slice());
        out.push(0x3Au8);
        out.push(0x20u8);
        push_all(out, headers[i].value.as_slice());
        push_line_end(out);
        i = i + 1;
    }
    assert(shown.take(n as int) =~= shown);
}

/// The bytes that carry `request` on the wire.
pub fn write_request(request: &HttpRequest) -> (bytes: Vec<u8>)
    ensures
        bytes@ == request_text(request@),
{
    let mut out: Vec<u8> = Vec::new();
    push_all(&mut out, request.method.as_slice());
    out.push(0x20u8);
    push_all(&mut out, request.target.as_slice());
    out.push(0x20u8);
    push_all(&mut out, "HTTP/1.1".as_bytes());
    push_line_end(&mut out);
    push_headers(&mut out, &request.headers);
    push_line_end(&mut out);
    push_all(&mut out, request.body.as_slice());
    out
}

/// The bytes that carry `response` on the wire.
pub fn write_response(response: &HttpResponse) -> (bytes: Vec<u8>)
    requires
        100 <= response.status <= 999,
    ensures
        bytes@ == response_text(response@),
        status_text_shape(response.status, status_text(response.status)),
{
    let mut out: Vec<u8> = Vec::new();
    push_all(&mut out, "HTTP/1.1".as_bytes());
    out.push(0x20u8);
    let status = status_line_text(response.status);
    push_all(&mut out, status.as_slice());
    push_line_end(&mut out);
    push_headers(&mut out, &response.headers);
    push_line_end(&mut out);
    push_all(&mut out, response.body.as_slice());
    out
}

impl HttpResponse {
    /// A response with the given status, no header and no body.
    pub fn new(status: u16) -> (r: HttpResponse)
        ensures
            r@ == (ResponseView {
                status,
                version: HttpVersion::Http11,
                headers: Seq::<HeaderView>::empty(),
                body: Seq::<u8>::empty(),
            }),
    {
        let r = HttpResponse {
            status,
            version: HttpVersion::Http11,
            headers: Vec::new(),
            body: Vec::new(),
        };
        assert(headers_view(r.headers@) =~= Seq::<HeaderView>::empty());
        r
    }
}

impl HttpRequest {
    /// A request for `/` with the given method, no header and no body.
    pub fn new(method: &[u8]) -> (r: HttpRequest)
        ensures
            r@ == (RequestView {
                method: method@,
                target: seq![0x2Fu8],
                version: HttpVersion::Http11,
                headers: Seq::<HeaderView>::empty(),
                body: Seq::<u8>::empty(),
            }),
    {
        let mut target: Vec<u8> = Vec::new();
        target.push(0x2Fu8);
        let r = HttpRequest {
            method: slice_to_vec(method),
            target,
            version: HttpVersion::Http11,
            headers: Vec::new(),
            body: Vec::new(),
        };
        assert(headers_view(r.headers@) =~= Seq::<HeaderView>::empty());
        r
    }
}

/// Appends a header field, its name as given.
pub fn add_header(headers: &mut Vec<Header>, name: &[u8], value: &[u8])
    ensures
        headers_view(final(headers)@) == headers_view(old(headers)@).push(
            HeaderView { name: name@, value: value@ },
        ),
{
    let h = Header { name: slice_to_vec(name), value: slice_to_vec(value) };
    headers.push(h);
}

} // verus!
