use crate::error::{IOError, IoFailure, IoKind};
use crate::http_tools::{
    add_header, find_header, header_value, headers_view, HeaderView, HttpRequest, HttpResponse,
    HttpVersion, RequestView,
};
use crate::session::{length_header, token_header};
use crate::text::{decimal_text, format_unsigned, parse_unsigned, text_of, unsigned_of};
use vstd::prelude::*;
use vstd::slice::slice_to_vec;
use vstd::string::{StringExecFns, StringSliceAdditionalSpecFns};
use vstd::utf8::{decode_utf8, valid_utf8};

verus! {

/// A step that reaches its destination through request and response
/// pairs: what is written is kept until the next read carries it out.
pub struct HttpStep {
    token: Option<Vec<u8>>,
    address: String,
    buffer: Vec<u8>,
    renewed: bool,
}

/// What an `HttpStep` holds.
pub struct HttpStepView {
    pub token: Option<Seq<u8>>,
    pub address: Seq<char>,
    pub buffer: Seq<u8>,
    /// Whether the exchange under way has shaken hands anew already.
    pub renewed: bool,
}

impl View for HttpStep {
    type V = HttpStepView;

    closed spec fn view(&self) -> HttpStepView {
        HttpStepView {
            token: match self.token {
                Some(t) => Some(t@),
                None => None,
            },
            address: self.address@,
            buffer: self.buffer@,
            renewed: self.renewed,
        }
    }
}

/// What the step does with the answer to a request.
#[derive(Debug)]
pub enum Judgement {
    /// The answer stands.
    Accepted,
    /// The token was refused: shake hands anew, then ask again.
    Renew,
    /// The exchange failed.
    Rejected(IOError),
}

/// What the step's driver does next in an exchange with the destination.
#[derive(Debug)]
pub enum Action {
    /// Send the opening request and hand its answer to `after_handshake`.
    Handshake,
    /// Send the request, built anew so that it carries the token, and hand
    /// its answer to `after_answer`.
    Send,
    /// The answer stands: the exchange is over.
    Finish,
    /// The exchange failed with this error.
    Fail(IOError),
}

/// The failure that tells of invalid data with the text `told`.
pub open spec fn invalid_data(e: IOError, told: Seq<char>) -> bool {
    e matches IOError::IoError(f) && f.kind == IoKind::InvalidData && f.message@ == told
}

/// The text that tells of a refused exchange: the body, where it is text.
pub open spec fn told_by(body: Seq<u8>) -> Seq<char> {
    if valid_utf8(body) {
        decode_utf8(body)
    } else {
        "Invalid utf8"@
    }
}

fn failure_of(body: &Vec<u8>) -> (e: IOError)
    ensures
        invalid_data(e, told_by(body@)),
{
    let told = match text_of(slice_to_vec(body.as_slice())) {
        Some(text) => text,
        None => String::from_str("Invalid utf8"),
    };
    IOError::IoError(IoFailure { kind: IoKind::InvalidData, message: told })
}

/// The request that opens a session: a `GET` without token or body.
pub open spec fn opening_request() -> RequestView {
    RequestView {
        method: "GET".spec_bytes(),
        target: seq![0x2Fu8],
        version: HttpVersion::Http11,
        headers: Seq::<HeaderView>::empty(),
        body: Seq::<u8>::empty(),
    }
}

/// The header that carries `token`, if there is one.
pub open spec fn token_headers(token: Option<Seq<u8>>) -> Seq<HeaderView> {
    match token {
        Some(t) => seq![HeaderView { name: token_header(), value: t }],
        None => Seq::<HeaderView>::empty(),
    }
}

/// The request that carries `body` out and asks for what is pending: a
/// `GET` with the body's length, the body, and the token.
pub open spec fn carrying_request(token: Option<Seq<u8>>, body: Seq<u8>) -> RequestView {
    RequestView {
        method: "GET".spec_bytes(),
        target: seq![0x2Fu8],
        version: HttpVersion::Http11,
        headers: seq![
            HeaderView { name: length_header(), value: decimal_text(body.len()) },
        ] + token_headers(token),
        body,
    }
}

/// The request that asks how much is pending: a `HEAD` with the token.
pub open spec fn asking_request(token: Option<Seq<u8>>) -> RequestView {
    RequestView {
        method: "HEAD".spec_bytes(),
        target: seq![0x2Fu8],
        version: HttpVersion::Http11,
        headers: token_headers(token),
        body: Seq::<u8>::empty(),
    }
}

impl HttpStep {
    /// A step for the destination at `address`, with no token and nothing
    /// to send.
    pub fn new(address: &str) -> (step: HttpStep)
        ensures
            step@ == (HttpStepView {
                token: None,
                address: address@,
                buffer: Seq::<u8>::empty(),
                renewed: false,
            }),
    {
        HttpStep { token: None, address: String::from_str(address), buffer: Vec::new(), renewed: false }
    }

    /// A fresh step for the same destination.
    pub fn bclone(&self) -> (step: HttpStep)
        ensures
            step@ == (HttpStepView {
                token: None,
                address: self@.address,
                buffer: Seq::<u8>::empty(),
                renewed: false,
            }),
    {
        HttpStep { token: None, address: self.address.clone(), buffer: Vec::new(), renewed: false }
    }

    /// The destination's address.
    pub fn address(&self) -> (a: &String)
        ensures
            a@ == self@.address,
    {
        &self.address
    }

    /// Whether the step holds a token, so that no handshake is due.
    pub fn has_token(&self) -> (r: bool)
        ensures
            r == self@.token is Some,
    {
        self.token.is_some()
    }

    /// Keeps `buf` for the next read to carry out.
    pub fn write(&mut self, buf: &[u8]) -> (n: usize)
        ensures
            n == buf@.len(),
            final(self)@ == (HttpStepView { buffer: old(self)@.buffer + buf@, ..old(self)@ }),
    {
        let mut more = slice_to_vec(buf);
        self.buffer.append(&mut more);
        buf.len()
    }

    /// The size that is known without asking the destination: that of
    /// what waits to be sent, if anything does.
    pub fn pending(&self) -> (r: Option<usize>)
        ensures
            r == (if self@.buffer.len() != 0 {
                Some(self@.buffer.len() as usize)
            } else {
                None
            }),
    {
        if self.buffer.len() != 0 {
            Some(self.buffer.len())
        } else {
            None
        }
    }

    /// The request that opens a session.
    pub fn handshake_request() -> (request: HttpRequest)
        ensures
            request@ == opening_request(),
    {
        HttpRequest::new("GET".as_bytes())
    }

    fn put_token(&self, request: &mut HttpRequest)
        ensures
            final(request)@ == (RequestView {
                headers: old(request)@.headers + token_headers(self@.token),
                ..old(request)@
            }),
    {
        match &self.token {
            Some(t) => {
                add_header(&mut request.headers, "client_token".as_bytes(), t.as_slice());
                assert(request@.headers =~= old(request)@.headers + token_headers(self@.token));
            },
            None => {},
        }
    }

    /// The request that carries out what was written and asks for what
    /// is pending.
    pub fn data_request(&self) -> (request: HttpRequest)
        ensures
            request@ == carrying_request(self@.token, self@.buffer),
    {
        let mut request = HttpRequest::new("GET".as_bytes());
        let count = format_unsigned(self.buffer.len());
        add_header(&mut request.headers, "content-length".as_bytes(), count.as_slice());
        request.body = slice_to_vec(self.buffer.as_slice());
        self.put_token(&mut request);
        request
    }

    /// The request that asks how much is pending.
    pub fn size_request(&self) -> (request: HttpRequest)
        ensures
            request@ == asking_request(self@.token),
    {
        let mut request = HttpRequest::new("HEAD".as_bytes());
        self.put_token(&mut request);
        request
    }

    /// Takes the answer to the opening request. A 200 with a token makes
    /// that token the step's own; a 200 without one, or any other status,
    /// is invalid data and leaves the step as it was.
    pub fn accept_handshake(&mut self, response: &HttpResponse) -> (r: Result<(), IOError>)
        ensures
            response.status != 200 ==> final(self)@ == old(self)@ && r is Err && invalid_data(
                r->Err_0,
                told_by(response.body@),
            ),
            response.status == 200 ==> (match find_header(
                headers_view(response.headers@),
                token_header(),
            ) {
                Some(token) => r is Ok && final(self)@ == (HttpStepView {
                    token: Some(token),
                    ..old(self)@
                }),
                None => final(self)@ == old(self)@ && r is Err && invalid_data(
                    r->Err_0,
                    "Token Not Found"@,
                ),
            }),
    {
        if response.status != 200 {
            return Err(failure_of(&response.body));
        }
        match header_value(&response.headers, "client_token".as_bytes()) {
            Some(token) => {
                self.token = Some(token);
                Ok(())
            },
            None => Err(
                IOError::IoError(
                    IoFailure {
                        kind: IoKind::InvalidData,
                        message: String::from_str("Token Not Found"),
                    },
                ),
            ),
        }
    }

    /// Judges the answer to a request that carried the token: 200 stands;
    /// 403 with a text body asks for a new handshake; anything else fails
    /// the exchange as invalid data.
    pub fn judge(response: &HttpResponse) -> (j: Judgement)
        ensures
            response.status == 200 ==> j is Accepted,
            response.status == 403 && valid_utf8(response.body@) ==> j is Renew,
            response.status != 200 && !(response.status == 403 && valid_utf8(response.body@))
                ==> j is Rejected && invalid_data(j->Rejected_0, told_by(response.body@)),
    {
        if response.status == 200 {
            return Judgement::Accepted;
        }
        let failure = failure_of(&response.body);
        if response.status == 403 {
            match text_of(slice_to_vec(response.body.as_slice())) {
                Some(_) => Judgement::Renew,
                None => Judgement::Rejected(failure),
            }
        } else {
            Judgement::Rejected(failure)
        }
    }

    /// Takes the answer to a data request. A 200 means that what was
    /// written went out: the step forgets it and hands the body on. Any
    /// other status leaves the step as it was and is an error: the body
    /// as text, or a parse error where the body is no text.
    pub fn take_data(&mut self, response: HttpResponse) -> (r: Result<Vec<u8>, IOError>)
        ensures
            response.status == 200 ==> r is Ok && r->Ok_0@ == response.body@ && final(self)@ == (
            HttpStepView { buffer: Seq::<u8>::empty(), ..old(self)@ }),
            response.status != 200 ==> final(self)@ == old(self)@ && (if valid_utf8(
                response.body@,
            ) {
                r matches Err(IOError::UnknownError(told)) && told@ == decode_utf8(
                    response.body@,
                )
            } else {
                r == Err::<Vec<u8>, IOError>(IOError::ParseError)
            }),
    {
        if response.status == 200 {
            self.buffer.clear();
            return Ok(response.body);
        }
        match text_of(response.body) {
            Some(told) => Err(IOError::UnknownError(told)),
            None => Err(IOError::ParseError),
        }
    }

    /// Reads the pending size out of the answer to a size request: the
    /// number in its length header. A missing header is reported as not
    /// found, a header that is no number as invalid data.
    pub fn size_of(response: &HttpResponse) -> (r: Result<usize, IOError>)
        ensures
            match find_header(headers_view(response.headers@), length_header()) {
                Some(text) => match unsigned_of(text) {
                    Some(n) => r == Ok::<usize, IOError>(n),
                    None => r is Err && invalid_data(r->Err_0, "Invalid Content-Length"@),
                },
                None => r matches Err(IOError::IoError(f)) && f.kind == IoKind::NotFound
                    && f.message@ == "Content-Length Header Not Found"@,
            },
    {
        match header_value(&response.headers, "content-length".as_bytes()) {
            Some(text) => match parse_unsigned(text.as_slice()) {
                Some(n) => Ok(n),
                None => Err(
                    IOError::IoError(
                        IoFailure {
                            kind: IoKind::InvalidData,
                            message: String::from_str("Invalid Content-Length"),
                        },
                    ),
                ),
            },
            None => Err(
                IOError::IoError(
                    IoFailure {
                        kind: IoKind::NotFound,
                        message: String::from_str("Content-Length Header Not Found"),
                    },
                ),
            ),
        }
    }

    /// First move of an exchange: without a token the handshake comes
    /// first. No handshake has been renewed yet.
    pub fn begin(&mut self) -> (a: Action)
        ensures
            final(self)@ == (HttpStepView { renewed: false, ..old(self)@ }),
            old(self)@.token is Some ==> a is Send,
            old(self)@.token is None ==> a is Handshake,
    {
        self.renewed = false;
        if self.token.is_some() {
            Action::Send
        } else {
            Action::Handshake
        }
    }

    /// Move after the answer to the opening request: with the token taken
    /// the request goes out; a failed handshake fails the exchange.
    pub fn after_handshake(&mut self, response: &HttpResponse) -> (a: Action)
        ensures
            match find_header(headers_view(response.headers@), token_header()) {
                Some(token) => if response.status == 200 {
                    a is Send && final(self)@ == (HttpStepView {
                        token: Some(token),
                        ..old(self)@
                    })
                } else {
                    final(self)@ == old(self)@ && a is Fail && invalid_data(
                        a->Fail_0,
                        told_by(response.body@),
                    )
                },
                None => final(self)@ == old(self)@ && a is Fail && invalid_data(
                    a->Fail_0,
                    if response.status == 200 {
                        "Token Not Found"@
                    } else {
                        told_by(response.body@)
                    },
                ),
            },
    {
        match self.accept_handshake(response) {
            Ok(()) => Action::Send,
            Err(e) => Action::Fail(e),
        }
    }

    /// Move after the answer to a request that carried the token. A 200
    /// ends the exchange. A refused token calls for one new handshake,
    /// which the step notes; when the token is refused again after that,
    /// and on any other status, the exchange fails as invalid data.
    pub fn after_answer(&mut self, response: &HttpResponse) -> (a: Action)
        ensures
            response.status == 200 ==> a is Finish && final(self)@ == old(self)@,
            response.status == 403 && valid_utf8(response.body@) && !old(self)@.renewed ==> a
                is Handshake && final(self)@ == (HttpStepView { renewed: true, ..old(self)@ }),
            response.status != 200 && !(response.status == 403 && valid_utf8(response.body@)
                && !old(self)@.renewed) ==> a is Fail && invalid_data(
                a->Fail_0,
                told_by(response.body@),
            ) && final(self)@ == old(self)@,
    {
        match Self::judge(response) {
            Judgement::Accepted => Action::Finish,
            Judgement::Renew => {
                if self.renewed {
                    Action::Fail(failure_of(&response.body))
                } else {
                    self.renewed = true;
                    Action::Handshake
                }
            },
            Judgement::Rejected(e) => Action::Fail(e),
        }
    }
}

} // verus!
