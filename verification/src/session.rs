use crate::base64_step::{lemma_padded_len, lemma_padded_one_to_one, padded_base64};
use crate::error::IOError;
use crate::http_tools::{
    add_header, find_header, header_value, read_request, request_of, response_text, write_response,
    HeaderView, HttpRequest, HttpResponse, HttpVersion, RequestView, ResponseView,
};
use crate::pipeline_module::{
    all_cloned, all_started, drained_view, lemma_len_twice, read_back, sized, steady, written,
    Pipeline, PipelineStep,
};
use crate::text::{bytes_equal, decimal_text, format_unsigned};
use vstd::prelude::*;
use vstd::slice::slice_to_vec;
use vstd::string::{StringExecFns, StringSliceAdditionalSpecFns};

verus! {

/// The SHA-256 digest of `data`.
pub uninterp spec fn sha256(data: Seq<u8>) -> Seq<u8>;

/// `openssl::sha::sha256`. Trusted: the result is the named digest of the
/// input, 32 bytes long.
#[verifier::external_body]
fn sha256_digest(data: &[u8]) -> (digest: Vec<u8>)
    ensures
        digest@ == sha256(data@),
        digest@.len() == 32,
{
    openssl::sha::sha256(data).to_vec()
}

/// `openssl::base64::encode_block`. Trusted: the result is the padded
/// base64 text of the input in the standard alphabet, on one line. The
/// input is kept short because the call refuses lengths that do not fit a
/// C `int`.
#[verifier::external_body]
fn base64_block_text(data: &[u8]) -> (text: Vec<u8>)
    requires
        data@.len() <= 0x1000_0000,
    ensures
        text@ == padded_base64(data@),
{
    openssl::base64::encode_block(data).into_bytes()
}

/// The session token of a client: the base64 text of the SHA-256 digest of
/// its address text followed by the shared salt.
pub open spec fn token_of(ip: Seq<u8>, salt: Seq<u8>) -> Seq<u8> {
    padded_base64(sha256(ip + salt))
}

/// Derives the session token of the client at `ip`: 44 symbols, the
/// padded base64 text of a digest of 32 bytes.
pub fn generate_token(ip: &[u8], salt: &[u8]) -> (token: Vec<u8>)
    ensures
        token@ == token_of(ip@, salt@),
        token@.len() == 44,
{
    let mut key = slice_to_vec(ip);
    let mut rest = slice_to_vec(salt);
    key.append(&mut rest);
    let digest = sha256_digest(key.as_slice());
    proof {
        lemma_padded_len(digest@);
    }
    base64_block_text(digest.as_slice())
}

/// Whether `token` is the token of the client at `ip`.
pub fn validate_token(ip: &[u8], salt: &[u8], token: &[u8]) -> (r: bool)
    ensures
        r == (token@ == token_of(ip@, salt@)),
{
    let expected = generate_token(ip, salt);
    bytes_equal(expected.as_slice(), token)
}

/// Name of the header that carries the session token.
pub open spec fn token_header() -> Seq<u8> {
    "client_token".spec_bytes()
}

/// Name of the header that carries a body length.
pub open spec fn length_header() -> Seq<u8> {
    "content-length".spec_bytes()
}

/// The method of a request that moves data.
pub open spec fn method_get() -> Seq<u8> {
    "GET".spec_bytes()
}

/// The method of a request that only asks how much is pending.
pub open spec fn method_head() -> Seq<u8> {
    "HEAD".spec_bytes()
}

/// The answer to a new-session request: 200, with the token in the token
/// header.
pub open spec fn handshake_response(token: Seq<u8>) -> ResponseView {
    ResponseView {
        status: 200,
        version: HttpVersion::Http11,
        headers: seq![HeaderView { name: token_header(), value: token }],
        body: Seq::<u8>::empty(),
    }
}

/// An answer that refuses: the status and a short text as body.
pub open spec fn refusal(status: u16, text: Seq<u8>) -> ResponseView {
    ResponseView {
        status,
        version: HttpVersion::Http11,
        headers: Seq::<HeaderView>::empty(),
        body: text,
    }
}

/// The answer that carries backward data: 200, the length of `data` in
/// the length header, `data` as body.
pub open spec fn data_response(data: Seq<u8>) -> ResponseView {
    ResponseView {
        status: 200,
        version: HttpVersion::Http11,
        headers: seq![
            HeaderView {
                name: length_header(),
                value: decimal_text(data.len()),
            },
        ],
        body: data,
    }
}

/// The answer that tells how much backward data is pending: 200, `count`
/// in the length header, no body.
pub open spec fn size_response(count: usize) -> ResponseView {
    ResponseView {
        status: 200,
        version: HttpVersion::Http11,
        headers: seq![
            HeaderView {
                name: length_header(),
                value: decimal_text(count as nat),
            },
        ],
        body: Seq::<u8>::empty(),
    }
}

fn make_handshake_response(token: &[u8]) -> (r: HttpResponse)
    ensures
        r@ == handshake_response(token@),
{
    let mut r = HttpResponse::new(200);
    add_header(&mut r.headers, "client_token".as_bytes(), token);
    r
}

fn make_refusal(status: u16, text: &str) -> (r: HttpResponse)
    ensures
        r@ == refusal(status, text.spec_bytes()),
{
    let mut r = HttpResponse::new(status);
    r.body = slice_to_vec(text.as_bytes());
    r
}

fn make_data_response(data: Vec<u8>) -> (r: HttpResponse)
    ensures
        r@ == data_response(data@),
{
    let mut r = HttpResponse::new(200);
    let count = format_unsigned(data.len());
    add_header(&mut r.headers, "content-length".as_bytes(), count.as_slice());
    r.body = data;
    r
}

fn make_size_response(count: usize) -> (r: HttpResponse)
    ensures
        r@ == size_response(count),
{
    let mut r = HttpResponse::new(200);
    let text = format_unsigned(count);
    add_header(&mut r.headers, "content-length".as_bytes(), text.as_slice());
    r
}

/// One client session: its token, who opened it, its own pipeline and the
/// time it was last used.
pub struct Session<S: PipelineStep> {
    pub token: Vec<u8>,
    pub peer: Vec<u8>,
    pub pipeline: Pipeline<S>,
    pub last_seen: u64,
}

/// No token occurs twice and every pipeline is valid.
pub open spec fn sessions_wf<S: PipelineStep>(sessions: Seq<Session<S>>) -> bool {
    &&& forall|i: int, j: int|
        0 <= i < j < sessions.len() ==> (#[trigger] sessions[i]).token@ != (
        #[trigger] sessions[j]).token@
    &&& forall|i: int| 0 <= i < sessions.len() ==> (#[trigger] sessions[i]).pipeline.wf()
}

/// `i` is the place of the session with `token`.
pub open spec fn session_at<S: PipelineStep>(
    sessions: Seq<Session<S>>,
    token: Seq<u8>,
    i: int,
) -> bool {
    0 <= i < sessions.len() && sessions[i].token@ == token
}

/// There is a session with `token`.
pub open spec fn has_session<S: PipelineStep>(sessions: Seq<Session<S>>, token: Seq<u8>) -> bool {
    exists|i: int| session_at(sessions, token, i)
}

/// A session has been idle for longer than `timeout` at time `now`.
pub open spec fn expired<S: PipelineStep>(session: Session<S>, now: u64, timeout: u64) -> bool {
    now > session.last_seen && now - session.last_seen > timeout
}

/// The sessions of `sessions` that have not expired, in their order.
pub open spec fn unexpired<S: PipelineStep>(
    sessions: Seq<Session<S>>,
    now: u64,
    timeout: u64,
) -> Seq<Session<S>> {
    sessions.filter(|s: Session<S>| !expired(s, now, timeout))
}

/// The sessions of `sessions` whose token is not `token`, in their order.
pub open spec fn without_token<S: PipelineStep>(
    sessions: Seq<Session<S>>,
    token: Seq<u8>,
) -> Seq<Session<S>> {
    sessions.filter(|s: Session<S>| s.token@ != token)
}

/// The directory of the sessions that are open: at most one per token.
pub struct SessionDirectory<S: PipelineStep> {
    sessions: Vec<Session<S>>,
}

impl<S: PipelineStep> View for SessionDirectory<S> {
    type V = Seq<Session<S>>;

    closed spec fn view(&self) -> Seq<Session<S>> {
        self.sessions@
    }
}

/// What a handler hands back: the response to send, if any, and whether
/// the request went well.
pub struct Reply {
    pub response: Option<HttpResponse>,
    pub outcome: Result<(), IOError>,
}

pub struct ReplyView {
    pub response: Option<ResponseView>,
    pub outcome: Result<(), IOError>,
}

impl View for Reply {
    type V = ReplyView;

    open spec fn view(&self) -> ReplyView {
        ReplyView {
            response: match self.response {
                Some(r) => Some(r@),
                None => None,
            },
            outcome: self.outcome,
        }
    }
}

impl Reply {
    /// The response, if there is one, has a status that can go on the
    /// wire.
    pub open spec fn sendable(self) -> bool {
        self.response matches Some(r) ==> 100 <= r.status <= 999
    }
}

/// The bytes that carry a response, if there is one.
pub open spec fn wire_of(response: Option<ResponseView>) -> Option<Seq<u8>> {
    match response {
        Some(r) => Some(response_text(r)),
        None => None,
    }
}

/// The bytes to send, taken by their view.
pub open spec fn wire_view(bytes: Option<Vec<u8>>) -> Option<Seq<u8>> {
    match bytes {
        Some(b) => Some(b@),
        None => None,
    }
}

/// The reply that sends `response` and reports success.
pub open spec fn answered(response: ResponseView) -> ReplyView {
    ReplyView { response: Some(response), outcome: Ok(()) }
}

/// `reply` refuses with `status` and `text` and reports the refusal as
/// invalid data, told with the same text.
pub open spec fn refused(reply: ReplyView, status: u16, text: &str) -> bool {
    &&& reply.response == Some(refusal(status, text.spec_bytes()))
    &&& reply.outcome matches Err(IOError::InvalidData(told)) && told@ == text@
}

/// The reply to backward data or to the lack of it: data goes out as it
/// is, "nothing available" as an empty body; any other error ends the
/// request without a response.
pub open spec fn read_reply(out: Result<Seq<u8>, IOError>) -> ReplyView {
    match out {
        Ok(data) => answered(data_response(data)),
        Err(IOError::EmptyData) => answered(data_response(Seq::<u8>::empty())),
        Err(e) => ReplyView { response: None, outcome: Err(e) },
    }
}

/// From `before` to `after` only the session at place `i` moved: it kept
/// its token, its peer and a valid pipeline of the same scratch size, and
/// its last use is `seen`. What became of the pipeline's steps is said
/// beside this.
pub open spec fn session_moved<S: PipelineStep>(
    before: Seq<Session<S>>,
    i: int,
    after: Seq<Session<S>>,
    seen: u64,
) -> bool {
    &&& after.len() == before.len()
    &&& forall|j: int| 0 <= j < before.len() && j != i ==> after[j] == before[j]
    &&& after[i].token == before[i].token
    &&& after[i].peer == before[i].peer
    &&& after[i].last_seen == seen
    &&& after[i].pipeline.wf()
    &&& after[i].pipeline.scratch() == before[i].pipeline.scratch()
}

/// A new session was opened for `token`: any session with that token is
/// gone, the others stay in their order, and at the end stands a session
/// with a started copy of `template`, last used `now`.
pub open spec fn opened<S: PipelineStep>(
    before: Seq<Session<S>>,
    template: Pipeline<S>,
    token: Seq<u8>,
    peer: Seq<u8>,
    now: u64,
    after: Seq<Session<S>>,
) -> bool {
    &&& after.len() == without_token(before, token).len() + 1
    &&& after.drop_last() == without_token(before, token)
    &&& after.last().token@ == token
    &&& after.last().peer@ == peer
    &&& after.last().last_seen == now
    &&& after.last().pipeline.wf()
    &&& after.last().pipeline.scratch() == template.scratch()
    &&& exists|copy: Seq<S>| #[trigger]
        all_cloned(template@, copy) && all_started(copy, after.last().pipeline@)
}

/// A data request was served on the session at place `i`. A body, if
/// there is one, is written into the pipeline; where that fails for
/// another reason than "nothing available", the request ends there with
/// the error. Otherwise the session is marked as used at `now` and the
/// pipeline is read: the answer carries what came out.
pub open spec fn served<S: PipelineStep>(
    before: Seq<Session<S>>,
    i: int,
    body: Seq<u8>,
    now: u64,
    after: Seq<Session<S>>,
    reply: ReplyView,
) -> bool {
    exists|fed: Seq<S>, w: Result<usize, IOError>, out: Result<Seq<u8>, IOError>| #[trigger]
        served_by(before, i, body, now, after, reply, fed, w, out)
}

/// `served`, with the chain after the write, the outcome of the write and
/// the outcome of the read named.
pub open spec fn served_by<S: PipelineStep>(
    before: Seq<Session<S>>,
    i: int,
    body: Seq<u8>,
    now: u64,
    after: Seq<Session<S>>,
    reply: ReplyView,
    fed: Seq<S>,
    w: Result<usize, IOError>,
    out: Result<Seq<u8>, IOError>,
) -> bool {
    &&& if body.len() > 0 {
        written(before[i].pipeline@, body, fed, w)
    } else {
        fed == before[i].pipeline@ && w is Ok
    }
    &&& if w is Err && w->Err_0.fatal() {
        &&& session_moved(before, i, after, before[i].last_seen)
        &&& after[i].pipeline@ == fed
        &&& reply == (ReplyView { response: None, outcome: Err(w->Err_0) })
    } else {
        &&& session_moved(before, i, after, now)
        &&& read_back(fed, after[i].pipeline@, out)
        &&& reply == read_reply(out)
    }
}

/// A size request was served on the session at place `i`: the session is
/// marked as used at `now`, the pipeline is asked for its pending backward
/// size, and the answer carries that size; a failing query ends the
/// request with the error and without a response.
pub open spec fn probed<S: PipelineStep>(
    before: Seq<Session<S>>,
    i: int,
    now: u64,
    after: Seq<Session<S>>,
    reply: ReplyView,
) -> bool {
    exists|size: Result<usize, IOError>| #[trigger] probed_by(before, i, now, after, reply, size)
}

/// `probed`, with what the pipeline answered named.
pub open spec fn probed_by<S: PipelineStep>(
    before: Seq<Session<S>>,
    i: int,
    now: u64,
    after: Seq<Session<S>>,
    reply: ReplyView,
    size: Result<usize, IOError>,
) -> bool {
    &&& sized(before[i].pipeline@, after[i].pipeline@, size)
    &&& session_moved(before, i, after, now)
    &&& reply == size_reply(size)
}

/// The reply to a pending size: the size goes out in the length header; a
/// failed query ends the request with the error and without a response.
pub open spec fn size_reply(size: Result<usize, IOError>) -> ReplyView {
    match size {
        Ok(count) => answered(size_response(count)),
        Err(e) => ReplyView { response: None, outcome: Err(e) },
    }
}

/// What handling one request does to the directory and what it replies.
///
/// A request without the token header opens a session for the client's
/// own token. A request with a token other than the client's own is
/// refused with 403, and so is one for which no session is open. `GET`
/// moves data, `HEAD` reports the pending size, any other method is
/// refused with 400.
pub open spec fn handled<S: PipelineStep>(
    before: Seq<Session<S>>,
    template: Pipeline<S>,
    request: RequestView,
    ip: Seq<u8>,
    peer: Seq<u8>,
    salt: Seq<u8>,
    now: u64,
    after: Seq<Session<S>>,
    reply: ReplyView,
) -> bool {
    let own = token_of(ip, salt);
    match find_header(request.headers, token_header()) {
        None => opened(before, template, own, peer, now, after) && reply == answered(
            handshake_response(own),
        ),
        Some(token) => if token != own {
            after == before && refused(reply, 403, "Invalid Token")
        } else if request.method == method_get() {
            if has_session(before, token) {
                exists|i: int| session_at(before, token, i) && #[trigger] served(
                    before,
                    i,
                    request.body,
                    now,
                    after,
                    reply,
                )
            } else {
                after == before && refused(reply, 403, "Invalid Token")
            }
        } else if request.method == method_head() {
            if has_session(before, token) {
                exists|i: int| session_at(before, token, i) && #[trigger] probed(
                    before,
                    i,
                    now,
                    after,
                    reply,
                )
            } else {
                after == before && refused(reply, 403, "Invalid Token")
            }
        } else {
            after == before && refused(reply, 400, "Unsupported Http Method")
        },
    }
}

fn refuse(status: u16, text: &'static str) -> (r: Reply)
    requires
        100 <= status <= 999,
    ensures
        r.sendable(),
        refused(r@, status, text),
{
    Reply {
        response: Some(make_refusal(status, text)),
        outcome: Err(IOError::InvalidData(String::from_str(text))),
    }
}

impl<S: PipelineStep> SessionDirectory<S> {
    /// The directory is valid: no token twice, every pipeline valid.
    pub open spec fn wf(&self) -> bool {
        sessions_wf(self@)
    }

    /// An empty directory.
    pub fn new() -> (d: Self)
        ensures
            d.wf(),
            d@.len() == 0,
    {
        SessionDirectory { sessions: Vec::new() }
    }

    /// Number of open sessions.
    pub fn len(&self) -> (n: usize)
        ensures
            n == self@.len(),
    {
        self.sessions.len()
    }

    /// The place of the session with `token`, if one is open.
    pub fn find(&self, token: &[u8]) -> (r: Option<usize>)
        ensures
            match r {
                Some(i) => session_at(self@, token@, i as int),
                None => !has_session(self@, token@),
            },
    {
        let n = self.sessions.len();
        let mut i: usize = 0;
        while i < n
            invariant
                i <= n,
                n == self.sessions@.len(),
                forall|j: int| 0 <= j < i ==> !session_at(self@, token@, j),
            decreases n - i,
        {
            if bytes_equal(self.sessions[i].token.as_slice(), token) {
                return Some(i);
            }
            i = i + 1;
        }
        None
    }

    /// Whether a session with `token` is open.
    pub fn contains(&self, token: &[u8]) -> (r: bool)
        ensures
            r == has_session(self@, token@),
    {
        self.find(token).is_some()
    }

    /// When the session with `token` was last used, if one is open.
    pub fn last_seen(&self, token: &[u8]) -> (r: Option<u64>)
        ensures
            match r {
                Some(t) => exists|i: int| #[trigger]
                    session_at(self@, token@, i) && self@[i].last_seen == t,
                None => !has_session(self@, token@),
            },
    {
        match self.find(token) {
            Some(i) => Some(self.sessions[i].last_seen),
            None => None,
        }
    }

    fn remove_token(&mut self, token: &[u8])
        requires
            old(self).wf(),
        ensures
            final(self).wf(),
            final(self)@ == without_token(old(self)@, token@),
            !has_session(final(self)@, token@),
    {
        let ghost keep = |s: Session<S>| s.token@ != token@;
        let ghost all = self.sessions@;
        let mut i: usize = 0;
        let ghost mut k: int = 0;
        assert(all.skip(0) =~= all);
        while i < self.sessions.len()
            invariant
                all == old(self)@,
                sessions_wf(self.sessions@),
                keep == (|s: Session<S>| s.token@ != token@),
                0 <= k <= all.len(),
                i <= self.sessions@.len(),
                i + (all.len() - k) == self.sessions@.len(),
                self.sessions@ == all.take(k).filter(keep) + all.skip(k),
                i == all.take(k).filter(keep).len(),
                forall|j: int| 0 <= j < i ==> (#[trigger] self.sessions@[j]).token@ != token@,
            decreases all.len() - k,
        {
            let ghost now_held = self.sessions@;
            assert(all.take(k + 1).drop_last() =~= all.take(k));
            reveal_with_fuel(Seq::filter, 2);
            if bytes_equal(self.sessions[i].token.as_slice(), token) {
                self.sessions.remove(i);
            } else {
                i = i + 1;
            }
            proof {
                k = k + 1;
            }
        }
    }

    /// Opens a session for `token` with a started copy of `template`,
    /// in place of any session that `token` had.
    pub fn open(&mut self, template: &Pipeline<S>, token: Vec<u8>, peer: Vec<u8>, now: u64)
        requires
            old(self).wf(),
            template.wf(),
        ensures
            final(self).wf(),
            opened(old(self)@, *template, token@, peer@, now, final(self)@),
    {
        self.remove_token(token.as_slice());
        let ghost kept = self.sessions@;
        let mut pipeline = template.clone();
        pipeline.start();
        let session = Session { token, peer, pipeline, last_seen: now };
        self.sessions.push(session);
        assert(self.sessions@.drop_last() =~= kept);
    }

    /// Evicts every session that has been idle for longer than `timeout`
    /// at time `now`; the others stay as they are, in their order.
    pub fn check_expiration(&mut self, now: u64, timeout: u64)
        requires
            old(self).wf(),
        ensures
            final(self).wf(),
            final(self)@ == unexpired(old(self)@, now, timeout),
    {
        let ghost keep = |s: Session<S>| !expired(s, now, timeout);
        let ghost all = self.sessions@;
        let mut i: usize = 0;
        let ghost mut k: int = 0;
        assert(all.skip(0) =~= all);
        while i < self.sessions.len()
            invariant
                all == old(self)@,
                sessions_wf(self.sessions@),
                keep == (|s: Session<S>| !expired(s, now, timeout)),
                0 <= k <= all.len(),
                i <= self.sessions@.len(),
                i + (all.len() - k) == self.sessions@.len(),
                self.sessions@ == all.take(k).filter(keep) + all.skip(k),
                i == all.take(k).filter(keep).len(),
            decreases all.len() - k,
        {
            assert(all.take(k + 1).drop_last() =~= all.take(k));
            reveal_with_fuel(Seq::filter, 2);
            let seen = self.sessions[i].last_seen;
            if now > seen && now - seen > timeout {
                self.sessions.remove(i);
            } else {
                i = i + 1;
            }
            proof {
                k = k + 1;
            }
        }
    }

    fn serve(&mut self, i: usize, body: Vec<u8>, now: u64) -> (reply: Reply)
        requires
            old(self).wf(),
            i < old(self)@.len(),
        ensures
            final(self).wf(),
            reply.sendable(),
            served(old(self)@, i as int, body@, now, final(self)@, reply@),
    {
        let ghost before = self.sessions@;
        let ghost payload = body@;
        let ghost mut w: Result<usize, IOError> = Ok(0);
        if body.len() > 0 {
            let wrote = self.sessions[i].pipeline.write(body);
            proof {
                w = wrote;
            }
            match wrote {
                Err(e) => {
                    if e.is_fatal() {
                        let reply = Reply { response: None, outcome: Err(e) };
                        assert(served_by(
                            before,
                            i as int,
                            payload,
                            now,
                            self.sessions@,
                            reply@,
                            self.sessions@[i as int].pipeline@,
                            w,
                            Ok::<Seq<u8>, IOError>(Seq::<u8>::empty()),
                        ));
                        return reply;
                    }
                },
                Ok(_) => {},
            }
        }
        let ghost fed = self.sessions@[i as int].pipeline@;
        self.sessions[i].last_seen = now;
        let out = self.sessions[i].pipeline.read();
        let ghost shown = drained_view(out);
        let reply = match out {
            Ok(data) => Reply { response: Some(make_data_response(data)), outcome: Ok(()) },
            Err(IOError::EmptyData) => Reply {
                response: Some(make_data_response(Vec::new())),
                outcome: Ok(()),
            },
            Err(e) => Reply { response: None, outcome: Err(e) },
        };
        assert(served_by(before, i as int, payload, now, self.sessions@, reply@, fed, w, shown));
        reply
    }

    fn probe(&mut self, i: usize, now: u64) -> (reply: Reply)
        requires
            old(self).wf(),
            i < old(self)@.len(),
        ensures
            final(self).wf(),
            reply.sendable(),
            probed(old(self)@, i as int, now, final(self)@, reply@),
    {
        self.sessions[i].last_seen = now;
        let size = self.sessions[i].pipeline.len();
        let reply = match size {
            Ok(count) => Reply { response: Some(make_size_response(count)), outcome: Ok(()) },
            Err(e) => Reply { response: None, outcome: Err(e) },
        };
        assert(probed_by(old(self)@, i as int, now, self.sessions@, reply@, size));
        reply
    }

    /// Handles the bytes of one request: reads the request, handles it,
    /// and hands back the bytes of the response. Bytes that hold no
    /// request are a parse error, change nothing and get no response.
    pub fn serve_bytes(
        &mut self,
        template: &Pipeline<S>,
        bytes: &[u8],
        ip: &[u8],
        peer: &[u8],
        salt: &[u8],
        now: u64,
    ) -> (r: (Option<Vec<u8>>, Result<(), IOError>))
        requires
            old(self).wf(),
            template.wf(),
        ensures
            final(self).wf(),
            match request_of(bytes@) {
                Some(request) => exists|reply: ReplyView| #[trigger]
                    handled(
                        old(self)@,
                        *template,
                        request,
                        ip@,
                        peer@,
                        salt@,
                        now,
                        final(self)@,
                        reply,
                    ) && r.1 == reply.outcome && wire_view(r.0) == wire_of(reply.response),
                None => final(self)@ == old(self)@ && r.0 is None && r.1 == Err::<(), IOError>(
                    IOError::ParseError,
                ),
            },
    {
        match read_request(bytes) {
            Err(_) => (None, Err(IOError::ParseError)),
            Ok(request) => {
                let reply = self.handle_request(template, &request, ip, peer, salt, now);
                let wire = match &reply.response {
                    Some(response) => Some(write_response(response)),
                    None => None,
                };
                (wire, reply.outcome)
            },
        }
    }

    /// Handles one request of the client at `ip`, whose full address text
    /// is `peer`, at time `now`.
    pub fn handle_request(
        &mut self,
        template: &Pipeline<S>,
        request: &HttpRequest,
        ip: &[u8],
        peer: &[u8],
        salt: &[u8],
        now: u64,
    ) -> (reply: Reply)
        requires
            old(self).wf(),
            template.wf(),
        ensures
            final(self).wf(),
            reply.sendable(),
            handled(
                old(self)@,
                *template,
                request@,
                ip@,
                peer@,
                salt@,
                now,
                final(self)@,
                reply@,
            ),
    {
        match header_value(&request.headers, "client_token".as_bytes()) {
            None => {
                let token = generate_token(ip, salt);
                let response = make_handshake_response(token.as_slice());
                self.open(template, token, slice_to_vec(peer), now);
                let reply = Reply { response: Some(response), outcome: Ok(()) };
                reply
            },
            Some(token) => {
                if !validate_token(ip, salt, token.as_slice()) {
                    return refuse(403, "Invalid Token");
                }
                if bytes_equal(request.method.as_slice(), "GET".as_bytes()) {
                    match self.find(token.as_slice()) {
                        None => refuse(403, "Invalid Token"),
                        Some(i) => {
                            let reply = self.serve(i, slice_to_vec(request.body.as_slice()), now);
                            assert(session_at(old(self)@, token@, i as int) && served(
                                old(self)@,
                                i as int,
                                request@.body,
                                now,
                                self@,
                                reply@,
                            ));
                            reply
                        },
                    }
                } else if bytes_equal(request.method.as_slice(), "HEAD".as_bytes()) {
                    match self.find(token.as_slice()) {
                        None => refuse(403, "Invalid Token"),
                        Some(i) => {
                            let reply = self.probe(i, now);
                            reply
                        },
                    }
                } else {
                    refuse(400, "Unsupported Http Method")
                }
            },
        }
    }
}

/// Every element that a filter kept stood in what was filtered and meets
/// the condition.
proof fn lemma_kept_from<A>(s: Seq<A>, pred: spec_fn(A) -> bool, i: int) -> (j: int)
    requires
        0 <= i < s.filter(pred).len(),
    ensures
        0 <= j < s.len(),
        s[j] == s.filter(pred)[i],
        pred(s[j]),
    decreases s.len(),
{
    reveal(Seq::filter);
    let sub = s.drop_last().filter(pred);
    if pred(s.last()) && i == sub.len() {
        s.len() - 1
    } else {
        lemma_kept_from(s.drop_last(), pred, i)
    }
}

/// Tokens do not collide where digests do not: two clients whose address
/// and salt have different SHA-256 digests have different tokens.
pub proof fn lemma_tokens_differ(ip: Seq<u8>, salt: Seq<u8>, ip2: Seq<u8>, salt2: Seq<u8>)
    requires
        sha256(ip + salt) != sha256(ip2 + salt2),
    ensures
        token_of(ip, salt) != token_of(ip2, salt2),
{
    if token_of(ip, salt) == token_of(ip2, salt2) {
        lemma_padded_one_to_one(sha256(ip + salt), sha256(ip2 + salt2));
    }
}

/// Token determinism: the token is a function of the address and the salt.
pub proof fn lemma_token_deterministic(ip: Seq<u8>, salt: Seq<u8>, ip2: Seq<u8>, salt2: Seq<u8>)
    requires
        ip == ip2,
        salt == salt2,
    ensures
        token_of(ip, salt) == token_of(ip2, salt2),
{
}

/// Expiration: after a sweep, a session that had been idle for longer
/// than the timeout is gone, token and all, and any other session is
/// still in the directory as it was.
pub proof fn lemma_sweep<S: PipelineStep>(
    sessions: Seq<Session<S>>,
    now: u64,
    timeout: u64,
    i: int,
)
    requires
        sessions_wf(sessions),
        0 <= i < sessions.len(),
    ensures
        expired(sessions[i], now, timeout) ==> !has_session(
            unexpired(sessions, now, timeout),
            sessions[i].token@,
        ),
        !expired(sessions[i], now, timeout) ==> unexpired(sessions, now, timeout).contains(
            sessions[i],
        ),
{
    let keep = |s: Session<S>| !expired(s, now, timeout);
    let left = sessions.filter(keep);
    if expired(sessions[i], now, timeout) {
        assert forall|k: int| !session_at(left, sessions[i].token@, k) by {
            if session_at(left, sessions[i].token@, k) {
                let j = lemma_kept_from(sessions, keep, k);
                if j < i {
                    assert(sessions[j].token@ != sessions[i].token@);
                } else if i < j {
                    assert(sessions[i].token@ != sessions[j].token@);
                }
            }
        }
    } else {
        sessions.lemma_filter_contains(keep, i);
    }
}

/// A session that was used at `seen` survives a sweep at `now` if no more
/// than `timeout` has passed since, and it still says `seen`.
pub proof fn lemma_touched_survives<S: PipelineStep>(
    before: Seq<Session<S>>,
    i: int,
    touched: Seq<Session<S>>,
    seen: u64,
    now: u64,
    timeout: u64,
)
    requires
        0 <= i < before.len(),
        session_moved(before, i, touched, seen),
        sessions_wf(touched),
        now <= seen || now - seen <= timeout,
    ensures
        exists|k: int| #[trigger]
            session_at(unexpired(touched, now, timeout), before[i].token@, k) && unexpired(
                touched,
                now,
                timeout,
            )[k].last_seen == seen,
{
    lemma_sweep(touched, now, timeout, i);
    let left = unexpired(touched, now, timeout);
    let k = choose|k: int| 0 <= k < left.len() && left[k] == touched[i];
    assert(session_at(left, before[i].token@, k));
}

/// Asking is idempotent: on steady steps, a size request served right
/// after another one on the same session gets the same answer, so the
/// first one left the pending size as it was.
pub proof fn lemma_head_twice<S: PipelineStep>(
    start: Seq<Session<S>>,
    i: int,
    now: u64,
    once: Seq<Session<S>>,
    first: ReplyView,
    later: u64,
    twice: Seq<Session<S>>,
    second: ReplyView,
)
    requires
        steady::<S>(),
        0 <= i < start.len(),
        probed(start, i, now, once, first),
        probed(once, i, later, twice, second),
    ensures
        second == first,
{
    let a = choose|size: Result<usize, IOError>| #[trigger]
        probed_by(start, i, now, once, first, size);
    let b = choose|size: Result<usize, IOError>| #[trigger]
        probed_by(once, i, later, twice, second, size);
    lemma_len_twice(start[i].pipeline@, once[i].pipeline@, a, twice[i].pipeline@, b);
}

/// After a session was opened for a token, the directory holds a session
/// with that token, last used at the time of opening.
pub proof fn lemma_opened_is_found<S: PipelineStep>(
    before: Seq<Session<S>>,
    template: Pipeline<S>,
    token: Seq<u8>,
    peer: Seq<u8>,
    now: u64,
    after: Seq<Session<S>>,
)
    requires
        opened(before, template, token, peer, now, after),
    ensures
        has_session(after, token),
        forall|i: int| session_at(after, token, i) ==> after[i].last_seen == now,
{
    let last = after.len() - 1;
    assert(session_at(after, token, last));
    assert forall|i: int| session_at(after, token, i) implies after[i].last_seen == now by {
        if i < last {
            assert(after.drop_last()[i] == after[i]);
            let keep = |s: Session<S>| s.token@ != token;
            let j = lemma_kept_from(before, keep, i);
        }
    }
}

} // verus!
