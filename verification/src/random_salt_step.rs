use crate::error::IOError;
use crate::pipeline_module::{
    drained, gives_back, reversible, steady, wrote, yields, BoxedClone, BufferView,
    PipelineDirection, PipelineStep, Read,
};
use crate::text::{parse_unsigned, unsigned_of};
use rand::Rng;
use vstd::prelude::*;
use vstd::string::StringSliceAdditionalSpecFns;

verus! {

/// `text` holds exactly one `-`, at place `k`.
pub open spec fn dash_at(text: Seq<u8>, k: int) -> bool {
    &&& 0 <= k < text.len()
    &&& text[k] == 0x2Du8
    &&& forall|j: int| 0 <= j < text.len() && j != k ==> text[j] != 0x2Du8
}

/// The direction that the bytes of `fw` or `bw` name.
pub open spec fn mode_of_bytes(text: Seq<u8>) -> Option<PipelineDirection> {
    if text == seq![0x66u8, 0x77u8] {
        Some(PipelineDirection::Forward)
    } else if text == seq![0x62u8, 0x77u8] {
        Some(PipelineDirection::Backward)
    } else {
        None
    }
}

/// What a salt step configuration says: `fw-<length>` or `bw-<length>`,
/// that is a direction, one `-`, and an unsigned decimal length. `None`
/// for anything else.
pub open spec fn salt_config(text: Seq<u8>) -> Option<(PipelineDirection, usize)> {
    if exists|k: int| dash_at(text, k) {
        let k = choose|k: int| dash_at(text, k);
        match (mode_of_bytes(text.take(k)), unsigned_of(text.skip(k + 1))) {
            (Some(mode), Some(length)) => Some((mode, length)),
            _ => None,
        }
    } else {
        None
    }
}

fn parse_mode_bytes(text: &[u8]) -> (r: Option<PipelineDirection>)
    ensures
        r == mode_of_bytes(text@),
{
    if text.len() == 2 && text[1] == 0x77u8 {
        if text[0] == 0x66u8 {
            assert(text@ =~= seq![0x66u8, 0x77u8]);
            return Some(PipelineDirection::Forward);
        }
        if text[0] == 0x62u8 {
            assert(text@ =~= seq![0x62u8, 0x77u8]);
            return Some(PipelineDirection::Backward);
        }
    }
    None
}

/// Reads a salt step configuration from its bytes.
pub fn parse_salt_config(text: &[u8]) -> (r: Option<(PipelineDirection, usize)>)
    ensures
        r == salt_config(text@),
{
    let n = text.len();
    let mut k: usize = 0;
    while k < n && text[k] != 0x2Du8
        invariant
            k <= n,
            n == text@.len(),
            forall|j: int| 0 <= j < k ==> text@[j] != 0x2Du8,
        decreases n - k,
    {
        k = k + 1;
    }
    if k == n {
        return None;
    }
    let mut j: usize = k + 1;
    while j < n
        invariant
            k < j <= n,
            n == text@.len(),
            text@[k as int] == 0x2Du8,
            forall|m: int| 0 <= m < k ==> text@[m] != 0x2Du8,
            forall|m: int| k < m < j ==> text@[m] != 0x2Du8,
        decreases n - j,
    {
        if text[j] == 0x2Du8 {
            return None;
        }
        j = j + 1;
    }
    assert(dash_at(text@, k as int));
    let mode = parse_mode_bytes(&text[0..k]);
    let length = parse_unsigned(&text[k + 1..n]);
    match (mode, length) {
        (Some(m), Some(l)) => Some((m, l)),
        _ => None,
    }
}

/// `rand::Rng::fill` on the thread-local generator of the `rand` crate,
/// applied to a fresh buffer of `count` bytes. Trusted: the buffer that
/// comes back has `count` bytes; nothing is claimed of their values.
#[verifier::external_body]
fn random_bytes(count: usize) -> (bytes: Vec<u8>)
    ensures
        bytes@.len() == count,
{
    let mut bytes = vec![0u8; count];
    rand::thread_rng().fill(bytes.as_mut_slice());
    bytes
}

/// A salt step: in its own direction it puts a random prefix of fixed
/// length before every payload, in the other it takes that many bytes off.
pub struct RSult {
    salt_length: usize,
    forward_buffer: Vec<u8>,
    backward_buffer: Vec<u8>,
    work_mode: PipelineDirection,
    pipeline_direction: PipelineDirection,
}

impl View for RSult {
    type V = BufferView;

    closed spec fn view(&self) -> BufferView {
        BufferView {
            mode: self.work_mode,
            direction: self.pipeline_direction,
            forward: self.forward_buffer@,
            backward: self.backward_buffer@,
        }
    }
}

/// `grown` is `before` followed by `count` bytes of any value and then by
/// `payload`.
pub open spec fn salted(before: Seq<u8>, count: nat, payload: Seq<u8>, grown: Seq<u8>) -> bool {
    &&& grown.len() == before.len() + count + payload.len()
    &&& grown.take(before.len() as int) == before
    &&& grown.skip((before.len() + count) as int) == payload
}

impl RSult {
    /// The length of the prefix this step adds and removes.
    pub closed spec fn salt(&self) -> usize {
        self.salt_length
    }

    /// A step with empty buffers and the forward direction set, that
    /// salts in direction `mode` with a prefix of `salt_length` bytes.
    pub fn with_mode(mode: PipelineDirection, salt_length: usize) -> (step: RSult)
        ensures
            step@ == (BufferView {
                mode,
                direction: PipelineDirection::Forward,
                forward: Seq::<u8>::empty(),
                backward: Seq::<u8>::empty(),
            }),
            step.salt() == salt_length,
    {
        RSult {
            salt_length,
            forward_buffer: Vec::new(),
            backward_buffer: Vec::new(),
            work_mode: mode,
            pipeline_direction: PipelineDirection::Forward,
        }
    }

    /// A step with empty buffers, the forward direction set, and the
    /// direction and prefix length that `config` names.
    pub fn new(config: Option<&str>) -> (step: RSult)
        requires
            config is Some,
            salt_config(config.unwrap().spec_bytes()) is Some,
        ensures
            step@ == (BufferView {
                mode: salt_config(config.unwrap().spec_bytes()).unwrap().0,
                direction: PipelineDirection::Forward,
                forward: Seq::<u8>::empty(),
                backward: Seq::<u8>::empty(),
            }),
            step.salt() == salt_config(config.unwrap().spec_bytes()).unwrap().1,
    {
        let parsed = match config {
            Some(text) => parse_salt_config(text.as_bytes()),
            None => None,
        };
        let (work_mode, salt_length) = match parsed {
            Some(pair) => pair,
            None => (PipelineDirection::Forward, 0),
        };
        Self::with_mode(work_mode, salt_length)
    }

    /// The prefix length of this step.
    pub fn salt_length(&self) -> (n: usize)
        ensures
            n == self.salt(),
    {
        self.salt_length
    }

    /// This step with `direction` set and nothing else changed.
    pub closed spec fn turned(self, direction: PipelineDirection) -> Self {
        RSult { pipeline_direction: direction, ..self }
    }

    fn append_active(&mut self, bytes: &mut Vec<u8>)
        ensures
            final(self)@ == old(self)@.appended(old(bytes)@),
            final(self).salt() == old(self).salt(),
    {
        match self.pipeline_direction {
            PipelineDirection::Forward => self.forward_buffer.append(bytes),
            PipelineDirection::Backward => self.backward_buffer.append(bytes),
        }
    }
}

impl Read for RSult {
    open spec fn read_spec(&self, after: Self, out: Result<Seq<u8>, IOError>) -> bool {
        &&& out == Ok::<Seq<u8>, IOError>(self@.active())
        &&& after@ == self@.emptied()
        &&& after.salt() == self.salt()
    }

    fn read(&mut self) -> (r: Result<Vec<u8>, IOError>) {
        let mut out: Vec<u8> = Vec::new();
        match self.pipeline_direction {
            PipelineDirection::Forward => out.append(&mut self.forward_buffer),
            PipelineDirection::Backward => out.append(&mut self.backward_buffer),
        }
        Ok(out)
    }
}

impl BoxedClone for RSult {
    open spec fn clone_spec(&self, fresh: Self) -> bool {
        &&& fresh@ == (BufferView {
            mode: self@.mode,
            direction: PipelineDirection::Forward,
            forward: Seq::<u8>::empty(),
            backward: Seq::<u8>::empty(),
        })
        &&& fresh.salt() == self.salt()
    }

    fn bclone(&self) -> (r: Self) {
        Self::with_mode(self.work_mode, self.salt_length)
    }
}

impl PipelineStep for RSult {
    open spec fn start_spec(&self, after: Self) -> bool {
        after == *self
    }

    open spec fn len_spec(&self, after: Self, out: Result<usize, IOError>) -> bool {
        &&& after == *self
        &&& out == Ok::<usize, IOError>(self@.active().len() as usize)
    }

    open spec fn redirect_spec(&self, direction: PipelineDirection, after: Self) -> bool {
        &&& after == self.turned(direction)
        &&& after@ == (BufferView { direction, ..self@ })
        &&& after.salt() == self.salt()
    }

    open spec fn write_spec(&self, data: Seq<u8>, after: Self, out: Result<usize, IOError>) -> bool {
        &&& after.salt() == self.salt()
        &&& if self@.native() {
            &&& after@ == self@.with_pending(self@.direction, after@.active())
            &&& salted(self@.active(), self.salt() as nat, data, after@.active())
            &&& out == Ok::<usize, IOError>(after@.active().len() as usize)
        } else if data.len() >= self.salt() {
            &&& after@ == self@.appended(data.skip(self.salt() as int))
            &&& out == Ok::<usize, IOError>((data.len() - self.salt()) as usize)
        } else {
            &&& after@ == self@
            &&& out == Err::<usize, IOError>(IOError::ParseError)
        }
    }

    fn start(&mut self) {
    }

    fn len(&mut self) -> (r: Result<usize, IOError>) {
        match self.pipeline_direction {
            PipelineDirection::Forward => Ok(self.forward_buffer.len()),
            PipelineDirection::Backward => Ok(self.backward_buffer.len()),
        }
    }

    fn set_pipeline_direction(&mut self, direction: PipelineDirection) {
        self.pipeline_direction = direction;
    }

    fn write(&mut self, buf: &[u8]) -> (r: Result<usize, IOError>) {
        if self.work_mode == self.pipeline_direction {
            let mut prefix = random_bytes(self.salt_length);
            let ghost salt = prefix@;
            let mut payload: Vec<u8> = Vec::new();
            payload.extend_from_slice(buf);
            self.append_active(&mut prefix);
            self.append_active(&mut payload);
            let total = match self.pipeline_direction {
                PipelineDirection::Forward => self.forward_buffer.len(),
                PipelineDirection::Backward => self.backward_buffer.len(),
            };
            proof {
                let before = old(self)@.active();
                let grown = self@.active();
                assert(grown.take(before.len() as int) =~= before);
                assert(grown.skip(before.len() + self.salt()) =~= buf@);
            }
            Ok(total)
        } else if buf.len() >= self.salt_length {
            let mut payload: Vec<u8> = Vec::new();
            payload.extend_from_slice(&buf[self.salt_length..buf.len()]);
            assert(payload@ =~= buf@.skip(self.salt() as int));
            let count = payload.len();
            self.append_active(&mut payload);
            Ok(count)
        } else {
            Err(IOError::ParseError)
        }
    }
}

/// A salt step at rest that salts forward, with the forward direction
/// set, undoes backward what it did forward: taking the prefix off a
/// salted payload gives the payload, whatever the prefix was.
pub proof fn lemma_salt_reversible(step: RSult)
    requires
        step@.mode == PipelineDirection::Forward,
        step@.direction == PipelineDirection::Forward,
        step@.forward.len() == 0,
        step@.backward.len() == 0,
    ensures
        reversible(step),
{
    assert forall|x: Seq<u8>, m: RSult, w: Result<usize, IOError>, a: RSult, out: Seq<u8>, c: RSult|
        #![trigger wrote(step, x, m, w), drained(m, a, Ok::<Seq<u8>, IOError>(out)), a.redirect_spec(PipelineDirection::Backward, c)]
        wrote(step, x, m, w) && w is Ok && drained(m, a, Ok::<Seq<u8>, IOError>(out))
            && a.redirect_spec(PipelineDirection::Backward, c) implies gives_back(c, out, x) by {
        assert(out == m@.active());
        assert(out.len() == step.salt() + x.len());
        assert(out.skip(step.salt() as int) == x);
        assert(c@.active() =~= Seq::<u8>::empty());
        if out.len() == 0 {
            assert(x =~= Seq::<u8>::empty());
            assert forall|post: RSult, r: Result<Seq<u8>, IOError>| #[trigger]
                drained(c, post, r) implies r == Ok::<Seq<u8>, IOError>(x) by {}
        } else {
            assert forall|n: RSult, v: Result<usize, IOError>| #[trigger]
                wrote(c, out, n, v) implies v is Ok && yields(n, x) by {
                assert(n@.active() =~= x);
            }
        }
    }
}

/// Salting what was unsalted gives back a text of the same length with
/// the same payload; only the prefix is drawn anew.
pub proof fn lemma_resalted(text: Seq<u8>, count: nat, grown: Seq<u8>)
    requires
        text.len() >= count,
        salted(Seq::<u8>::empty(), count, text.skip(count as int), grown),
    ensures
        grown.len() == text.len(),
        grown.skip(count as int) == text.skip(count as int),
{
}

/// Asking a salt step for its pending size neither changes it nor has two
/// answers, and setting it backward twice is setting it backward once.
pub proof fn lemma_salt_steady()
    ensures
        steady::<RSult>(),
{
}

/// Forward and backward state never mix: a write and a drain leave what
/// is pending for the direction that is not set as it was.
pub proof fn lemma_salt_directions_apart(
    step: RSult,
    data: Seq<u8>,
    written: RSult,
    count: Result<usize, IOError>,
    drained_step: RSult,
    out: Result<Seq<u8>, IOError>,
    other: PipelineDirection,
)
    requires
        other != step@.direction,
    ensures
        wrote(step, data, written, count) ==> written@.pending(other) == step@.pending(other)
            && written@.direction == step@.direction && written@.mode == step@.mode,
        drained(step, drained_step, out) ==> drained_step@.pending(other) == step@.pending(other)
            && drained_step@.direction == step@.direction && drained_step@.mode == step@.mode,
{
}

} // verus!
