use crate::error::IOError;
use crate::pipeline_module::{
    drained, gives_back, reversible, steady, wrote, yields, BoxedClone, BufferView,
    PipelineDirection, PipelineStep, Read,
};
use base64::engine::general_purpose::STANDARD_NO_PAD;
use base64::{DecodeError, Engine};
use vstd::prelude::*;

verus! {

/// The symbol that stands for a value of six bits in the standard base64
/// alphabet: `A` to `Z`, `a` to `z`, `0` to `9`, `+`, `/`.
pub open spec fn symbol(v: int) -> u8 {
    if v < 26 {
        (0x41 + v) as u8
    } else if v < 52 {
        (0x61 + (v - 26)) as u8
    } else if v < 62 {
        (0x30 + (v - 52)) as u8
    } else if v == 62 {
        0x2Bu8
    } else {
        0x2Fu8
    }
}

/// The base64 text of `data` in the standard alphabet, without padding:
/// every three bytes give four symbols, a rest of one byte gives two and
/// a rest of two bytes gives three.
pub open spec fn base64_text(data: Seq<u8>) -> Seq<u8>
    decreases data.len(),
{
    if data.len() == 0 {
        Seq::<u8>::empty()
    } else if data.len() == 1 {
        seq![symbol(data[0] as int / 4), symbol((data[0] as int % 4) * 16)]
    } else if data.len() == 2 {
        seq![
            symbol(data[0] as int / 4),
            symbol((data[0] as int % 4) * 16 + data[1] as int / 16),
            symbol((data[1] as int % 16) * 4),
        ]
    } else {
        seq![
            symbol(data[0] as int / 4),
            symbol((data[0] as int % 4) * 16 + data[1] as int / 16),
            symbol((data[1] as int % 16) * 4 + data[2] as int / 64),
            symbol(data[2] as int % 64),
        ] + base64_text(data.skip(3))
    }
}

/// The bytes that `text` is the base64 text of, or `None` where it is the
/// base64 text of nothing.
pub open spec fn base64_data(text: Seq<u8>) -> Option<Seq<u8>> {
    if exists|data: Seq<u8>| #[trigger] base64_text(data) == text {
        Some(choose|data: Seq<u8>| #[trigger] base64_text(data) == text)
    } else {
        None
    }
}

/// The error of the `base64` crate's decoder, carried through and never
/// looked into.
#[verifier::external_type_specification]
#[verifier::external_body]
pub struct ExDecodeError(DecodeError);

/// Length of the unpadded base64 text of `count` bytes: four symbols for
/// every three bytes, two or three for a rest of one or two.
pub open spec fn encoded_len(count: nat) -> nat {
    4 * (count / 3) + (if count % 3 == 0 {
        0nat
    } else if count % 3 == 1 {
        2nat
    } else {
        3nat
    })
}

/// `Engine::encode` of the `base64` crate, on its engine for the standard
/// alphabet without padding. Trusted: the result is the base64 text of
/// the input.
#[verifier::external_body]
fn encode_standard(data: &[u8]) -> (text: Vec<u8>)
    ensures
        text@ == base64_text(data@),
{
    STANDARD_NO_PAD.encode(data).into_bytes()
}

/// `Engine::decode` of the `base64` crate, on the same engine. Trusted:
/// what it gives has the input as its base64 text; and, as the engine
/// refuses padding and stray trailing bits, it fails only on an input
/// that is the base64 text of nothing.
#[verifier::external_body]
fn decode_standard(text: &[u8]) -> (r: Result<Vec<u8>, DecodeError>)
    ensures
        match r {
            Ok(data) => base64_text(data@) == text@,
            Err(_) => base64_data(text@) is None,
        },
{
    STANDARD_NO_PAD.decode(text)
}

/// Different values have different symbols.
proof fn lemma_symbol_one_to_one(v: int, w: int)
    requires
        0 <= v < 64,
        0 <= w < 64,
        symbol(v) == symbol(w),
    ensures
        v == w,
{
}

/// The base64 text of `count` bytes has the length that unpadded base64
/// has.
pub proof fn lemma_base64_len(data: Seq<u8>)
    ensures
        base64_text(data).len() == encoded_len(data.len()),
    decreases data.len(),
{
    if data.len() >= 3 {
        lemma_base64_len(data.skip(3));
    }
}

/// Base64 is one-to-one: two byte strings with the same text are the same
/// byte string.
pub proof fn lemma_base64_one_to_one(a: Seq<u8>, b: Seq<u8>)
    requires
        base64_text(a) == base64_text(b),
    ensures
        a == b,
    decreases a.len(),
{
    lemma_base64_len(a);
    lemma_base64_len(b);
    assert(a.len() == b.len());
    let s = base64_text(a);
    let t = base64_text(b);
    if a.len() == 0 {
        assert(a =~= b);
    } else if a.len() == 1 {
        assert(s[0] == t[0] && s[1] == t[1]);
        lemma_symbol_one_to_one(a[0] as int / 4, b[0] as int / 4);
        lemma_symbol_one_to_one((a[0] as int % 4) * 16, (b[0] as int % 4) * 16);
        assert(a =~= b);
    } else if a.len() == 2 {
        assert(s[0] == t[0] && s[1] == t[1] && s[2] == t[2]);
        lemma_symbol_one_to_one(a[0] as int / 4, b[0] as int / 4);
        lemma_symbol_one_to_one(
            (a[0] as int % 4) * 16 + a[1] as int / 16,
            (b[0] as int % 4) * 16 + b[1] as int / 16,
        );
        lemma_symbol_one_to_one((a[1] as int % 16) * 4, (b[1] as int % 16) * 4);
        assert(a =~= b);
    } else {
        let ra = base64_text(a.skip(3));
        let rb = base64_text(b.skip(3));
        assert(s[0] == t[0] && s[1] == t[1] && s[2] == t[2] && s[3] == t[3]);
        lemma_symbol_one_to_one(a[0] as int / 4, b[0] as int / 4);
        lemma_symbol_one_to_one(
            (a[0] as int % 4) * 16 + a[1] as int / 16,
            (b[0] as int % 4) * 16 + b[1] as int / 16,
        );
        lemma_symbol_one_to_one(
            (a[1] as int % 16) * 4 + a[2] as int / 64,
            (b[1] as int % 16) * 4 + b[2] as int / 64,
        );
        lemma_symbol_one_to_one(a[2] as int % 64, b[2] as int % 64);
        assert(ra =~= s.skip(4));
        assert(rb =~= t.skip(4));
        lemma_base64_one_to_one(a.skip(3), b.skip(3));
        assert forall|i: int| 0 <= i < a.len() implies a[i] == b[i] by {
            if i >= 3 {
                assert(a.skip(3)[i - 3] == a[i]);
                assert(b.skip(3)[i - 3] == b[i]);
            }
        }
        assert(a =~= b);
    }
}

/// Decoding undoes encoding.
pub proof fn lemma_base64_data_of_text(data: Seq<u8>)
    ensures
        base64_data(base64_text(data)) == Some(data),
{
    let text = base64_text(data);
    let found = choose|d: Seq<u8>| #[trigger] base64_text(d) == text;
    lemma_base64_one_to_one(found, data);
}

/// Encoding undoes decoding: a text that decodes is the base64 text of
/// what it decodes to.
pub proof fn lemma_base64_text_of_data(text: Seq<u8>)
    requires
        base64_data(text) is Some,
    ensures
        base64_text(base64_data(text).unwrap()) == text,
{
}

/// No symbol of a base64 text is the padding sign.
pub proof fn lemma_base64_symbols(data: Seq<u8>, i: int)
    requires
        0 <= i < base64_text(data).len(),
    ensures
        base64_text(data)[i] != 0x3Du8,
    decreases data.len(),
{
    if data.len() >= 3 && i >= 4 {
        lemma_base64_symbols(data.skip(3), i - 4);
        assert(base64_text(data)[i] == base64_text(data.skip(3))[i - 4]);
    }
}

/// The padding that fills a base64 text of `len` symbols up to a whole
/// group of four: two signs after a rest of two, one after a rest of
/// three.
pub open spec fn padding(len: nat) -> Seq<u8> {
    if len % 4 == 2 {
        seq![0x3Du8, 0x3Du8]
    } else if len % 4 == 3 {
        seq![0x3Du8]
    } else {
        Seq::<u8>::empty()
    }
}

/// The base64 text of `data` in the standard alphabet, with padding.
pub open spec fn padded_base64(data: Seq<u8>) -> Seq<u8> {
    base64_text(data) + padding(base64_text(data).len())
}

/// The padded text of `count` bytes has four symbols for every three
/// bytes begun.
pub proof fn lemma_padded_len(data: Seq<u8>)
    ensures
        padded_base64(data).len() == 4 * ((data.len() + 2) / 3),
{
    lemma_base64_len(data);
}

/// Padded base64 is one-to-one as well.
pub proof fn lemma_padded_one_to_one(a: Seq<u8>, b: Seq<u8>)
    requires
        padded_base64(a) == padded_base64(b),
    ensures
        a == b,
{
    let s = base64_text(a);
    let t = base64_text(b);
    let whole = padded_base64(a);
    lemma_base64_len(a);
    lemma_base64_len(b);
    if s.len() < t.len() {
        lemma_base64_symbols(b, s.len() as int);
        assert(whole[s.len() as int] == padding(s.len())[0]);
        assert(padded_base64(b)[s.len() as int] == t[s.len() as int]);
    } else if t.len() < s.len() {
        lemma_base64_symbols(a, t.len() as int);
        assert(padded_base64(b)[t.len() as int] == padding(t.len())[0]);
        assert(whole[t.len() as int] == s[t.len() as int]);
    } else {
        assert(s =~= whole.take(s.len() as int));
        assert(t =~= padded_base64(b).take(t.len() as int));
        lemma_base64_one_to_one(a, b);
    }
}

/// What a write of `data` appends to the active buffer of a base64 step
/// seen as `view`: the encoding of `data` in the step's own direction, the
/// decoding in the other; `None` where `data` does not decode.
pub open spec fn base64_output(view: BufferView, data: Seq<u8>) -> Option<Seq<u8>> {
    if view.native() {
        Some(base64_text(data))
    } else {
        base64_data(data)
    }
}

/// A base64 codec step: encodes in its own direction, decodes in the
/// other.
pub struct Base64 {
    forward_buffer: Vec<u8>,
    backward_buffer: Vec<u8>,
    work_mode: PipelineDirection,
    pipeline_direction: PipelineDirection,
}

impl View for Base64 {
    type V = BufferView;

    closed spec fn view(&self) -> BufferView {
        BufferView {
            mode: self.work_mode,
            direction: self.pipeline_direction,
            forward: self.forward_buffer@,
            backward: self.backward_buffer@,
        }
    }
}

impl Base64 {
    /// The direction named by a step configuration: `"fw"` or `"bw"`.
    pub open spec fn mode_of(config: Seq<char>) -> Option<PipelineDirection> {
        if config == "fw"@ {
            Some(PipelineDirection::Forward)
        } else if config == "bw"@ {
            Some(PipelineDirection::Backward)
        } else {
            None
        }
    }

    /// Reads a step configuration; `None` where it names no direction.
    pub fn parse_mode(config: &str) -> (r: Option<PipelineDirection>)
        ensures
            r == Self::mode_of(config@),
    {
        let text = config.to_owned();
        if text == "fw".to_owned() {
            Some(PipelineDirection::Forward)
        } else if text == "bw".to_owned() {
            Some(PipelineDirection::Backward)
        } else {
            None
        }
    }

    /// A step with empty buffers and the forward direction set, that
    /// encodes in direction `mode`.
    pub fn with_mode(mode: PipelineDirection) -> (step: Base64)
        ensures
            step@ == (BufferView {
                mode,
                direction: PipelineDirection::Forward,
                forward: Seq::<u8>::empty(),
                backward: Seq::<u8>::empty(),
            }),
    {
        Base64 {
            forward_buffer: Vec::new(),
            backward_buffer: Vec::new(),
            work_mode: mode,
            pipeline_direction: PipelineDirection::Forward,
        }
    }

    /// A step with empty buffers that encodes in the direction `config`
    /// names, with the forward direction set.
    pub fn new(config: Option<&str>) -> (step: Base64)
        requires
            config is Some,
            Self::mode_of(config.unwrap()@) is Some,
        ensures
            step@ == (BufferView {
                mode: Self::mode_of(config.unwrap()@).unwrap(),
                direction: PipelineDirection::Forward,
                forward: Seq::<u8>::empty(),
                backward: Seq::<u8>::empty(),
            }),
    {
        let work_mode = match config {
            Some(text) => match Self::parse_mode(text) {
                Some(mode) => mode,
                None => PipelineDirection::Forward,
            },
            None => PipelineDirection::Forward,
        };
        Self::with_mode(work_mode)
    }

    /// This step with `direction` set and nothing else changed.
    pub closed spec fn turned(self, direction: PipelineDirection) -> Self {
        Base64 { pipeline_direction: direction, ..self }
    }

    fn append_active(&mut self, bytes: &mut Vec<u8>)
        ensures
            final(self)@ == old(self)@.appended(old(bytes)@),
    {
        match self.pipeline_direction {
            PipelineDirection::Forward => self.forward_buffer.append(bytes),
            PipelineDirection::Backward => self.backward_buffer.append(bytes),
        }
    }
}

impl Read for Base64 {
    open spec fn read_spec(&self, after: Self, out: Result<Seq<u8>, IOError>) -> bool {
        &&& out == Ok::<Seq<u8>, IOError>(self@.active())
        &&& after@ == self@.emptied()
    }

    fn read(&mut self) -> (r: Result<Vec<u8>, IOError>) {
        let mut out: Vec<u8> = Vec::new();
        match self.pipeline_direction {
            PipelineDirection::Forward => out.append(&mut self.forward_buffer),
            PipelineDirection::Backward => out.append(&mut self.backward_buffer),
        }
        Ok(out)
    }
}

impl BoxedClone for Base64 {
    open spec fn clone_spec(&self, fresh: Self) -> bool {
        fresh@ == (BufferView {
            mode: self@.mode,
            direction: PipelineDirection::Forward,
            forward: Seq::<u8>::empty(),
            backward: Seq::<u8>::empty(),
        })
    }

    fn bclone(&self) -> (r: Self) {
        Self::with_mode(self.work_mode)
    }
}

impl PipelineStep for Base64 {
    open spec fn start_spec(&self, after: Self) -> bool {
        after == *self
    }

    open spec fn len_spec(&self, after: Self, out: Result<usize, IOError>) -> bool {
        &&& after == *self
        &&& out == Ok::<usize, IOError>(self@.active().len() as usize)
    }

    open spec fn redirect_spec(&self, direction: PipelineDirection, after: Self) -> bool {
        &&& after == self.turned(direction)
        &&& after@ == (BufferView { direction, ..self@ })
    }

    open spec fn write_spec(&self, data: Seq<u8>, after: Self, out: Result<usize, IOError>) -> bool {
        match base64_output(self@, data) {
            Some(bytes) => {
                &&& after@ == self@.appended(bytes)
                &&& out == Ok::<usize, IOError>(bytes.len() as usize)
            },
            None => {
                &&& after@ == self@
                &&& out == Err::<usize, IOError>(IOError::ParseError)
            },
        }
    }

    fn start(&mut self) {
    }

    fn len(&mut self) -> (r: Result<usize, IOError>) {
        match self.pipeline_direction {
            PipelineDirection::Forward => Ok(self.forward_buffer.len()),
            PipelineDirection::Backward => Ok(self.backward_buffer.len()),
        }
    }

    fn set_pipeline_direction(&mut self, direction: PipelineDirection) {
        self.pipeline_direction = direction;
    }

    fn write(&mut self, buf: &[u8]) -> (r: Result<usize, IOError>) {
        if self.work_mode == self.pipeline_direction {
            let mut text = encode_standard(buf);
            let count = text.len();
            self.append_active(&mut text);
            Ok(count)
        } else {
            match decode_standard(buf) {
                Ok(mut bytes) => {
                    proof {
                        lemma_base64_data_of_text(bytes@);
                    }
                    let count = bytes.len();
                    self.append_active(&mut bytes);
                    Ok(count)
                },
                Err(_) => Err(IOError::ParseError),
            }
        }
    }
}

/// A base64 step at rest, with the forward direction set, undoes backward
/// what it did forward: decoding an encoded payload gives the payload, and
/// encoding a decoded text gives the text.
pub proof fn lemma_base64_reversible(step: Base64)
    requires
        step@.direction == PipelineDirection::Forward,
        step@.forward.len() == 0,
        step@.backward.len() == 0,
    ensures
        reversible(step),
{
    assert forall|x: Seq<u8>, m: Base64, w: Result<usize, IOError>, a: Base64, out: Seq<u8>, c: Base64|
        #![trigger wrote(step, x, m, w), drained(m, a, Ok::<Seq<u8>, IOError>(out)), a.redirect_spec(PipelineDirection::Backward, c)]
        wrote(step, x, m, w) && w is Ok && drained(m, a, Ok::<Seq<u8>, IOError>(out))
            && a.redirect_spec(PipelineDirection::Backward, c) implies gives_back(c, out, x) by {
        let bytes = base64_output(step@, x).unwrap();
        assert(m@.active() =~= bytes);
        assert(out == bytes);
        assert(c@.active() =~= Seq::<u8>::empty());
        lemma_base64_len(x);
        lemma_base64_len(out);
        if step@.native() {
            lemma_base64_data_of_text(x);
            assert(base64_output(c@, out) == Some(x));
        } else {
            lemma_base64_text_of_data(x);
            assert(base64_output(c@, out) == Some(x));
        }
        if out.len() == 0 {
            assert(x.len() == 0);
            assert(x =~= Seq::<u8>::empty());
            assert forall|post: Base64, r: Result<Seq<u8>, IOError>| #[trigger]
                drained(c, post, r) implies r == Ok::<Seq<u8>, IOError>(x) by {}
        } else {
            assert forall|n: Base64, v: Result<usize, IOError>| #[trigger]
                wrote(c, out, n, v) implies v is Ok && yields(n, x) by {
                assert(n@.active() =~= x);
            }
        }
    }
}

/// Asking a base64 step for its pending size neither changes it nor has two
/// answers, and setting it backward twice is setting it backward once.
pub proof fn lemma_base64_steady()
    ensures
        steady::<Base64>(),
{
}

/// Forward and backward state never mix: a write and a drain leave what
/// is pending for the direction that is not set as it was.
pub proof fn lemma_base64_directions_apart(
    step: Base64,
    data: Seq<u8>,
    written: Base64,
    count: Result<usize, IOError>,
    drained_step: Base64,
    out: Result<Seq<u8>, IOError>,
    other: PipelineDirection,
)
    requires
        other != step@.direction,
    ensures
        wrote(step, data, written, count) ==> written@.pending(other) == step@.pending(other)
            && written@.direction == step@.direction && written@.mode == step@.mode,
        drained(step, drained_step, out) ==> drained_step@.pending(other) == step@.pending(other)
            && drained_step@.direction == step@.direction && drained_step@.mode == step@.mode,
{
}

} // verus!
