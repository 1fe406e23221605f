use crate::base64_step::{lemma_base64_reversible, lemma_base64_steady, Base64};
use crate::error::IOError;
use crate::pipeline_module::{
    drained, echoes, gives_back, reversible, steady, wrote, yields, BoxedClone, PipelineDirection,
    PipelineStep, Read,
};
use crate::random_salt_step::{lemma_salt_reversible, lemma_salt_steady, RSult};
use vstd::prelude::*;

verus! {

/// One place in a chain: one of the transforms of this library, or an
/// endpoint of the caller's own kind. A chain of stages can mix them.
pub enum Stage<E: PipelineStep> {
    Codec(Base64),
    Salt(RSult),
    Endpoint(E),
}

impl<E: PipelineStep> Read for Stage<E> {
    open spec fn read_spec(&self, after: Self, out: Result<Seq<u8>, IOError>) -> bool {
        match (*self, after) {
            (Stage::Codec(a), Stage::Codec(b)) => a.read_spec(b, out),
            (Stage::Salt(a), Stage::Salt(b)) => a.read_spec(b, out),
            (Stage::Endpoint(a), Stage::Endpoint(b)) => a.read_spec(b, out),
            _ => false,
        }
    }

    fn read(&mut self) -> (r: Result<Vec<u8>, IOError>) {
        match self {
            Stage::Codec(s) => s.read(),
            Stage::Salt(s) => s.read(),
            Stage::Endpoint(s) => s.read(),
        }
    }
}

impl<E: PipelineStep> BoxedClone for Stage<E> {
    open spec fn clone_spec(&self, fresh: Self) -> bool {
        match (*self, fresh) {
            (Stage::Codec(a), Stage::Codec(b)) => a.clone_spec(b),
            (Stage::Salt(a), Stage::Salt(b)) => a.clone_spec(b),
            (Stage::Endpoint(a), Stage::Endpoint(b)) => a.clone_spec(b),
            _ => false,
        }
    }

    fn bclone(&self) -> (r: Self) {
        match self {
            Stage::Codec(s) => Stage::Codec(s.bclone()),
            Stage::Salt(s) => Stage::Salt(s.bclone()),
            Stage::Endpoint(s) => Stage::Endpoint(s.bclone()),
        }
    }
}

impl<E: PipelineStep> PipelineStep for Stage<E> {
    open spec fn start_spec(&self, after: Self) -> bool {
        match (*self, after) {
            (Stage::Codec(a), Stage::Codec(b)) => a.start_spec(b),
            (Stage::Salt(a), Stage::Salt(b)) => a.start_spec(b),
            (Stage::Endpoint(a), Stage::Endpoint(b)) => a.start_spec(b),
            _ => false,
        }
    }

    open spec fn len_spec(&self, after: Self, out: Result<usize, IOError>) -> bool {
        match (*self, after) {
            (Stage::Codec(a), Stage::Codec(b)) => a.len_spec(b, out),
            (Stage::Salt(a), Stage::Salt(b)) => a.len_spec(b, out),
            (Stage::Endpoint(a), Stage::Endpoint(b)) => a.len_spec(b, out),
            _ => false,
        }
    }

    open spec fn redirect_spec(&self, direction: PipelineDirection, after: Self) -> bool {
        match (*self, after) {
            (Stage::Codec(a), Stage::Codec(b)) => a.redirect_spec(direction, b),
            (Stage::Salt(a), Stage::Salt(b)) => a.redirect_spec(direction, b),
            (Stage::Endpoint(a), Stage::Endpoint(b)) => a.redirect_spec(direction, b),
            _ => false,
        }
    }

    open spec fn write_spec(&self, data: Seq<u8>, after: Self, out: Result<usize, IOError>) -> bool {
        match (*self, after) {
            (Stage::Codec(a), Stage::Codec(b)) => a.write_spec(data, b, out),
            (Stage::Salt(a), Stage::Salt(b)) => a.write_spec(data, b, out),
            (Stage::Endpoint(a), Stage::Endpoint(b)) => a.write_spec(data, b, out),
            _ => false,
        }
    }

    fn start(&mut self) {
        match self {
            Stage::Codec(s) => s.start(),
            Stage::Salt(s) => s.start(),
            Stage::Endpoint(s) => s.start(),
        }
    }

    fn len(&mut self) -> (r: Result<usize, IOError>) {
        match self {
            Stage::Codec(s) => s.len(),
            Stage::Salt(s) => s.len(),
            Stage::Endpoint(s) => s.len(),
        }
    }

    fn set_pipeline_direction(&mut self, direction: PipelineDirection) {
        match self {
            Stage::Codec(s) => s.set_pipeline_direction(direction),
            Stage::Salt(s) => s.set_pipeline_direction(direction),
            Stage::Endpoint(s) => s.set_pipeline_direction(direction),
        }
    }

    fn write(&mut self, buf: &[u8]) -> (r: Result<usize, IOError>) {
        match self {
            Stage::Codec(s) => s.write(buf),
            Stage::Salt(s) => s.write(buf),
            Stage::Endpoint(s) => s.write(buf),
        }
    }
}

/// `lift` puts steps of one kind into stages in such a way that the stage
/// does what the step does: whatever a lifted step is written, drained
/// or set to, what comes of it is the lifted form of what comes of the
/// step.
pub open spec fn carries<T: PipelineStep, E: PipelineStep>(lift: spec_fn(T) -> Stage<E>) -> bool {
    &&& forall|a: T, x: Seq<u8>, m: Stage<E>, w: Result<usize, IOError>| #[trigger]
        wrote(lift(a), x, m, w) ==> exists|b: T| m == #[trigger] lift(b) && wrote(a, x, b, w)
    &&& forall|a: T, p: Stage<E>, r: Result<Seq<u8>, IOError>| #[trigger]
        drained(lift(a), p, r) ==> exists|b: T| p == #[trigger] lift(b) && drained(a, b, r)
    &&& forall|a: T, d: PipelineDirection, c: Stage<E>| #[trigger]
        lift(a).redirect_spec(d, c) ==> exists|b: T|
            c == #[trigger] lift(b) && a.redirect_spec(d, b)
}

proof fn lemma_yields_lifted<T: PipelineStep, E: PipelineStep>(
    lift: spec_fn(T) -> Stage<E>,
    step: T,
    payload: Seq<u8>,
)
    requires
        carries(lift),
        yields(step, payload),
    ensures
        yields(lift(step), payload),
{
    assert forall|post: Stage<E>, r: Result<Seq<u8>, IOError>| #[trigger]
        drained(lift(step), post, r) implies r == Ok::<Seq<u8>, IOError>(payload) by {
        let inner = choose|b: T| post == #[trigger] lift(b) && drained(step, b, r);
        assert(drained(step, inner, r));
    }
}

proof fn lemma_gives_back_lifted<T: PipelineStep, E: PipelineStep>(
    lift: spec_fn(T) -> Stage<E>,
    step: T,
    out: Seq<u8>,
    payload: Seq<u8>,
)
    requires
        carries(lift),
        gives_back(step, out, payload),
    ensures
        gives_back(lift(step), out, payload),
{
    if out.len() == 0 {
        lemma_yields_lifted(lift, step, payload);
    } else {
        assert forall|mid: Stage<E>, w: Result<usize, IOError>| #[trigger]
            wrote(lift(step), out, mid, w) implies w is Ok && yields(mid, payload) by {
            let inner = choose|b: T| mid == #[trigger] lift(b) && wrote(step, out, b, w);
            assert(wrote(step, out, inner, w));
            lemma_yields_lifted(lift, inner, payload);
        }
    }
}

/// A step that is reversible stays so when it is carried into a stage.
proof fn lemma_reversible_lifted<T: PipelineStep, E: PipelineStep>(
    lift: spec_fn(T) -> Stage<E>,
    step: T,
)
    requires
        carries(lift),
        reversible(step),
    ensures
        reversible(lift(step)),
{
    let stage = lift(step);
    assert forall|
        x: Seq<u8>,
        m: Stage<E>,
        w: Result<usize, IOError>,
        a: Stage<E>,
        out: Seq<u8>,
        c: Stage<E>,
    |
        #![trigger wrote(stage, x, m, w), drained(m, a, Ok::<Seq<u8>, IOError>(out)), a.redirect_spec(PipelineDirection::Backward, c)]
        wrote(stage, x, m, w) && w is Ok && drained(m, a, Ok::<Seq<u8>, IOError>(out))
            && a.redirect_spec(PipelineDirection::Backward, c) implies gives_back(c, out, x) by {
        let m0 = choose|b: T| m == #[trigger] lift(b) && wrote(step, x, b, w);
        assert(drained(lift(m0), a, Ok::<Seq<u8>, IOError>(out)));
        let a0 = choose|b: T|
            a == #[trigger] lift(b) && drained(m0, b, Ok::<Seq<u8>, IOError>(out));
        assert(lift(a0).redirect_spec(PipelineDirection::Backward, c));
        let c0 = choose|b: T|
            c == #[trigger] lift(b) && a0.redirect_spec(PipelineDirection::Backward, b);
        assert(wrote(step, x, m0, w));
        assert(drained(m0, a0, Ok::<Seq<u8>, IOError>(out)));
        assert(gives_back(c0, out, x));
        lemma_gives_back_lifted(lift, c0, out, x);
    }
}

/// A step that echoes stays so when it is carried into a stage.
proof fn lemma_echoes_lifted<T: PipelineStep, E: PipelineStep>(
    lift: spec_fn(T) -> Stage<E>,
    step: T,
)
    requires
        carries(lift),
        echoes(step),
    ensures
        echoes(lift(step)),
{
    let stage = lift(step);
    assert forall|x: Seq<u8>, m: Stage<E>, w: Result<usize, IOError>, c: Stage<E>|
        #![trigger wrote(stage, x, m, w), m.redirect_spec(PipelineDirection::Backward, c)]
        wrote(stage, x, m, w) && w is Ok && m.redirect_spec(
            PipelineDirection::Backward,
            c,
        ) implies yields(c, x) by {
        let m0 = choose|b: T| m == #[trigger] lift(b) && wrote(step, x, b, w);
        assert(lift(m0).redirect_spec(PipelineDirection::Backward, c));
        let c0 = choose|b: T|
            c == #[trigger] lift(b) && m0.redirect_spec(PipelineDirection::Backward, b);
        assert(yields(c0, x));
        lemma_yields_lifted(lift, c0, x);
    }
}

/// A codec in a stage does what the codec does.
proof fn lemma_codec_carried<E: PipelineStep>()
    ensures
        carries::<Base64, E>(|step: Base64| Stage::<E>::Codec(step)),
{
    let lift = |step: Base64| Stage::<E>::Codec(step);
    assert forall|a: Base64, x: Seq<u8>, m: Stage<E>, w: Result<usize, IOError>| #[trigger]
        wrote(lift(a), x, m, w) implies exists|b: Base64|
        m == #[trigger] lift(b) && wrote(a, x, b, w) by {
        if let Stage::Codec(b) = m {
            assert(m == lift(b) && wrote(a, x, b, w));
        }
    }
    assert forall|a: Base64, p: Stage<E>, r: Result<Seq<u8>, IOError>| #[trigger]
        drained(lift(a), p, r) implies exists|b: Base64|
        p == #[trigger] lift(b) && drained(a, b, r) by {
        if let Stage::Codec(b) = p {
            assert(p == lift(b) && drained(a, b, r));
        }
    }
    assert forall|a: Base64, d: PipelineDirection, c: Stage<E>| #[trigger]
        lift(a).redirect_spec(d, c) implies exists|b: Base64|
        c == #[trigger] lift(b) && a.redirect_spec(d, b) by {
        if let Stage::Codec(b) = c {
            assert(c == lift(b) && a.redirect_spec(d, b));
        }
    }
}

/// A salt step in a stage does what the salt step does.
proof fn lemma_salt_carried<E: PipelineStep>()
    ensures
        carries::<RSult, E>(|step: RSult| Stage::<E>::Salt(step)),
{
    let lift = |step: RSult| Stage::<E>::Salt(step);
    assert forall|a: RSult, x: Seq<u8>, m: Stage<E>, w: Result<usize, IOError>| #[trigger]
        wrote(lift(a), x, m, w) implies exists|b: RSult|
        m == #[trigger] lift(b) && wrote(a, x, b, w) by {
        if let Stage::Salt(b) = m {
            assert(m == lift(b) && wrote(a, x, b, w));
        }
    }
    assert forall|a: RSult, p: Stage<E>, r: Result<Seq<u8>, IOError>| #[trigger]
        drained(lift(a), p, r) implies exists|b: RSult|
        p == #[trigger] lift(b) && drained(a, b, r) by {
        if let Stage::Salt(b) = p {
            assert(p == lift(b) && drained(a, b, r));
        }
    }
    assert forall|a: RSult, d: PipelineDirection, c: Stage<E>| #[trigger]
        lift(a).redirect_spec(d, c) implies exists|b: RSult|
        c == #[trigger] lift(b) && a.redirect_spec(d, b) by {
        if let Stage::Salt(b) = c {
            assert(c == lift(b) && a.redirect_spec(d, b));
        }
    }
}

/// An endpoint in a stage does what the endpoint does.
proof fn lemma_endpoint_carried<E: PipelineStep>()
    ensures
        carries::<E, E>(|step: E| Stage::<E>::Endpoint(step)),
{
    let lift = |step: E| Stage::<E>::Endpoint(step);
    assert forall|a: E, x: Seq<u8>, m: Stage<E>, w: Result<usize, IOError>| #[trigger]
        wrote(lift(a), x, m, w) implies exists|b: E|
        m == #[trigger] lift(b) && wrote(a, x, b, w) by {
        if let Stage::Endpoint(b) = m {
            assert(m == lift(b) && wrote(a, x, b, w));
        }
    }
    assert forall|a: E, p: Stage<E>, r: Result<Seq<u8>, IOError>| #[trigger]
        drained(lift(a), p, r) implies exists|b: E|
        p == #[trigger] lift(b) && drained(a, b, r) by {
        if let Stage::Endpoint(b) = p {
            assert(p == lift(b) && drained(a, b, r));
        }
    }
    assert forall|a: E, d: PipelineDirection, c: Stage<E>| #[trigger]
        lift(a).redirect_spec(d, c) implies exists|b: E|
        c == #[trigger] lift(b) && a.redirect_spec(d, b) by {
        if let Stage::Endpoint(b) = c {
            assert(c == lift(b) && a.redirect_spec(d, b));
        }
    }
}

/// A codec that is reversible stays so as a stage of a chain.
pub proof fn lemma_codec_stage_reversible<E: PipelineStep>(step: Base64)
    requires
        reversible(step),
    ensures
        reversible(Stage::<E>::Codec(step)),
{
    lemma_codec_carried::<E>();
    lemma_reversible_lifted(|step: Base64| Stage::<E>::Codec(step), step);
}

/// A salt step that is reversible stays so as a stage of a chain.
pub proof fn lemma_salt_stage_reversible<E: PipelineStep>(step: RSult)
    requires
        reversible(step),
    ensures
        reversible(Stage::<E>::Salt(step)),
{
    lemma_salt_carried::<E>();
    lemma_reversible_lifted(|step: RSult| Stage::<E>::Salt(step), step);
}

/// An endpoint that is reversible stays so as a stage of a chain.
pub proof fn lemma_endpoint_stage_reversible<E: PipelineStep>(step: E)
    requires
        reversible(step),
    ensures
        reversible(Stage::<E>::Endpoint(step)),
{
    lemma_endpoint_carried::<E>();
    lemma_reversible_lifted(|step: E| Stage::<E>::Endpoint(step), step);
}

/// An endpoint that echoes stays so as a stage of a chain.
pub proof fn lemma_endpoint_stage_echoes<E: PipelineStep>(step: E)
    requires
        echoes(step),
    ensures
        echoes(Stage::<E>::Endpoint(step)),
{
    lemma_endpoint_carried::<E>();
    lemma_echoes_lifted(|step: E| Stage::<E>::Endpoint(step), step);
}

/// A codec at rest, set forward, is a reversible stage.
pub proof fn lemma_codec_stage_at_rest<E: PipelineStep>(step: Base64)
    requires
        step@.direction == PipelineDirection::Forward,
        step@.forward.len() == 0,
        step@.backward.len() == 0,
    ensures
        reversible(Stage::<E>::Codec(step)),
{
    lemma_base64_reversible(step);
    lemma_codec_stage_reversible::<E>(step);
}

/// A salt step at rest that salts forward, set forward, is a reversible
/// stage.
pub proof fn lemma_salt_stage_at_rest<E: PipelineStep>(step: RSult)
    requires
        step@.mode == PipelineDirection::Forward,
        step@.direction == PipelineDirection::Forward,
        step@.forward.len() == 0,
        step@.backward.len() == 0,
    ensures
        reversible(Stage::<E>::Salt(step)),
{
    lemma_salt_reversible(step);
    lemma_salt_stage_reversible::<E>(step);
}

/// Stages are steady where the caller's endpoints are: the transforms of
/// this library are.
pub proof fn lemma_stage_steady<E: PipelineStep>()
    requires
        steady::<E>(),
    ensures
        steady::<Stage<E>>(),
{
    lemma_base64_steady();
    lemma_salt_steady();
}

} // verus!
