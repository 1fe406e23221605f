use crate::error::IOError;
use vstd::prelude::*;
use vstd::string::StringExecFns;

verus! {

/// The two relay directions: forward is client to upstream, backward is
/// upstream to client.
#[derive(Clone, Copy, PartialEq, Eq, Structural, Debug)]
pub enum PipelineDirection {
    Forward,
    Backward,
}

impl PipelineDirection {
    /// The direction's name as text.
    pub open spec fn name_spec(self) -> Seq<char> {
        match self {
            PipelineDirection::Forward => "PipelineDirection::Forward"@,
            PipelineDirection::Backward => "PipelineDirection::Backward"@,
        }
    }

    /// The direction's name, for log lines.
    pub fn name(self) -> (r: String)
        ensures
            r@ == self.name_spec(),
    {
        match self {
            PipelineDirection::Forward => String::from_str("PipelineDirection::Forward"),
            PipelineDirection::Backward => String::from_str("PipelineDirection::Backward"),
        }
    }
}

/// What a buffering transform step holds: the direction in which it
/// performs its primary transform, the direction currently set, and the
/// bytes pending for each direction.
pub struct BufferView {
    pub mode: PipelineDirection,
    pub direction: PipelineDirection,
    pub forward: Seq<u8>,
    pub backward: Seq<u8>,
}

impl BufferView {
    /// The bytes pending for `direction`.
    pub open spec fn pending(self, direction: PipelineDirection) -> Seq<u8> {
        match direction {
            PipelineDirection::Forward => self.forward,
            PipelineDirection::Backward => self.backward,
        }
    }

    /// The bytes pending for the direction currently set.
    pub open spec fn active(self) -> Seq<u8> {
        self.pending(self.direction)
    }

    /// `self` with the pending bytes of `direction` replaced.
    pub open spec fn with_pending(self, direction: PipelineDirection, bytes: Seq<u8>) -> BufferView {
        match direction {
            PipelineDirection::Forward => BufferView { forward: bytes, ..self },
            PipelineDirection::Backward => BufferView { backward: bytes, ..self },
        }
    }

    /// `self` after `bytes` were appended to the active direction.
    pub open spec fn appended(self, bytes: Seq<u8>) -> BufferView {
        self.with_pending(self.direction, self.active() + bytes)
    }

    /// `self` after the active direction was drained.
    pub open spec fn emptied(self) -> BufferView {
        self.with_pending(self.direction, Seq::<u8>::empty())
    }

    /// Whether a write in the direction currently set applies the primary
    /// transform (as opposed to its inverse).
    pub open spec fn native(self) -> bool {
        self.mode == self.direction
    }
}

/// The outcome of draining a step, with the bytes taken by their view.
pub open spec fn drained_view(r: Result<Vec<u8>, IOError>) -> Result<Seq<u8>, IOError> {
    match r {
        Ok(v) => Ok(v@),
        Err(e) => Err(e),
    }
}

/// Draining side of a step.
pub trait Read: Sized {
    /// Relates the step before a drain to the step after it and to what
    /// the drain handed out. Unless a step says more, anything may happen.
    open spec fn read_spec(&self, after: Self, out: Result<Seq<u8>, IOError>) -> bool {
        true
    }

    /// Takes out, exactly once, everything buffered for the active
    /// direction.
    fn read(&mut self) -> (r: Result<Vec<u8>, IOError>)
        ensures
            old(self).read_spec(*final(self), drained_view(r)),
    ;
}

/// Per-connection duplication of a step.
pub trait BoxedClone: Sized {
    /// Relates a step to a fresh instance rebuilt from its configuration.
    /// Unless a step says more, nothing is known of the fresh instance.
    open spec fn clone_spec(&self, fresh: Self) -> bool {
        true
    }

    /// Builds an independent instance from this step's configuration.
    fn bclone(&self) -> (r: Self)
        ensures
            self.clone_spec(r),
    ;
}

/// A single directional byte transform with its own buffering.
pub trait PipelineStep: Read + BoxedClone {
    /// Relates the step before `start` to the step after it. Here and in
    /// the three relations below, anything may happen unless a step says
    /// more.
    open spec fn start_spec(&self, after: Self) -> bool {
        true
    }

    /// Relates the step before a size query to the step after it and to
    /// the size reported.
    open spec fn len_spec(&self, after: Self, out: Result<usize, IOError>) -> bool {
        true
    }

    /// Relates the step before its direction is set to the step after it.
    open spec fn redirect_spec(&self, direction: PipelineDirection, after: Self) -> bool {
        true
    }

    /// Relates the step before a write of `data` to the step after it and
    /// to the count reported.
    open spec fn write_spec(&self, data: Seq<u8>, after: Self, out: Result<usize, IOError>) -> bool {
        true
    }

    /// Acquires whatever the step needs before traffic flows.
    fn start(&mut self)
        ensures
            old(self).start_spec(*final(self)),
    ;

    /// Size pending for the active direction.
    fn len(&mut self) -> (r: Result<usize, IOError>)
        ensures
            old(self).len_spec(*final(self), r),
    ;

    /// Sets the active direction: a pure state change.
    fn set_pipeline_direction(&mut self, direction: PipelineDirection)
        ensures
            old(self).redirect_spec(direction, *final(self)),
    ;

    /// Transforms `buf` for the active direction and buffers the result.
    fn write(&mut self, buf: &[u8]) -> (r: Result<usize, IOError>)
        ensures
            old(self).write_spec(buf@, *final(self), r),
    ;
}

/// Every step of `before` had its direction set to `direction`, each on
/// its own, which gave `after`.
pub open spec fn all_redirected<S: PipelineStep>(
    before: Seq<S>,
    direction: PipelineDirection,
    after: Seq<S>,
) -> bool {
    &&& after.len() == before.len()
    &&& forall|i: int|
        0 <= i < before.len() ==> #[trigger] before[i].redirect_spec(direction, after[i])
}

/// Step `i` accepted `data` and ended as `mid`, reporting `out`.
pub open spec fn wrote<S: PipelineStep>(
    before: S,
    data: Seq<u8>,
    mid: S,
    out: Result<usize, IOError>,
) -> bool {
    before.write_spec(data, mid, out)
}

/// A step was drained, ended as `post` and handed out `out`.
pub open spec fn drained<S: PipelineStep>(
    before: S,
    post: S,
    out: Result<Seq<u8>, IOError>,
) -> bool {
    before.read_spec(post, out)
}

/// The forward pass from step `i` on: `data` is written into step `i`; for
/// every step but the last, what the step hands out when drained is
/// written into the next one. The pass reports the size that the last
/// step reported for what it was handed, or the first error, after which
/// nothing further moves.
pub open spec fn forward_from<S: PipelineStep>(
    before: Seq<S>,
    i: int,
    data: Seq<u8>,
    after: Seq<S>,
    result: Result<usize, IOError>,
) -> bool
    decreases before.len() - i, 2int,
{
    &&& 0 <= i < before.len()
    &&& exists|mid: S, w: Result<usize, IOError>| #[trigger]
        wrote(before[i], data, mid, w) && forward_written(before, i, after, result, mid, w)
}

/// The forward pass after step `i` took its input, ended as `mid` and
/// reported `w`: an error ends the pass; at the last step the pass is
/// done and its result is the size that this step reported; otherwise
/// the step is drained.
pub open spec fn forward_written<S: PipelineStep>(
    before: Seq<S>,
    i: int,
    after: Seq<S>,
    result: Result<usize, IOError>,
    mid: S,
    w: Result<usize, IOError>,
) -> bool
    decreases before.len() - i, 1int,
{
    match w {
        Err(e) => result == Err::<usize, IOError>(e) && after == before.update(i, mid),
        Ok(size) => if i >= before.len() - 1 {
            result == Ok::<usize, IOError>(size) && after == before.update(i, mid)
        } else {
            exists|post: S, d: Result<Seq<u8>, IOError>| #[trigger]
                drained(mid, post, d) && forward_drained(before, i, after, result, post, d)
        },
    }
}

/// The forward pass after step `i` was drained, ended as `post` and
/// handed out `d`: an error ends the pass; otherwise what came out goes
/// into step `i + 1`.
pub open spec fn forward_drained<S: PipelineStep>(
    before: Seq<S>,
    i: int,
    after: Seq<S>,
    result: Result<usize, IOError>,
    post: S,
    d: Result<Seq<u8>, IOError>,
) -> bool
    decreases before.len() - i, 0int,
{
    match d {
        Err(e) => result == Err::<usize, IOError>(e) && after == before.update(i, post),
        Ok(next) => 0 <= i < before.len() - 1 && forward_from(
            before.update(i, post),
            i + 1,
            next,
            after,
            result,
        ),
    }
}

/// The backward pass from step `i` down: step `i` is drained; what it
/// hands out, unless empty, is written into step `i - 1`, which is drained
/// in turn, down to step 0, whose output is the pass's result. The first
/// error ends the pass and is its result.
pub open spec fn backward_from<S: PipelineStep>(
    before: Seq<S>,
    i: int,
    after: Seq<S>,
    result: Result<Seq<u8>, IOError>,
) -> bool
    decreases i, 2int,
{
    &&& 0 <= i < before.len()
    &&& exists|post: S, d: Result<Seq<u8>, IOError>| #[trigger]
        drained(before[i], post, d) && backward_drained(before, i, after, result, post, d)
}

/// The backward pass after step `i` was drained, ended as `post` and
/// handed out `d`: an error ends the pass; at step 0 the pass is done;
/// empty output is not written but the pass goes on at step `i - 1`;
/// anything else is written into step `i - 1`.
pub open spec fn backward_drained<S: PipelineStep>(
    before: Seq<S>,
    i: int,
    after: Seq<S>,
    result: Result<Seq<u8>, IOError>,
    post: S,
    d: Result<Seq<u8>, IOError>,
) -> bool
    decreases i, 1int,
{
    match d {
        Err(e) => result == Err::<Seq<u8>, IOError>(e) && after == before.update(i, post),
        Ok(out) => if i <= 0 {
            result == Ok::<Seq<u8>, IOError>(out) && after == before.update(i, post)
        } else if out.len() == 0 {
            backward_from(before.update(i, post), i - 1, after, result)
        } else {
            i - 1 < before.len() && exists|mid: S, w: Result<usize, IOError>| #[trigger]
                wrote(before[i - 1], out, mid, w) && backward_written(
                    before.update(i, post),
                    i,
                    after,
                    result,
                    mid,
                    w,
                )
        },
    }
}

/// The backward pass after step `i - 1` took what step `i` handed out,
/// ended as `mid` and reported `w`: an error ends the pass; otherwise the
/// pass goes on at step `i - 1`.
pub open spec fn backward_written<S: PipelineStep>(
    drained_chain: Seq<S>,
    i: int,
    after: Seq<S>,
    result: Result<Seq<u8>, IOError>,
    mid: S,
    w: Result<usize, IOError>,
) -> bool
    decreases i, 0int,
{
    match w {
        Err(e) => result == Err::<Seq<u8>, IOError>(e) && after == drained_chain.update(
            i - 1,
            mid,
        ),
        Ok(_) => i > 0 && backward_from(drained_chain.update(i - 1, mid), i - 1, after, result),
    }
}

/// The last step of `before` was asked for its pending size and answered
/// `out`; no other step moved.
pub open spec fn measured<S: PipelineStep>(
    before: Seq<S>,
    after: Seq<S>,
    out: Result<usize, IOError>,
) -> bool {
    &&& before.len() > 0
    &&& after.len() == before.len()
    &&& before.last().len_spec(after.last(), out)
    &&& after == before.update(before.len() - 1, after.last())
}

/// What `Pipeline::write` does to a chain: every step is set forward, then
/// `data` passes through the chain from step 0 on.
pub open spec fn written<S: PipelineStep>(
    before: Seq<S>,
    data: Seq<u8>,
    after: Seq<S>,
    result: Result<usize, IOError>,
) -> bool {
    exists|directed: Seq<S>| #[trigger]
        all_redirected(before, PipelineDirection::Forward, directed) && forward_from(
            directed,
            0,
            data,
            after,
            result,
        )
}

/// What `Pipeline::read` does to a chain: every step is set backward, then
/// the chain is drained from its last step down.
pub open spec fn read_back<S: PipelineStep>(
    before: Seq<S>,
    after: Seq<S>,
    result: Result<Seq<u8>, IOError>,
) -> bool {
    exists|directed: Seq<S>| #[trigger]
        all_redirected(before, PipelineDirection::Backward, directed) && backward_from(
            directed,
            directed.len() - 1,
            after,
            result,
        )
}

/// What `Pipeline::len` does to a chain: every step is set backward, then
/// the last step is asked for its pending size.
pub open spec fn sized<S: PipelineStep>(
    before: Seq<S>,
    after: Seq<S>,
    result: Result<usize, IOError>,
) -> bool {
    exists|directed: Seq<S>| #[trigger]
        all_redirected(before, PipelineDirection::Backward, directed) && measured(
            directed,
            after,
            result,
        )
}

/// What a pending size says about whether there is output: a size other
/// than zero does, and so does a failed query, so that the read that
/// follows reports the failure.
pub open spec fn holds_output(out: Result<usize, IOError>) -> bool {
    match out {
        Ok(n) => n != 0,
        Err(_) => true,
    }
}

fn holds_output_of(out: &Result<usize, IOError>) -> (r: bool)
    ensures
        r == holds_output(*out),
{
    match out {
        Ok(n) => *n != 0,
        Err(_) => true,
    }
}

/// Every step of `before` was started, each on its own.
pub open spec fn all_started<S: PipelineStep>(before: Seq<S>, after: Seq<S>) -> bool {
    &&& after.len() == before.len()
    &&& forall|i: int| 0 <= i < before.len() ==> #[trigger] before[i].start_spec(after[i])
}

/// Every step of `fresh` was rebuilt from the configuration of the step at
/// the same place in `template`.
pub open spec fn all_cloned<S: PipelineStep>(template: Seq<S>, fresh: Seq<S>) -> bool {
    &&& fresh.len() == template.len()
    &&& forall|i: int| 0 <= i < template.len() ==> #[trigger] template[i].clone_spec(fresh[i])
}

/// Draining `step` can hand out `payload` and nothing else.
pub open spec fn yields<S: PipelineStep>(step: S, payload: Seq<u8>) -> bool {
    forall|post: S, r: Result<Seq<u8>, IOError>| #[trigger]
        drained(step, post, r) ==> r == Ok::<Seq<u8>, IOError>(payload)
}

/// Handed `out` the way a backward pass hands it on (written, unless it is
/// empty), `step` then yields `payload`.
pub open spec fn gives_back<S: PipelineStep>(step: S, out: Seq<u8>, payload: Seq<u8>) -> bool {
    if out.len() == 0 {
        yields(step, payload)
    } else {
        forall|mid: S, w: Result<usize, IOError>| #[trigger]
            wrote(step, out, mid, w) ==> w is Ok && yields(mid, payload)
    }
}

/// `step` undoes backward what it does forward: whenever it accepts a
/// payload, hands on `out` for it and is then set backward, handing `out`
/// back to it makes it yield the payload.
pub open spec fn reversible<S: PipelineStep>(step: S) -> bool {
    forall|x: Seq<u8>, mid: S, w: Result<usize, IOError>, rest: S, out: Seq<u8>, back: S|
        #![trigger wrote(step, x, mid, w), drained(mid, rest, Ok::<Seq<u8>, IOError>(out)), rest.redirect_spec(PipelineDirection::Backward, back)]
        wrote(step, x, mid, w) && w is Ok && drained(mid, rest, Ok::<Seq<u8>, IOError>(out))
            && rest.redirect_spec(PipelineDirection::Backward, back) ==> gives_back(back, out, x)
}

/// `step` is a destination that sends back what it was sent: whenever it
/// accepts a payload and is then set backward, it yields that payload.
pub open spec fn echoes<S: PipelineStep>(step: S) -> bool {
    forall|x: Seq<u8>, mid: S, w: Result<usize, IOError>, back: S|
        #![trigger wrote(step, x, mid, w), mid.redirect_spec(PipelineDirection::Backward, back)]
        wrote(step, x, mid, w) && w is Ok && mid.redirect_spec(PipelineDirection::Backward, back)
            ==> yields(back, x)
}

/// An owned, ordered, non-empty chain of steps.
pub struct Pipeline<S: PipelineStep> {
    steps: Vec<S>,
    buffer_size: usize,
}

impl<S: PipelineStep> View for Pipeline<S> {
    type V = Seq<S>;

    closed spec fn view(&self) -> Seq<S> {
        self.steps@
    }
}

impl<S: PipelineStep> Pipeline<S> {
    /// A pipeline is valid when it has at least one step.
    pub open spec fn wf(&self) -> bool {
        self@.len() > 0
    }

    /// The scratch size the pipeline was made with.
    pub closed spec fn scratch(&self) -> usize {
        self.buffer_size
    }

    /// A pipeline of `steps`, in their order, with the scratch size
    /// given, or 1024 where none is.
    pub fn new(steps: Vec<S>, buffer_size: Option<usize>) -> (p: Self)
        requires
            steps@.len() > 0,
        ensures
            p.wf(),
            p@ == steps@,
            p.scratch() == (match buffer_size {
                Some(n) => n,
                None => 1024usize,
            }),
    {
        let size: usize = match buffer_size {
            Some(n) => n,
            None => 1024,
        };
        Pipeline { steps, buffer_size: size }
    }

    fn write_from(&mut self, i: usize, data: Vec<u8>) -> (r: Result<usize, IOError>)
        requires
            old(self).wf(),
            i < old(self)@.len(),
        ensures
            final(self).wf(),
            final(self).scratch() == old(self).scratch(),
            final(self)@.len() == old(self)@.len(),
            forward_from(old(self)@, i as int, data@, final(self)@, r),
        decreases old(self)@.len() - i,
    {
        let ghost before = self.steps@;
        let n = self.steps.len();
        let w = self.steps[i].write(data.as_slice());
        let ghost mid = self.steps@[i as int];
        assert(wrote(before[i as int], data@, mid, w));
        assert(self.steps@ == before.update(i as int, mid));
        let ghost reported = w;
        let r = match w {
            Err(e) => Err(e),
            Ok(size) => {
                if i == n - 1 {
                    Ok(size)
                } else {
                    let d = self.steps[i].read();
                    let ghost post = self.steps@[i as int];
                    let ghost shown = drained_view(d);
                    assert(drained(mid, post, shown));
                    assert(self.steps@ == before.update(i as int, post));
                    let r = match d {
                        Err(e) => Err(e),
                        Ok(next) => self.write_from(i + 1, next),
                    };
                    assert(forward_drained(before, i as int, self.steps@, r, post, shown));
                    r
                }
            },
        };
        assert(forward_written(before, i as int, self.steps@, r, mid, reported));
        r
    }

    fn read_from(&mut self, i: usize) -> (r: Result<Vec<u8>, IOError>)
        requires
            old(self).wf(),
            i < old(self)@.len(),
        ensures
            final(self).wf(),
            final(self).scratch() == old(self).scratch(),
            final(self)@.len() == old(self)@.len(),
            backward_from(old(self)@, i as int, final(self)@, drained_view(r)),
        decreases i,
    {
        let ghost before = self.steps@;
        let d = self.steps[i].read();
        let ghost post = self.steps@[i as int];
        let ghost shown = drained_view(d);
        assert(drained(before[i as int], post, shown));
        let r = match d {
            Err(e) => Err(e),
            Ok(out) => {
                if i == 0 {
                    Ok(out)
                } else if out.len() == 0 {
                    self.read_from(i - 1)
                } else {
                    let w = self.steps[i - 1].write(out.as_slice());
                    let ghost mid = self.steps@[i - 1];
                    assert(wrote(before[i - 1], out@, mid, w));
                    let r = match w {
                        Err(e) => Err(e),
                        Ok(_) => self.read_from(i - 1),
                    };
                    assert(backward_written(
                        before.update(i as int, post),
                        i as int,
                        self.steps@,
                        drained_view(r),
                        mid,
                        w,
                    ));
                    r
                }
            },
        };
        r
    }

    fn set_direction(&mut self, direction: PipelineDirection)
        requires
            old(self).wf(),
        ensures
            final(self).wf(),
            final(self).scratch() == old(self).scratch(),
            all_redirected(old(self)@, direction, final(self)@),
    {
        let n = self.steps.len();
        let mut i: usize = 0;
        while i < n
            invariant
                i <= n,
                n == old(self)@.len(),
                self.steps@.len() == n,
                self.buffer_size == old(self).buffer_size,
                forall|j: int|
                    0 <= j < i ==> #[trigger] old(self)@[j].redirect_spec(direction, self.steps@[j]),
                forall|j: int| i <= j < n ==> self.steps@[j] == old(self)@[j],
            decreases n - i,
        {
            self.steps[i].set_pipeline_direction(direction);
            i = i + 1;
        }
    }

    /// Calls `start` on every step, in order.
    pub fn start(&mut self)
        requires
            old(self).wf(),
        ensures
            final(self).wf(),
            final(self).scratch() == old(self).scratch(),
            all_started(old(self)@, final(self)@),
    {
        let n = self.steps.len();
        let mut i: usize = 0;
        while i < n
            invariant
                i <= n,
                n == old(self)@.len(),
                self.steps@.len() == n,
                self.buffer_size == old(self).buffer_size,
                forall|j: int| 0 <= j < i ==> #[trigger] old(self)@[j].start_spec(self.steps@[j]),
                forall|j: int| i <= j < n ==> self.steps@[j] == old(self)@[j],
            decreases n - i,
        {
            self.steps[i].start();
            i = i + 1;
        }
    }

    /// Relays `data` client to upstream: every step is set to forward,
    /// then `data` passes through the chain from step 0 to the last step.
    /// The result is the size that the last step reported.
    pub fn write(&mut self, data: Vec<u8>) -> (r: Result<usize, IOError>)
        requires
            old(self).wf(),
        ensures
            final(self).wf(),
            final(self).scratch() == old(self).scratch(),
            final(self)@.len() == old(self)@.len(),
            written(old(self)@, data@, final(self)@, r),
    {
        self.set_direction(PipelineDirection::Forward);
        self.write_from(0, data)
    }

    /// Relays upstream to client: every step is set to backward, then the
    /// chain is drained from the last step down to step 0.
    pub fn read(&mut self) -> (r: Result<Vec<u8>, IOError>)
        requires
            old(self).wf(),
        ensures
            final(self).wf(),
            final(self).scratch() == old(self).scratch(),
            final(self)@.len() == old(self)@.len(),
            read_back(old(self)@, final(self)@, drained_view(r)),
    {
        self.set_direction(PipelineDirection::Backward);
        let n = self.steps.len();
        self.read_from(n - 1)
    }

    /// The backward size pending at the last step, without consuming it.
    pub fn len(&mut self) -> (r: Result<usize, IOError>)
        requires
            old(self).wf(),
        ensures
            final(self).wf(),
            final(self).scratch() == old(self).scratch(),
            final(self)@.len() == old(self)@.len(),
            sized(old(self)@, final(self)@, r),
    {
        self.set_direction(PipelineDirection::Backward);
        let n = self.steps.len();
        let r = self.steps[n - 1].len();
        r
    }

    /// Whether the last step holds backward output. A size query that
    /// fails counts as output, so that the read that follows reports the
    /// failure.
    pub fn read_available(&mut self) -> (r: bool)
        requires
            old(self).wf(),
        ensures
            final(self).wf(),
            final(self).scratch() == old(self).scratch(),
            final(self)@.len() == old(self)@.len(),
            exists|out: Result<usize, IOError>| #[trigger]
                sized(old(self)@, final(self)@, out) && r == holds_output(out),
    {
        let out = self.len();
        holds_output_of(&out)
    }

    /// The steps of the chain, for reading.
    pub fn steps(&self) -> (steps: &Vec<S>)
        ensures
            steps@ == self@,
    {
        &self.steps
    }

    /// The scratch size the pipeline was made with.
    pub fn buffer_size(&self) -> (n: usize)
        ensures
            n == self.scratch(),
    {
        self.buffer_size
    }
}

impl<S: PipelineStep> Clone for Pipeline<S> {
    /// Rebuilds every step from its own configuration into a fresh
    /// pipeline that shares no state with this one.
    fn clone(&self) -> (p: Self)
        ensures
            all_cloned(self@, p@),
            p.scratch() == self.scratch(),
    {
        let n = self.steps.len();
        let mut steps: Vec<S> = Vec::new();
        let mut i: usize = 0;
        while i < n
            invariant
                i <= n,
                n == self.steps@.len(),
                steps@.len() == i,
                forall|j: int| 0 <= j < i ==> #[trigger] self.steps@[j].clone_spec(steps@[j]),
            decreases n - i,
        {
            let fresh = self.steps[i].bclone();
            steps.push(fresh);
            i = i + 1;
        }
        Pipeline { steps, buffer_size: self.buffer_size }
    }
}

/// A forward pass leaves the chain's length and the steps before its
/// starting point as they were.
pub proof fn lemma_forward_frame<S: PipelineStep>(
    before: Seq<S>,
    i: int,
    data: Seq<u8>,
    after: Seq<S>,
    result: Result<usize, IOError>,
)
    requires
        forward_from(before, i, data, after, result),
    ensures
        after.len() == before.len(),
        forall|j: int| 0 <= j < i ==> after[j] == before[j],
    decreases before.len() - i,
{
    let (mid, w) = choose|mid: S, w: Result<usize, IOError>| #[trigger]
        wrote(before[i], data, mid, w) && forward_written(before, i, after, result, mid, w);
    if w is Ok && i < before.len() - 1 {
        let (post, d) = choose|post: S, d: Result<Seq<u8>, IOError>| #[trigger]
            drained(mid, post, d) && forward_drained(before, i, after, result, post, d);
        if let Ok(next) = d {
            lemma_forward_frame(before.update(i, post), i + 1, next, after, result);
        }
    }
}

/// Where a forward pass from step `i` succeeded through reversible steps
/// into an echoing destination, a backward pass over the chain turned
/// round comes down to a backward pass from step `i` in which step `i`
/// yields what the forward pass wrote into it.
proof fn lemma_back_to<S: PipelineStep>(
    chain: Seq<S>,
    i: int,
    payload: Seq<u8>,
    sent: Seq<S>,
    count: usize,
    turned: Seq<S>,
    received: Seq<S>,
    result: Result<Seq<u8>, IOError>,
) -> (reached: Seq<S>)
    requires
        forall|j: int| i <= j < chain.len() - 1 ==> reversible(#[trigger] chain[j]),
        echoes(chain.last()),
        forward_from(chain, i, payload, sent, Ok::<usize, IOError>(count)),
        all_redirected(sent, PipelineDirection::Backward, turned),
        backward_from(turned, turned.len() - 1, received, result),
    ensures
        reached.len() == turned.len(),
        forall|j: int| 0 <= j < i ==> reached[j] == turned[j],
        yields(reached[i], payload),
        backward_from(reached, i, received, result),
    decreases chain.len() - i,
{
    let good = Ok::<usize, IOError>(count);
    lemma_forward_frame(chain, i, payload, sent, good);
    let (mid, w) = choose|mid: S, w: Result<usize, IOError>| #[trigger]
        wrote(chain[i], payload, mid, w) && forward_written(chain, i, sent, good, mid, w);
    assert(w is Ok);
    if i == chain.len() - 1 {
        assert(sent[i] == mid);
        assert(sent[i].redirect_spec(PipelineDirection::Backward, turned[i]));
        assert(yields(turned[i], payload));
        turned
    } else {
        let (post, d) = choose|post: S, d: Result<Seq<u8>, IOError>| #[trigger]
            drained(mid, post, d) && forward_drained(chain, i, sent, good, post, d);
        let next = d->Ok_0;
        let onward = chain.update(i, post);
        assert forall|j: int| i + 1 <= j < onward.len() - 1 implies reversible(
            #[trigger] onward[j],
        ) by {
            assert(onward[j] == chain[j]);
        }
        assert(onward.last() == chain.last());
        lemma_forward_frame(onward, i + 1, next, sent, good);
        assert(sent[i] == post);
        assert(sent[i].redirect_spec(PipelineDirection::Backward, turned[i]));
        assert(gives_back(turned[i], next, payload));
        let above = lemma_back_to(onward, i + 1, next, sent, count, turned, received, result);
        let (left, e) = choose|left: S, e: Result<Seq<u8>, IOError>| #[trigger]
            drained(above[i + 1], left, e) && backward_drained(
                above,
                i + 1,
                received,
                result,
                left,
                e,
            );
        assert(e == Ok::<Seq<u8>, IOError>(next));
        assert(above[i] == turned[i]);
        if next.len() == 0 {
            above.update(i + 1, left)
        } else {
            let (into, v) = choose|into: S, v: Result<usize, IOError>| #[trigger]
                wrote(above[i], next, into, v) && backward_written(
                    above.update(i + 1, left),
                    i + 1,
                    received,
                    result,
                    into,
                    v,
                );
            assert(v is Ok);
            above.update(i + 1, left).update(i, into)
        }
    }
}

/// Round trip. Take a chain, set forward, whose steps but the last are
/// reversible and whose last step echoes. If a forward pass of `payload`
/// succeeds and the chain is then set backward, a backward pass can only
/// end in `payload`.
pub proof fn lemma_round_trip<S: PipelineStep>(
    chain: Seq<S>,
    payload: Seq<u8>,
    sent: Seq<S>,
    count: usize,
    turned: Seq<S>,
    received: Seq<S>,
    result: Result<Seq<u8>, IOError>,
)
    requires
        forall|j: int| 0 <= j < chain.len() - 1 ==> reversible(#[trigger] chain[j]),
        echoes(chain.last()),
        forward_from(chain, 0, payload, sent, Ok::<usize, IOError>(count)),
        all_redirected(sent, PipelineDirection::Backward, turned),
        backward_from(turned, turned.len() - 1, received, result),
    ensures
        result == Ok::<Seq<u8>, IOError>(payload),
{
    let reached = lemma_back_to(chain, 0, payload, sent, count, turned, received, result);
    let (left, e) = choose|left: S, e: Result<Seq<u8>, IOError>| #[trigger]
        drained(reached[0], left, e) && backward_drained(reached, 0, received, result, left, e);
}

/// Round trip, in terms of the pipeline's own passes: where every way of
/// setting the chain forward gives reversible steps before an echoing
/// last step, a successful `write` of `payload` followed by a `read` can
/// only end in `payload`.
pub proof fn lemma_pipeline_round_trip<S: PipelineStep>(
    start: Seq<S>,
    payload: Seq<u8>,
    sent: Seq<S>,
    count: usize,
    received: Seq<S>,
    result: Result<Seq<u8>, IOError>,
)
    requires
        forall|chain: Seq<S>, j: int|
            #![trigger all_redirected(start, PipelineDirection::Forward, chain), chain[j]]
            all_redirected(start, PipelineDirection::Forward, chain) && 0 <= j < chain.len() ==> (if j
                < chain.len() - 1 {
                reversible(chain[j])
            } else {
                echoes(chain[j])
            }),
        written(start, payload, sent, Ok::<usize, IOError>(count)),
        read_back(sent, received, result),
    ensures
        result == Ok::<Seq<u8>, IOError>(payload),
{
    let chain = choose|chain: Seq<S>| #[trigger]
        all_redirected(start, PipelineDirection::Forward, chain) && forward_from(
            chain,
            0,
            payload,
            sent,
            Ok::<usize, IOError>(count),
        );
    let turned = choose|turned: Seq<S>| #[trigger]
        all_redirected(sent, PipelineDirection::Backward, turned) && backward_from(
            turned,
            turned.len() - 1,
            received,
            result,
        );
    assert forall|j: int| 0 <= j < chain.len() - 1 implies reversible(#[trigger] chain[j]) by {}
    assert(echoes(chain[chain.len() - 1]));
    lemma_round_trip(chain, payload, sent, count, turned, received, result);
}

/// Steps of type `S` are steady: asking a step for its pending size does
/// not change it and has one answer only, and setting a step backward
/// that is set backward already changes nothing.
pub open spec fn steady<S: PipelineStep>() -> bool {
    &&& forall|s: S, t: S, r: Result<usize, IOError>| #[trigger] s.len_spec(t, r) ==> t == s
    &&& forall|s: S, t: S, r: Result<usize, IOError>, u: S, q: Result<usize, IOError>|
        #[trigger] s.len_spec(t, r) && #[trigger] s.len_spec(u, q) ==> r == q
    &&& forall|s: S, d: S, e: S|
        #[trigger] s.redirect_spec(PipelineDirection::Backward, d) && #[trigger] d.redirect_spec(
            PipelineDirection::Backward,
            e,
        ) ==> e == d
}

/// Asking twice gives the same answer: on a chain of steady steps, a
/// second `len` right after a first one reports what the first reported.
pub proof fn lemma_len_twice<S: PipelineStep>(
    start: Seq<S>,
    once: Seq<S>,
    first: Result<usize, IOError>,
    twice: Seq<S>,
    second: Result<usize, IOError>,
)
    requires
        steady::<S>(),
        sized(start, once, first),
        sized(once, twice, second),
    ensures
        second == first,
{
    let a = choose|a: Seq<S>| #[trigger]
        all_redirected(start, PipelineDirection::Backward, a) && measured(a, once, first);
    let b = choose|b: Seq<S>| #[trigger]
        all_redirected(once, PipelineDirection::Backward, b) && measured(b, twice, second);
    let n = start.len() as int;
    assert(start[n - 1].redirect_spec(PipelineDirection::Backward, a[n - 1]));
    assert(once[n - 1].redirect_spec(PipelineDirection::Backward, b[n - 1]));
    assert(a.last().len_spec(once.last(), first));
    assert(b.last().len_spec(twice.last(), second));
    assert(once[n - 1] == a[n - 1]);
    assert(b[n - 1] == a[n - 1]);
}

} // verus!
