use crate::error::IOError;
use crate::http_tools::{read_request, request_of, response_text, write_response};
use crate::pipeline_module::{
    drained_view, holds_output, read_back, sized, written, Pipeline, PipelineStep,
};
use crate::websocket::{
    accept_of, classified, decoded, offered_key, plain_frame, plain_response, pong_frame,
    read_frame, server_frame, server_handshake, upgrade_response, Inbound, InboundView,
};
use vstd::prelude::*;

verus! {

/// What a transport had when it was asked for the bytes that are ready.
#[derive(Debug)]
pub enum Arrival {
    /// The query or the read failed.
    Failed,
    /// The transport was ready but had no byte.
    Nothing,
    /// The bytes that were read.
    Data(Vec<u8>),
}

/// What a connection's worker does after an event.
#[derive(Debug)]
pub enum Verdict {
    /// Go on with the next wake cycle.
    Continue,
    /// Shut the connection down in both directions and stop.
    Disconnect,
    /// Shut the connection down and stop with this error.
    Abort(IOError),
}

/// What follows from the outcome of a pass: "nothing available" is no
/// failure and the worker goes on; any other error ends the connection.
pub open spec fn verdict_of<T>(outcome: Result<T, IOError>) -> Verdict {
    match outcome {
        Ok(_) => Verdict::Continue,
        Err(IOError::EmptyData) => Verdict::Continue,
        Err(e) => Verdict::Abort(e),
    }
}

/// `data` was written into the chain and the worker was told what
/// follows from the outcome.
pub open spec fn forwarded<S: PipelineStep>(
    before: Seq<S>,
    data: Seq<u8>,
    after: Seq<S>,
    v: Verdict,
) -> bool {
    exists|w: Result<usize, IOError>| #[trigger]
        written(before, data, after, w) && v == verdict_of(w)
}

/// Hands `data` from the client to the pipeline.
pub fn relay_forward<S: PipelineStep>(pipeline: &mut Pipeline<S>, data: Vec<u8>) -> (v: Verdict)
    requires
        old(pipeline).wf(),
    ensures
        final(pipeline).wf(),
        final(pipeline).scratch() == old(pipeline).scratch(),
        final(pipeline)@.len() == old(pipeline)@.len(),
        forwarded(old(pipeline)@, data@, final(pipeline)@, v),
{
    match pipeline.write(data) {
        Ok(_) => Verdict::Continue,
        Err(IOError::EmptyData) => Verdict::Continue,
        Err(e) => Verdict::Abort(e),
    }
}

/// What a read-readiness event leads to on a byte-stream connection.
/// A failed or empty read ends the connection; bytes go to the pipeline.
pub open spec fn stream_readable<S: PipelineStep>(
    before: Seq<S>,
    arrival: Arrival,
    after: Seq<S>,
    v: Verdict,
) -> bool {
    match arrival {
        Arrival::Failed => after == before && v == Verdict::Disconnect,
        Arrival::Nothing => after == before && v == Verdict::Disconnect,
        Arrival::Data(data) => forwarded(before, data@, after, v),
    }
}

/// Handles a read-readiness event of a byte-stream connection.
pub fn on_readable<S: PipelineStep>(pipeline: &mut Pipeline<S>, arrival: Arrival) -> (v: Verdict)
    requires
        old(pipeline).wf(),
    ensures
        final(pipeline).wf(),
        final(pipeline).scratch() == old(pipeline).scratch(),
        final(pipeline)@.len() == old(pipeline)@.len(),
        stream_readable(old(pipeline)@, arrival, final(pipeline)@, v),
{
    match arrival {
        Arrival::Failed => Verdict::Disconnect,
        Arrival::Nothing => Verdict::Disconnect,
        Arrival::Data(data) => relay_forward(pipeline, data),
    }
}

/// What the outcome of a backward pass gives the worker to send: data
/// that is not empty goes out; nothing goes out otherwise.
pub open spec fn outgoing(out: Result<Seq<u8>, IOError>) -> Option<Seq<u8>> {
    match out {
        Ok(data) => if data.len() > 0 {
            Some(data)
        } else {
            None
        },
        Err(_) => None,
    }
}

/// The bytes to send, taken by their view.
pub open spec fn sending(bytes: Option<Vec<u8>>) -> Option<Seq<u8>> {
    match bytes {
        Some(b) => Some(b@),
        None => None,
    }
}

/// What a write-readiness event leads to: the pipeline is asked whether
/// it holds backward output; if it does, it is read, and what came out is
/// to be sent; if it does not, nothing happens.
pub open spec fn stream_writable<S: PipelineStep>(
    before: Seq<S>,
    after: Seq<S>,
    send: Option<Seq<u8>>,
    v: Verdict,
) -> bool {
    exists|asked: Seq<S>, size: Result<usize, IOError>, out: Result<Seq<u8>, IOError>| #[trigger]
        writable_by(before, after, send, v, asked, size, out)
}

/// `stream_writable`, with the chain after the size query, the size, and
/// the outcome of the read named.
pub open spec fn writable_by<S: PipelineStep>(
    before: Seq<S>,
    after: Seq<S>,
    send: Option<Seq<u8>>,
    v: Verdict,
    asked: Seq<S>,
    size: Result<usize, IOError>,
    out: Result<Seq<u8>, IOError>,
) -> bool {
    &&& sized(before, asked, size)
    &&& if holds_output(size) {
        &&& read_back(asked, after, out)
        &&& send == outgoing(out)
        &&& v == verdict_of(out)
    } else {
        &&& after == asked
        &&& send is None
        &&& v == Verdict::Continue
    }
}

/// Handles a write-readiness event: hands back what is to be written to
/// the connection, if anything.
pub fn on_writable<S: PipelineStep>(pipeline: &mut Pipeline<S>) -> (r: (Option<Vec<u8>>, Verdict))
    requires
        old(pipeline).wf(),
    ensures
        final(pipeline).wf(),
        final(pipeline).scratch() == old(pipeline).scratch(),
        final(pipeline)@.len() == old(pipeline)@.len(),
        stream_writable(old(pipeline)@, final(pipeline)@, sending(r.0), r.1),
{
    let size = pipeline.len();
    let ghost asked = pipeline@;
    let available = match size {
        Ok(n) => n != 0,
        Err(_) => true,
    };
    if !available {
        assert(writable_by(
            old(pipeline)@,
            pipeline@,
            None,
            Verdict::Continue,
            asked,
            size,
            Ok::<Seq<u8>, IOError>(Seq::<u8>::empty()),
        ));
        return (None, Verdict::Continue);
    }
    let out = pipeline.read();
    let ghost shown = drained_view(out);
    let r = match out {
        Ok(data) => {
            if data.len() > 0 {
                (Some(data), Verdict::Continue)
            } else {
                (None, Verdict::Continue)
            }
        },
        Err(IOError::EmptyData) => (None, Verdict::Continue),
        Err(e) => (None, Verdict::Abort(e)),
    };
    assert(writable_by(old(pipeline)@, pipeline@, sending(r.0), r.1, asked, size, shown));
    r
}

/// The state of a framed connection's worker: whether the upgrade
/// handshake is done.
#[derive(Debug)]
pub struct FramedWorker {
    pub handshaked: bool,
}

/// What the first readable event of a framed connection leads to: the
/// bytes must hold an upgrade request. With a key in it the switching
/// response goes out and the handshake is done; without one the plain
/// response goes out and the connection ends; bytes that hold no request
/// end the connection with nothing sent.
pub open spec fn handshake_step(
    arrival: Arrival,
    done: bool,
    send: Option<Seq<u8>>,
    v: Verdict,
) -> bool {
    match arrival {
        Arrival::Data(bytes) => match request_of(bytes@) {
            Some(request) => match offered_key(request) {
                Some(key) => {
                    &&& done
                    &&& send == Some(response_text(upgrade_response(accept_of(key))))
                    &&& v == Verdict::Continue
                },
                None => {
                    &&& !done
                    &&& send == Some(response_text(plain_response()))
                    &&& v == Verdict::Disconnect
                },
            },
            None => !done && send is None && v == Verdict::Disconnect,
        },
        _ => !done && send is None && v == Verdict::Disconnect,
    }
}

/// What a readable event leads to once the handshake is done: payload
/// goes to the pipeline; a ping is answered with a pong and a pong is let
/// pass, the pipeline untouched; a close frame, a failed or empty read,
/// and bytes that are no whole frame end the connection.
pub open spec fn framed_readable<S: PipelineStep>(
    before: Seq<S>,
    arrival: Arrival,
    after: Seq<S>,
    send: Option<Seq<u8>>,
    v: Verdict,
) -> bool {
    match arrival {
        Arrival::Data(bytes) => frame_taken(before, classified(decoded(bytes@)), after, send, v),
        _ => after == before && send is None && v == Verdict::Disconnect,
    }
}

/// What a frame leads to, by its kind: what becomes of the pipeline, what
/// is to be sent back, and how the worker goes on.
pub open spec fn frame_taken<S: PipelineStep>(
    before: Seq<S>,
    inbound: InboundView,
    after: Seq<S>,
    send: Option<Seq<u8>>,
    v: Verdict,
) -> bool {
    match inbound {
        InboundView::Payload(data) => forwarded(before, data, after, v) && send is None,
        InboundView::Ping(data) => after == before && send == Some(plain_frame(10, data)) && v
            == Verdict::Continue,
        InboundView::Pong => after == before && send is None && v == Verdict::Continue,
        _ => after == before && send is None && v == Verdict::Disconnect,
    }
}

fn shake_hands(arrival: Arrival) -> (r: (bool, Option<Vec<u8>>, Verdict))
    ensures
        handshake_step(arrival, r.0, sending(r.1), r.2),
{
    match arrival {
        Arrival::Data(bytes) => match read_request(bytes.as_slice()) {
            Ok(request) => {
                let (response, outcome) = server_handshake(&request);
                let wire = write_response(&response);
                match outcome {
                    Ok(()) => (true, Some(wire), Verdict::Continue),
                    Err(_) => (false, Some(wire), Verdict::Disconnect),
                }
            },
            Err(_) => (false, None, Verdict::Disconnect),
        },
        _ => (false, None, Verdict::Disconnect),
    }
}

/// Handles one frame that arrived on a framed connection. Payload goes
/// to the pipeline. A ping is acknowledged: the pong that answers it is
/// handed back to be sent, and the pipeline is not touched. A pong
/// changes nothing. A close frame, or anything that is no whole frame,
/// ends the connection. A ping that carries more than a control frame
/// may is no frame.
pub fn on_frame<S: PipelineStep>(pipeline: &mut Pipeline<S>, inbound: Inbound) -> (r: (
    Option<Vec<u8>>,
    Verdict,
))
    requires
        old(pipeline).wf(),
    ensures
        final(pipeline).wf(),
        final(pipeline).scratch() == old(pipeline).scratch(),
        final(pipeline)@.len() == old(pipeline)@.len(),
        match inbound@ {
            InboundView::Ping(data) => if data.len() <= 125 {
                frame_taken(old(pipeline)@, inbound@, final(pipeline)@, sending(r.0), r.1)
            } else {
                final(pipeline)@ == old(pipeline)@ && r.0 is None && r.1 == Verdict::Disconnect
            },
            _ => frame_taken(old(pipeline)@, inbound@, final(pipeline)@, sending(r.0), r.1),
        },
{
    match inbound {
        Inbound::Payload(data) => (None, relay_forward(pipeline, data)),
        Inbound::Ping(data) => {
            if data.len() <= 125 {
                (Some(pong_frame(data)), Verdict::Continue)
            } else {
                (None, Verdict::Disconnect)
            }
        },
        Inbound::Pong => (None, Verdict::Continue),
        Inbound::Close => (None, Verdict::Disconnect),
        Inbound::Incomplete => (None, Verdict::Disconnect),
        Inbound::Malformed(_) => (None, Verdict::Disconnect),
    }
}

fn take_frame<S: PipelineStep>(pipeline: &mut Pipeline<S>, arrival: Arrival) -> (r: (
    Option<Vec<u8>>,
    Verdict,
))
    requires
        old(pipeline).wf(),
    ensures
        final(pipeline).wf(),
        final(pipeline).scratch() == old(pipeline).scratch(),
        final(pipeline)@.len() == old(pipeline)@.len(),
        framed_readable(old(pipeline)@, arrival, final(pipeline)@, sending(r.0), r.1),
{
    match arrival {
        Arrival::Data(bytes) => on_frame(pipeline, read_frame(bytes.as_slice())),
        Arrival::Failed => (None, Verdict::Disconnect),
        Arrival::Nothing => (None, Verdict::Disconnect),
    }
}

impl FramedWorker {
    /// A worker for a connection that has not shaken hands yet.
    pub fn new() -> (w: FramedWorker)
        ensures
            !w.handshaked,
    {
        FramedWorker { handshaked: false }
    }

    /// Handles a read-readiness event. Before the handshake is done the
    /// bytes are taken as the upgrade request and the pipeline is not
    /// touched; after it they are taken as a frame. What is handed back
    /// is to be sent to the client: the answer to the upgrade request, or
    /// the pong that answers a ping.
    pub fn on_readable<S: PipelineStep>(
        &mut self,
        pipeline: &mut Pipeline<S>,
        arrival: Arrival,
    ) -> (r: (Option<Vec<u8>>, Verdict))
        requires
            old(pipeline).wf(),
        ensures
            final(pipeline).wf(),
            final(pipeline).scratch() == old(pipeline).scratch(),
            final(pipeline)@.len() == old(pipeline)@.len(),
            if old(self).handshaked {
                &&& final(self).handshaked
                &&& framed_readable(
                    old(pipeline)@,
                    arrival,
                    final(pipeline)@,
                    sending(r.0),
                    r.1,
                )
            } else {
                &&& final(pipeline)@ == old(pipeline)@
                &&& handshake_step(arrival, final(self).handshaked, sending(r.0), r.1)
            },
    {
        if !self.handshaked {
            let (done, send, verdict) = shake_hands(arrival);
            self.handshaked = done;
            (send, verdict)
        } else {
            take_frame(pipeline, arrival)
        }
    }

    /// Handles a write-readiness event: once the handshake is done,
    /// backward output goes out as one binary frame.
    pub fn on_writable<S: PipelineStep>(&self, pipeline: &mut Pipeline<S>) -> (r: (
        Option<Vec<u8>>,
        Verdict,
    ))
        requires
            old(pipeline).wf(),
        ensures
            final(pipeline).wf(),
            final(pipeline).scratch() == old(pipeline).scratch(),
            final(pipeline)@.len() == old(pipeline)@.len(),
            if self.handshaked {
                exists|data: Option<Seq<u8>>| #[trigger]
                    stream_writable(old(pipeline)@, final(pipeline)@, data, r.1) && sending(r.0)
                        == (match data {
                        Some(d) => Some(plain_frame(2, d)),
                        None => None,
                    })
            } else {
                final(pipeline)@ == old(pipeline)@ && r.0 is None && r.1 == Verdict::Continue
            },
    {
        if !self.handshaked {
            return (None, Verdict::Continue);
        }
        let (data, verdict) = on_writable(pipeline);
        let frame = match data {
            Some(d) => Some(server_frame(d)),
            None => None,
        };
        (frame, verdict)
    }
}

/// The entry on the process's standard streams: one pipeline, driven by
/// polling, with a pause of `loop_time` milliseconds between cycles.
pub struct STDioEntry<S: PipelineStep> {
    pipeline: Pipeline<S>,
    loop_time: u64,
}

impl<S: PipelineStep> STDioEntry<S> {
    /// The entry is valid when its pipeline is.
    pub closed spec fn wf(&self) -> bool {
        self.pipeline.wf()
    }

    /// The steps of the entry's pipeline.
    pub closed spec fn chain(&self) -> Seq<S> {
        self.pipeline@
    }

    /// The pause between cycles, in milliseconds.
    pub closed spec fn pause(&self) -> u64 {
        self.loop_time
    }

    /// An entry around `pipeline`. The configuration text is not read:
    /// the standard streams need none.
    pub fn new(config: String, pipeline: Pipeline<S>, loop_time: u64) -> (entry: Self)
        requires
            pipeline.wf(),
        ensures
            entry.wf(),
            entry.chain() == pipeline@,
            entry.pause() == loop_time,
    {
        STDioEntry { pipeline, loop_time }
    }

    /// The pause between cycles, in milliseconds.
    pub fn loop_time(&self) -> (t: u64)
        ensures
            t == self.pause(),
    {
        self.loop_time
    }

    /// Starts the pipeline, once, before the first cycle.
    pub fn start(&mut self)
        requires
            old(self).wf(),
        ensures
            final(self).wf(),
            final(self).pause() == old(self).pause(),
            crate::pipeline_module::all_started(old(self).chain(), final(self).chain()),
    {
        self.pipeline.start();
    }

    /// First half of a cycle: what was read from standard input, if
    /// anything was, goes to the pipeline.
    pub fn on_input(&mut self, input: Vec<u8>) -> (v: Verdict)
        requires
            old(self).wf(),
        ensures
            final(self).wf(),
            final(self).pause() == old(self).pause(),
            if input@.len() > 0 {
                forwarded(old(self).chain(), input@, final(self).chain(), v)
            } else {
                final(self).chain() == old(self).chain() && v == Verdict::Continue
            },
    {
        if input.len() > 0 {
            relay_forward(&mut self.pipeline, input)
        } else {
            Verdict::Continue
        }
    }

    /// Second half of a cycle: backward output of the pipeline, if there
    /// is any, is handed back to be written to standard output.
    pub fn on_idle(&mut self) -> (r: (Option<Vec<u8>>, Verdict))
        requires
            old(self).wf(),
        ensures
            final(self).wf(),
            final(self).pause() == old(self).pause(),
            stream_writable(old(self).chain(), final(self).chain(), sending(r.0), r.1),
    {
        on_writable(&mut self.pipeline)
    }
}

impl<S: PipelineStep> Clone for STDioEntry<S> {
    /// An entry around a fresh copy of the pipeline.
    fn clone(&self) -> (entry: Self)
        ensures
            crate::pipeline_module::all_cloned(self.chain(), entry.chain()),
            entry.pause() == self.pause(),
            self.wf() ==> entry.wf(),
    {
        STDioEntry { pipeline: self.pipeline.clone(), loop_time: self.loop_time }
    }
}

} // verus!
