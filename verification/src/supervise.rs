//! The supervision of the running tool, as a state machine.
//!
//! Two things happen while the tool runs, in no fixed order: its output
//! arrives, part by part, until the pipe is closed, and the tool exits. The
//! caller reads the pipe and waits for the exit at the same time and hands
//! each event to the supervisor, which says what to report and whether the
//! run is over. A result is given only when the output is drained and the
//! tool has exited, and it is then the status of the tool, whichever of the
//! two came first. Output that is not UTF-8 ends the run at once.

use vstd::prelude::*;
use crate::demux::{
    demux, fed, finished, lemma_feed_in_parts, lemma_feed_then_finish, lemma_records_none,
    pending, Decoded, Demultiplexer, Demuxed, OutputSegment, Segment, StreamDecodeError, CR,
};
use crate::model::views;
use crate::outcome::{result_of, RunResult};
use crate::split::lemma_split_none;

verus! {

/// What can happen while the tool runs.
pub enum Event {
    /// The tool wrote these bytes.
    Output(Seq<u8>),
    /// The tool closed its output.
    OutputClosed,
    /// The tool ended, with this code unless a signal ended it.
    Exited(Option<i32>),
}

/// What the caller does next, with an error of type `E`.
#[derive(Debug, Clone, PartialEq, Eq)]
pub enum Action<E> {
    /// Go on reading and waiting.
    Continue,
    /// The run is over: this is its result.
    Done(RunResult),
    /// The run has failed: stop reading.
    Abort(E),
}

impl<E: View> View for Action<E> {
    type V = Action<E::V>;

    open spec fn view(&self) -> Action<E::V> {
        match self {
            Action::Continue => Action::Continue,
            Action::Done(r) => Action::Done(*r),
            Action::Abort(e) => Action::Abort(e@),
        }
    }
}

/// What the supervisor answers to an event.
#[derive(Debug, Clone, PartialEq, Eq)]
pub struct Step {
    /// The records to report, in order.
    pub segments: Vec<OutputSegment>,
    /// What to do next.
    pub action: Action<StreamDecodeError>,
}

/// An answer of the supervisor as a mathematical value.
pub struct StepView {
    pub segments: Seq<Segment<Seq<char>>>,
    pub action: Action<Seq<u8>>,
}

impl View for Step {
    type V = StepView;

    open spec fn view(&self) -> StepView {
        StepView { segments: views(self.segments@), action: self.action@ }
    }
}

/// The state of a supervision as a mathematical value.
pub struct SupervisorState {
    /// The bytes of the chunk that is still open.
    pub open: Seq<u8>,
    /// Whether the output has been closed.
    pub closed: bool,
    /// The result of the tool, once it has exited.
    pub status: Option<RunResult>,
    /// The bytes of the first record that was not UTF-8, once there is one.
    pub failure: Option<Seq<u8>>,
}

impl SupervisorState {
    /// The state before anything has happened.
    pub open spec fn initial() -> SupervisorState {
        SupervisorState { open: Seq::empty(), closed: false, status: None, failure: None }
    }

    /// Whether output is still taken: the pipe is open and nothing failed.
    pub open spec fn reading(self) -> bool {
        !self.closed && self.failure is None
    }

    /// What the caller does in this state: abort after a failure, finish
    /// when the output is drained and the tool has exited, else go on.
    pub open spec fn action(self) -> Action<Seq<u8>> {
        match self.failure {
            Some(bytes) => Action::Abort(bytes),
            None => match self.status {
                Some(result) => if self.closed {
                    Action::Done(result)
                } else {
                    Action::Continue
                },
                None => Action::Continue,
            },
        }
    }

    /// What decoding gives for an event in this state. Output is decoded
    /// while it is taken, and the end of the output completes the open chunk;
    /// nothing else is decoded.
    pub open spec fn decoded(self, event: Event) -> Decoded {
        match event {
            Event::Output(data) => if self.reading() {
                fed(self.open, data)
            } else {
                Decoded::nothing()
            },
            Event::OutputClosed => if self.reading() {
                finished(self.open)
            } else {
                Decoded::nothing()
            },
            Event::Exited(_) => Decoded::nothing(),
        }
    }

    /// The state after an event. The first status of the tool is kept.
    pub open spec fn after(self, event: Event) -> SupervisorState {
        match event {
            Event::Output(data) => if self.reading() {
                SupervisorState {
                    open: pending(self.open + data),
                    failure: self.decoded(event).failure,
                    ..self
                }
            } else {
                self
            },
            Event::OutputClosed => if self.reading() {
                SupervisorState {
                    open: Seq::empty(),
                    closed: true,
                    failure: self.decoded(event).failure,
                    ..self
                }
            } else {
                SupervisorState { closed: true, ..self }
            },
            Event::Exited(code) => if self.status is None {
                SupervisorState { status: Some(result_of(code)), ..self }
            } else {
                self
            },
        }
    }

    /// The answer to an event in this state.
    pub open spec fn answer(self, event: Event) -> StepView {
        StepView { segments: self.decoded(event).segments, action: self.after(event).action() }
    }
}

/// The state after a run of events, from the start.
pub open spec fn state_after(events: Seq<Event>) -> SupervisorState
    decreases events.len(),
{
    if events.len() == 0 {
        SupervisorState::initial()
    } else {
        state_after(events.drop_last()).after(events.last())
    }
}

/// All the records reported during a run of events, in order.
pub open spec fn reported(events: Seq<Event>) -> Seq<Segment<Seq<char>>>
    decreases events.len(),
{
    if events.len() == 0 {
        Seq::empty()
    } else {
        reported(events.drop_last()) + state_after(events.drop_last()).decoded(
            events.last(),
        ).segments
    }
}

/// Whether the output was closed during a run of events.
pub open spec fn closed_in(events: Seq<Event>) -> bool
    decreases events.len(),
{
    if events.len() == 0 {
        false
    } else {
        closed_in(events.drop_last()) || events.last() is OutputClosed
    }
}

/// The bytes that the tool wrote before its output was closed.
pub open spec fn output_in(events: Seq<Event>) -> Seq<u8>
    decreases events.len(),
{
    if events.len() == 0 {
        Seq::empty()
    } else {
        let before = output_in(events.drop_last());
        match events.last() {
            Event::Output(data) => if closed_in(events.drop_last()) {
                before
            } else {
                before + data
            },
            _ => before,
        }
    }
}

/// The result of the tool, where it exited during a run of events: that of
/// its first exit.
pub open spec fn status_in(events: Seq<Event>) -> Option<RunResult>
    decreases events.len(),
{
    if events.len() == 0 {
        None
    } else {
        match status_in(events.drop_last()) {
            Some(result) => Some(result),
            None => match events.last() {
                Event::Exited(code) => Some(result_of(code)),
                _ => None,
            },
        }
    }
}

/// What the output of a run of events decodes to: as a whole stream once it
/// was closed, and up to its last carriage return before that.
pub open spec fn decoded_in(events: Seq<Event>) -> Decoded {
    if closed_in(events) {
        demux(output_in(events))
    } else {
        fed(Seq::empty(), output_in(events))
    }
}

/// In whatever order the output and the exit arrive, and however the output
/// is cut into parts, the records reported are those of the output as one
/// stream, a failure is the first record of that stream that is not UTF-8,
/// and the status is that of the tool.
pub proof fn lemma_supervision(events: Seq<Event>)
    ensures
        state_after(events).closed == closed_in(events),
        state_after(events).status == status_in(events),
        state_after(events).failure == decoded_in(events).failure,
        reported(events) == decoded_in(events).segments,
        state_after(events).reading() ==> state_after(events).open == pending(output_in(events)),
    decreases events.len(),
{
    if events.len() == 0 {
        lemma_records_none();
        lemma_split_none(Seq::<u8>::empty(), CR);
    } else {
        let before = events.drop_last();
        lemma_supervision(before);
        if !closed_in(before) {
            match events.last() {
                Event::Output(data) => {
                    lemma_feed_in_parts(output_in(before), data);
                },
                Event::OutputClosed => {
                    lemma_feed_then_finish(output_in(before));
                },
                Event::Exited(_) => {},
            }
        }
    }
}

/// A run is over with a result exactly when the output was closed, the tool
/// has exited and every record of the output was UTF-8; the result is then
/// the status of the tool, and everything the tool wrote has been reported.
pub proof fn lemma_result_is_the_status(events: Seq<Event>, result: RunResult)
    ensures
        state_after(events).action() == Action::<Seq<u8>>::Done(result) <==> closed_in(events)
            && status_in(events) == Some(result) && demux(output_in(events)).failure is None,
        state_after(events).action() == Action::<Seq<u8>>::Done(result) ==> reported(events)
            == demux(output_in(events)).segments,
{
    lemma_supervision(events);
}

/// The supervisor of one run of the tool.
pub struct Supervisor {
    demux: Demultiplexer,
    closed: bool,
    status: Option<RunResult>,
    failure: Option<StreamDecodeError>,
}

impl View for Supervisor {
    type V = SupervisorState;

    closed spec fn view(&self) -> SupervisorState {
        SupervisorState {
            open: self.demux@,
            closed: self.closed,
            status: self.status,
            failure: match self.failure {
                Some(e) => Some(e@),
                None => None,
            },
        }
    }
}

impl Supervisor {
    /// A supervisor before anything has happened.
    pub fn new() -> (s: Supervisor)
        ensures
            s@ == SupervisorState::initial(),
    {
        Supervisor { demux: Demultiplexer::new(), closed: false, status: None, failure: None }
    }

    /// What the caller does in the present state.
    pub fn action(&self) -> (action: Action<StreamDecodeError>)
        ensures
            action@ == self@.action(),
    {
        match &self.failure {
            Some(e) => {
                let bytes = e.bytes.clone();
                Action::Abort(StreamDecodeError { bytes })
            },
            None => match self.status {
                Some(result) => if self.closed {
                    Action::Done(result)
                } else {
                    Action::Continue
                },
                None => Action::Continue,
            },
        }
    }

    /// Takes what decoding gave: keeps a failure and answers.
    fn conclude(&mut self, out: Demuxed) -> (step: Step)
        requires
            old(self).failure is None,
        ensures
            final(self)@ == (SupervisorState { failure: out@.failure, ..old(self)@ }),
            step@ == (StepView { segments: out@.segments, action: final(self)@.action() }),
    {
        let Demuxed { segments, failure } = out;
        self.failure = failure;
        let action = self.action();
        Step { segments, action }
    }

    /// Answers without anything to report.
    fn idle(&self) -> (step: Step)
        ensures
            step@ == (StepView { segments: Seq::empty(), action: self@.action() }),
    {
        let segments: Vec<OutputSegment> = Vec::new();
        let action = self.action();
        proof {
            assert(views(segments@) =~= Seq::<Segment<Seq<char>>>::empty());
        }
        Step { segments, action }
    }

    /// The tool wrote `data`.
    pub fn output(&mut self, data: &[u8]) -> (step: Step)
        ensures
            final(self)@ == old(self)@.after(Event::Output(data@)),
            step@ == old(self)@.answer(Event::Output(data@)),
    {
        if self.closed || self.failure.is_some() {
            self.idle()
        } else {
            let out = self.demux.feed(data);
            self.conclude(out)
        }
    }

    /// The tool closed its output.
    pub fn output_closed(&mut self) -> (step: Step)
        ensures
            final(self)@ == old(self)@.after(Event::OutputClosed),
            step@ == old(self)@.answer(Event::OutputClosed),
    {
        if self.closed || self.failure.is_some() {
            self.closed = true;
            self.idle()
        } else {
            let mut demux = Demultiplexer::new();
            std::mem::swap(&mut demux, &mut self.demux);
            self.closed = true;
            let out = demux.finish();
            self.conclude(out)
        }
    }

    /// The tool ended, with `code` unless a signal ended it.
    pub fn exited(&mut self, code: Option<i32>) -> (step: Step)
        ensures
            final(self)@ == old(self)@.after(Event::Exited(code)),
            step@ == old(self)@.answer(Event::Exited(code)),
    {
        if self.status.is_none() {
            self.status = Some(RunResult::from_status(code));
        }
        self.idle()
    }
}

} // verus!
