//! The translator from the client to the backend: every text message
//! becomes one line of the backend stream.

use crate::frame::{Frame, FrameView};
use crate::line::{encode_line, line_of, lines_of};
use crate::status::{Fault, Status};
use vstd::prelude::*;

verus! {

/// What happened on the client's side of a bridge.
#[derive(Debug, Clone, PartialEq, Eq)]
pub enum ClientEvent {
    /// The client sent a message.
    Frame(Frame),
    /// The stream of messages ended without a close message.
    Ended,
    /// Reading the next message failed.
    ReadFailed,
    /// A write that the translator asked for failed.
    WriteFailed,
}

/// The mathematical value of a [`ClientEvent`].
pub enum ClientEventView {
    Frame(FrameView),
    Ended,
    ReadFailed,
    WriteFailed,
}

impl View for ClientEvent {
    type V = ClientEventView;

    open spec fn view(&self) -> ClientEventView {
        match self {
            ClientEvent::Frame(frame) => ClientEventView::Frame(frame@),
            ClientEvent::Ended => ClientEventView::Ended,
            ClientEvent::ReadFailed => ClientEventView::ReadFailed,
            ClientEvent::WriteFailed => ClientEventView::WriteFailed,
        }
    }
}

/// What the translator asks for in answer to an event.
#[derive(Debug, Clone, PartialEq, Eq)]
pub enum UplinkStep {
    /// Write these bytes to the backend, all of them or none.
    Write(Vec<u8>),
    /// Nothing to do: wait for the next message.
    Continue,
    /// The translator has stopped.
    Halt,
}

/// The mathematical value of an [`UplinkStep`].
pub enum UplinkStepView {
    Write(Seq<u8>),
    Continue,
    Halt,
}

impl View for UplinkStep {
    type V = UplinkStepView;

    open spec fn view(&self) -> UplinkStepView {
        match self {
            UplinkStep::Write(bytes) => UplinkStepView::Write(bytes@),
            UplinkStep::Continue => UplinkStepView::Continue,
            UplinkStep::Halt => UplinkStepView::Halt,
        }
    }
}

/// The state that follows `event`. A close message and the end of the
/// stream stop the translator cleanly, a failure stops it with its cause,
/// and a stopped translator stays as it is.
pub open spec fn uplink_next(status: Status, event: ClientEventView) -> Status {
    if status is Running {
        match event {
            ClientEventView::Frame(FrameView::Close) => Status::StoppedClean,
            ClientEventView::Frame(_) => Status::Running,
            ClientEventView::Ended => Status::StoppedClean,
            ClientEventView::ReadFailed => Status::StoppedError(Fault::ClientRead),
            ClientEventView::WriteFailed => Status::StoppedError(Fault::BackendWrite),
        }
    } else {
        status
    }
}

/// The answer to `event`. Only a text message given to a running
/// translator is written; every other message is passed over.
pub open spec fn uplink_step(status: Status, event: ClientEventView) -> UplinkStepView {
    if status is Running {
        match event {
            ClientEventView::Frame(FrameView::Text(text)) => UplinkStepView::Write(line_of(text)),
            ClientEventView::Frame(FrameView::Close) => UplinkStepView::Halt,
            ClientEventView::Frame(_) => UplinkStepView::Continue,
            _ => UplinkStepView::Halt,
        }
    } else {
        UplinkStepView::Halt
    }
}

/// The bytes that a step puts on the backend stream.
pub open spec fn step_bytes(step: UplinkStepView) -> Seq<u8> {
    match step {
        UplinkStepView::Write(bytes) => bytes,
        _ => Seq::empty(),
    }
}

/// The bytes written to the backend while `events` arrive in order.
pub open spec fn written(status: Status, events: Seq<ClientEventView>) -> Seq<u8>
    decreases events.len(),
{
    if events.len() == 0 {
        Seq::empty()
    } else {
        step_bytes(uplink_step(status, events.first())) + written(
            uplink_next(status, events.first()),
            events.drop_first(),
        )
    }
}

/// The state of the translator once `events` have arrived in order.
pub open spec fn uplink_after(status: Status, events: Seq<ClientEventView>) -> Status
    decreases events.len(),
{
    if events.len() == 0 {
        status
    } else {
        uplink_after(uplink_next(status, events.first()), events.drop_first())
    }
}

/// The values of a sequence of events.
pub open spec fn event_views(events: Seq<ClientEvent>) -> Seq<ClientEventView> {
    events.map_values(|event: ClientEvent| event@)
}

/// The events in which the client sends `frames`, one message each.
pub open spec fn frame_events(frames: Seq<FrameView>) -> Seq<ClientEventView> {
    frames.map_values(|frame: FrameView| ClientEventView::Frame(frame))
}

/// The events in which the client sends `texts`, one text message each.
pub open spec fn text_events(texts: Seq<Seq<char>>) -> Seq<ClientEventView> {
    texts.map_values(|text: Seq<char>| ClientEventView::Frame(FrameView::Text(text)))
}

/// The texts of the text messages among `frames`, in order.
pub open spec fn texts_among(frames: Seq<FrameView>) -> Seq<Seq<char>>
    decreases frames.len(),
{
    if frames.len() == 0 {
        Seq::empty()
    } else {
        match frames.first() {
            FrameView::Text(text) => seq![text] + texts_among(frames.drop_first()),
            _ => texts_among(frames.drop_first()),
        }
    }
}

/// Whether no message of `frames` is the close message.
pub open spec fn no_close(frames: Seq<FrameView>) -> bool {
    forall|i: int| 0 <= i < frames.len() ==> !(#[trigger] frames[i] is Close)
}

/// Texts are written as they were sent: when the client sends `texts` before
/// any close, the backend is written exactly the lines of `texts`, in order
/// and each once, and the translator keeps running.
pub proof fn lemma_texts_written_in_order(texts: Seq<Seq<char>>)
    ensures
        written(Status::Running, text_events(texts)) == lines_of(texts),
        uplink_after(Status::Running, text_events(texts)) == Status::Running,
    decreases texts.len(),
{
    if texts.len() > 0 {
        assert(text_events(texts).drop_first() =~= text_events(texts.drop_first()));
        lemma_texts_written_in_order(texts.drop_first());
    }
}

/// Only texts are written: whatever messages the client sends before any
/// close, the backend is written the lines of the texts among them and
/// nothing for the others, and the translator keeps running.
pub proof fn lemma_only_texts_written(frames: Seq<FrameView>)
    requires
        no_close(frames),
    ensures
        written(Status::Running, frame_events(frames)) == lines_of(texts_among(frames)),
        uplink_after(Status::Running, frame_events(frames)) == Status::Running,
    decreases frames.len(),
{
    if frames.len() > 0 {
        let rest = frames.drop_first();
        assert(!(frames[0] is Close));
        assert(no_close(rest)) by {
            assert forall|i: int| 0 <= i < rest.len() implies !(#[trigger] rest[i] is Close) by {
                assert(rest[i] == frames[i + 1]);
            }
        }
        assert(frame_events(frames).drop_first() =~= frame_events(rest));
        lemma_only_texts_written(rest);
        match frames.first() {
            FrameView::Text(text) => {
                let texts = seq![text] + texts_among(rest);
                assert(texts.first() == text);
                assert(texts.drop_first() =~= texts_among(rest));
            },
            _ => {
                assert(Seq::<u8>::empty() + lines_of(texts_among(rest)) =~= lines_of(
                    texts_among(rest),
                ));
            },
        }
    }
}

/// A stopped translator stays stopped and writes nothing, whatever arrives.
pub proof fn lemma_stopped_writes_nothing(status: Status, events: Seq<ClientEventView>)
    requires
        !(status is Running),
    ensures
        written(status, events) == Seq::<u8>::empty(),
        uplink_after(status, events) == status,
    decreases events.len(),
{
    if events.len() > 0 {
        lemma_stopped_writes_nothing(status, events.drop_first());
        assert(Seq::<u8>::empty() + Seq::<u8>::empty() =~= Seq::<u8>::empty());
    }
}

/// The translator from the client to the backend.
#[derive(Debug, Clone, Copy)]
pub struct Uplink {
    status: Status,
}

impl View for Uplink {
    type V = Status;

    closed spec fn view(&self) -> Status {
        self.status
    }
}

impl Uplink {
    /// A translator that is running.
    pub fn new() -> (uplink: Uplink)
        ensures
            uplink@ == Status::Running,
    {
        Uplink { status: Status::Running }
    }

    /// The state of the translator.
    pub fn status(&self) -> (status: Status)
        ensures
            status == self@,
    {
        self.status
    }

    /// Takes one event and says what to do about it.
    pub fn on_event(&mut self, event: &ClientEvent) -> (step: UplinkStep)
        ensures
            final(self)@ == uplink_next(old(self)@, event@),
            step@ == uplink_step(old(self)@, event@),
    {
        if !self.status.is_running() {
            return UplinkStep::Halt;
        }
        match event {
            ClientEvent::Frame(Frame::Text(text)) => UplinkStep::Write(encode_line(text.as_str())),
            ClientEvent::Frame(Frame::Close) => {
                self.status = Status::StoppedClean;
                UplinkStep::Halt
            },
            ClientEvent::Frame(_) => UplinkStep::Continue,
            ClientEvent::Ended => {
                self.status = Status::StoppedClean;
                UplinkStep::Halt
            },
            ClientEvent::ReadFailed => {
                self.status = Status::StoppedError(Fault::ClientRead);
                UplinkStep::Halt
            },
            ClientEvent::WriteFailed => {
                self.status = Status::StoppedError(Fault::BackendWrite);
                UplinkStep::Halt
            },
        }
    }

    /// Takes `events` in order and gives the bytes to write to the backend,
    /// in the order in which they are to be written.
    pub fn feed(&mut self, events: &Vec<ClientEvent>) -> (out: Vec<u8>)
        ensures
            out@ == written(old(self)@, event_views(events@)),
            final(self)@ == uplink_after(old(self)@, event_views(events@)),
    {
        let ghost all = event_views(events@);
        let ghost start = self@;
        let mut out: Vec<u8> = Vec::new();
        let n = events.len();
        let mut i: usize = 0;
        assert(all.skip(0) =~= all);
        assert(out@ + written(start, all) =~= written(start, all));
        while i < n
            invariant
                n == events@.len(),
                all == event_views(events@),
                0 <= i <= n,
                out@ + written(self@, all.skip(i as int)) == written(start, all),
                uplink_after(self@, all.skip(i as int)) == uplink_after(start, all),
            decreases n - i,
        {
            let ghost before = self@;
            let ghost rest = all.skip(i as int);
            let ghost so_far = out@;
            assert(rest.first() == events@[i as int]@);
            assert(rest.drop_first() == all.skip(i + 1));
            let step = self.on_event(&events[i]);
            match step {
                UplinkStep::Write(bytes) => {
                    let mut bytes = bytes;
                    out.append(&mut bytes);
                },
                _ => {},
            }
            assert(out@ == so_far + step_bytes(uplink_step(before, rest.first())));
            assert(out@ + written(self@, all.skip(i + 1)) == so_far + written(before, rest));
            i = i + 1;
        }
        assert(all.skip(n as int).len() == 0);
        out
    }
}

} // verus!
