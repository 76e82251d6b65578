//! The translator from the backend to the client: every complete line of
//! the backend stream becomes one text message.

use crate::line::{
    lemma_first_line, lemma_line_end_bounds, lemma_line_end_shift, lemma_line_end_without_newline,
    line_end, line_of, lines_of, newline_free, next_line_end, no_newline_byte, read_line,
    reading_of, Reading, ReadingView,
};
use crate::status::{Fault, Status};
use vstd::prelude::*;
use vstd::slice::slice_subrange;

verus! {

/// What happened on the backend's side of a bridge.
#[derive(Debug, Clone, PartialEq, Eq)]
pub enum BackendEvent {
    /// One read of a line gave these bytes: everything up to and including
    /// the next newline, or what was left before the stream ended, which is
    /// nothing once the stream has ended.
    Read(Vec<u8>),
    /// Reading the next line failed.
    ReadFailed,
    /// A send that the translator asked for failed.
    SendFailed,
}

/// The mathematical value of a [`BackendEvent`].
pub enum BackendEventView {
    Read(Seq<u8>),
    ReadFailed,
    SendFailed,
}

impl View for BackendEvent {
    type V = BackendEventView;

    open spec fn view(&self) -> BackendEventView {
        match self {
            BackendEvent::Read(chunk) => BackendEventView::Read(chunk@),
            BackendEvent::ReadFailed => BackendEventView::ReadFailed,
            BackendEvent::SendFailed => BackendEventView::SendFailed,
        }
    }
}

/// What the translator asks for in answer to an event.
#[derive(Debug, Clone, PartialEq, Eq)]
pub enum DownlinkStep {
    /// Send this text to the client as one text message.
    Send(String),
    /// The translator has stopped.
    Halt,
}

/// The mathematical value of a [`DownlinkStep`].
pub enum DownlinkStepView {
    Send(Seq<char>),
    Halt,
}

impl View for DownlinkStep {
    type V = DownlinkStepView;

    open spec fn view(&self) -> DownlinkStepView {
        match self {
            DownlinkStep::Send(text) => DownlinkStepView::Send(text@),
            DownlinkStep::Halt => DownlinkStepView::Halt,
        }
    }
}

/// The state in which a reading leaves a running translator. The end of
/// the stream stops it cleanly, and so does a last line that lacks its
/// newline: such a line is not delivered.
pub open spec fn status_of_reading(reading: ReadingView) -> Status {
    match reading {
        ReadingView::Line(_) => Status::Running,
        ReadingView::End => Status::StoppedClean,
        ReadingView::Unterminated => Status::StoppedClean,
        ReadingView::Malformed => Status::StoppedError(Fault::BackendText),
    }
}

/// The state that follows `event`. A stopped translator stays as it is.
pub open spec fn downlink_next(status: Status, event: BackendEventView) -> Status {
    if status is Running {
        match event {
            BackendEventView::Read(chunk) => status_of_reading(reading_of(chunk)),
            BackendEventView::ReadFailed => Status::StoppedError(Fault::BackendRead),
            BackendEventView::SendFailed => Status::StoppedError(Fault::ClientSend),
        }
    } else {
        status
    }
}

/// The answer to `event`. Only a complete, well-formed line given to a
/// running translator is sent on.
pub open spec fn downlink_step(status: Status, event: BackendEventView) -> DownlinkStepView {
    if status is Running {
        match event {
            BackendEventView::Read(chunk) => match reading_of(chunk) {
                ReadingView::Line(text) => DownlinkStepView::Send(text),
                _ => DownlinkStepView::Halt,
            },
            _ => DownlinkStepView::Halt,
        }
    } else {
        DownlinkStepView::Halt
    }
}

/// The text messages that a step sends to the client.
pub open spec fn step_texts(step: DownlinkStepView) -> Seq<Seq<char>> {
    match step {
        DownlinkStepView::Send(text) => seq![text],
        DownlinkStepView::Halt => Seq::empty(),
    }
}

/// The text messages sent to the client while `events` arrive in order.
pub open spec fn sent(status: Status, events: Seq<BackendEventView>) -> Seq<Seq<char>>
    decreases events.len(),
{
    if events.len() == 0 {
        Seq::empty()
    } else {
        step_texts(downlink_step(status, events.first())) + sent(
            downlink_next(status, events.first()),
            events.drop_first(),
        )
    }
}

/// The state of the translator once `events` have arrived in order.
pub open spec fn downlink_after(status: Status, events: Seq<BackendEventView>) -> Status
    decreases events.len(),
{
    if events.len() == 0 {
        status
    } else {
        downlink_after(downlink_next(status, events.first()), events.drop_first())
    }
}

/// The values of a sequence of events.
pub open spec fn backend_event_views(events: Seq<BackendEvent>) -> Seq<BackendEventView> {
    events.map_values(|event: BackendEvent| event@)
}

/// The bytes of the first read of a stream.
pub open spec fn first_read(stream: Seq<u8>) -> Seq<u8> {
    stream.take(line_end(stream, 0))
}

/// What is left of a stream behind its first read.
pub open spec fn after_first_read(stream: Seq<u8>) -> Seq<u8> {
    stream.skip(line_end(stream, 0))
}

/// The texts delivered to the client when a running translator reads
/// `stream` line by line to its end.
pub open spec fn delivered(stream: Seq<u8>) -> Seq<Seq<char>>
    decreases stream.len(),
    via delivered_decreases
{
    if stream.len() == 0 {
        Seq::empty()
    } else {
        match reading_of(first_read(stream)) {
            ReadingView::Line(text) => seq![text] + delivered(after_first_read(stream)),
            _ => Seq::empty(),
        }
    }
}

#[via_fn]
proof fn delivered_decreases(stream: Seq<u8>) {
    if stream.len() > 0 {
        lemma_line_end_bounds(stream, 0);
    }
}

/// The state in which a running translator ends up when it reads `stream`
/// line by line to its end.
pub open spec fn status_at_end(stream: Seq<u8>) -> Status
    decreases stream.len(),
    via status_at_end_decreases
{
    if stream.len() == 0 {
        Status::StoppedClean
    } else {
        match reading_of(first_read(stream)) {
            ReadingView::Line(_) => status_at_end(after_first_read(stream)),
            reading => status_of_reading(reading),
        }
    }
}

#[via_fn]
proof fn status_at_end_decreases(stream: Seq<u8>) {
    if stream.len() > 0 {
        lemma_line_end_bounds(stream, 0);
    }
}

/// The reads that a line reader makes of `stream`, through the empty read
/// that tells of its end.
pub open spec fn reads_of(stream: Seq<u8>) -> Seq<BackendEventView>
    decreases stream.len(),
    via reads_of_decreases
{
    if stream.len() == 0 {
        seq![BackendEventView::Read(Seq::empty())]
    } else {
        seq![BackendEventView::Read(first_read(stream))] + reads_of(after_first_read(stream))
    }
}

#[via_fn]
proof fn reads_of_decreases(stream: Seq<u8>) {
    if stream.len() > 0 {
        lemma_line_end_bounds(stream, 0);
    }
}

/// A stopped translator stays stopped and sends nothing, whatever arrives.
pub proof fn lemma_stopped_sends_nothing(status: Status, events: Seq<BackendEventView>)
    requires
        !(status is Running),
    ensures
        sent(status, events) == Seq::<Seq<char>>::empty(),
        downlink_after(status, events) == status,
    decreases events.len(),
{
    if events.len() > 0 {
        lemma_stopped_sends_nothing(status, events.drop_first());
        assert(Seq::<Seq<char>>::empty() + Seq::<Seq<char>>::empty() =~= Seq::<
            Seq<char>,
        >::empty());
    }
}

/// Reading a stream is taking its reads one by one: what a running
/// translator delivers of a stream, and how it ends up, is what it sends and
/// how it ends up when the reads of the stream arrive in order.
pub proof fn lemma_stream_is_its_reads(stream: Seq<u8>)
    ensures
        delivered(stream) == sent(Status::Running, reads_of(stream)),
        status_at_end(stream) == downlink_after(Status::Running, reads_of(stream)),
    decreases stream.len(),
{
    let reads = reads_of(stream);
    if stream.len() == 0 {
        let end = BackendEventView::Read(Seq::empty());
        let none = Seq::<BackendEventView>::empty();
        assert(reads.first() == end);
        assert(reads.drop_first() =~= none);
        assert(sent(Status::StoppedClean, none) =~= Seq::<Seq<char>>::empty());
        assert(downlink_after(Status::StoppedClean, none) == Status::StoppedClean);
        assert(sent(Status::Running, reads) =~= Seq::<Seq<char>>::empty());
    } else {
        lemma_line_end_bounds(stream, 0);
        let rest = after_first_read(stream);
        assert(reads.first() == BackendEventView::Read(first_read(stream)));
        assert(reads.drop_first() =~= reads_of(rest));
        match reading_of(first_read(stream)) {
            ReadingView::Line(text) => {
                lemma_stream_is_its_reads(rest);
            },
            reading => {
                lemma_stopped_sends_nothing(status_of_reading(reading), reads_of(rest));
                assert(sent(Status::Running, reads) =~= Seq::<Seq<char>>::empty());
            },
        }
    }
}

/// Whether no text of `texts` holds a newline character.
pub open spec fn all_newline_free(texts: Seq<Seq<char>>) -> bool {
    forall|i: int| 0 <= i < texts.len() ==> newline_free(#[trigger] texts[i])
}

/// Lines arrive as they were sent, and a last line that lacks its newline
/// never arrives: when the backend sends the lines of `texts`, none of which
/// holds a newline, and then `partial` without a newline before its stream
/// ends, the client is sent exactly `texts`, in order and each once, and the
/// translator stops cleanly.
pub proof fn lemma_partial_line_dropped(texts: Seq<Seq<char>>, partial: Seq<u8>)
    requires
        all_newline_free(texts),
        no_newline_byte(partial),
    ensures
        delivered(lines_of(texts) + partial) == texts,
        status_at_end(lines_of(texts) + partial) == Status::StoppedClean,
    decreases texts.len(),
{
    let stream = lines_of(texts) + partial;
    if texts.len() == 0 {
        assert(stream =~= partial);
        if partial.len() > 0 {
            lemma_line_end_without_newline(partial, 0);
            assert(first_read(partial) =~= partial);
        }
        assert(delivered(stream) =~= texts);
    } else {
        let head = texts.first();
        let tail = texts.drop_first();
        let rest = lines_of(tail) + partial;
        assert(newline_free(head));
        assert(all_newline_free(tail)) by {
            assert forall|i: int| 0 <= i < tail.len() implies newline_free(#[trigger] tail[i]) by {
                assert(tail[i] == texts[i + 1]);
            }
        }
        assert(stream =~= line_of(head) + rest);
        lemma_first_line(head, rest);
        assert(first_read(stream) == line_of(head));
        assert(after_first_read(stream) == rest);
        lemma_partial_line_dropped(tail, partial);
        assert(seq![head] + tail =~= texts);
    }
}

/// Lines arrive as they were sent: when the backend sends the lines of
/// `texts`, none of which holds a newline, and then ends its stream, the
/// client is sent exactly `texts`, in order and each once.
pub proof fn lemma_lines_delivered_in_order(texts: Seq<Seq<char>>)
    requires
        all_newline_free(texts),
    ensures
        delivered(lines_of(texts)) == texts,
        status_at_end(lines_of(texts)) == Status::StoppedClean,
{
    lemma_partial_line_dropped(texts, Seq::empty());
    assert(lines_of(texts) + Seq::<u8>::empty() =~= lines_of(texts));
}

/// The values of a sequence of texts.
pub open spec fn text_views(texts: Seq<String>) -> Seq<Seq<char>> {
    texts.map_values(|text: String| text@)
}

/// The translator from the backend to the client.
#[derive(Debug, Clone, Copy)]
pub struct Downlink {
    status: Status,
}

impl View for Downlink {
    type V = Status;

    closed spec fn view(&self) -> Status {
        self.status
    }
}

impl Downlink {
    /// A translator that is running.
    pub fn new() -> (downlink: Downlink)
        ensures
            downlink@ == Status::Running,
    {
        Downlink { status: Status::Running }
    }

    /// The state of the translator.
    pub fn status(&self) -> (status: Status)
        ensures
            status == self@,
    {
        self.status
    }

    /// Takes the bytes of one read and says what to do about them.
    pub fn on_read(&mut self, chunk: &[u8]) -> (step: DownlinkStep)
        ensures
            final(self)@ == downlink_next(old(self)@, BackendEventView::Read(chunk@)),
            step@ == downlink_step(old(self)@, BackendEventView::Read(chunk@)),
    {
        if !self.status.is_running() {
            return DownlinkStep::Halt;
        }
        match read_line(chunk) {
            Reading::Line(text) => DownlinkStep::Send(text),
            Reading::End => {
                self.status = Status::StoppedClean;
                DownlinkStep::Halt
            },
            Reading::Unterminated => {
                self.status = Status::StoppedClean;
                DownlinkStep::Halt
            },
            Reading::Malformed => {
                self.status = Status::StoppedError(Fault::BackendText);
                DownlinkStep::Halt
            },
        }
    }

    /// Takes one event and says what to do about it.
    pub fn on_event(&mut self, event: &BackendEvent) -> (step: DownlinkStep)
        ensures
            final(self)@ == downlink_next(old(self)@, event@),
            step@ == downlink_step(old(self)@, event@),
    {
        match event {
            BackendEvent::Read(chunk) => self.on_read(chunk.as_slice()),
            BackendEvent::ReadFailed => {
                if self.status.is_running() {
                    self.status = Status::StoppedError(Fault::BackendRead);
                }
                DownlinkStep::Halt
            },
            BackendEvent::SendFailed => {
                if self.status.is_running() {
                    self.status = Status::StoppedError(Fault::ClientSend);
                }
                DownlinkStep::Halt
            },
        }
    }

    /// Takes `events` in order and gives the texts to send to the client,
    /// in the order in which they are to be sent.
    pub fn feed(&mut self, events: &Vec<BackendEvent>) -> (texts: Vec<String>)
        ensures
            text_views(texts@) == sent(old(self)@, backend_event_views(events@)),
            final(self)@ == downlink_after(old(self)@, backend_event_views(events@)),
    {
        let ghost all = backend_event_views(events@);
        let ghost start = self@;
        let mut texts: Vec<String> = Vec::new();
        let n = events.len();
        let mut i: usize = 0;
        assert(all.skip(0) =~= all);
        assert(text_views(texts@) + sent(start, all) =~= sent(start, all));
        while i < n
            invariant
                n == events@.len(),
                all == backend_event_views(events@),
                0 <= i <= n,
                text_views(texts@) + sent(self@, all.skip(i as int)) == sent(start, all),
                downlink_after(self@, all.skip(i as int)) == downlink_after(start, all),
            decreases n - i,
        {
            let ghost before = self@;
            let ghost rest = all.skip(i as int);
            let ghost so_far = text_views(texts@);
            assert(rest.first() == events@[i as int]@);
            assert(rest.drop_first() == all.skip(i + 1));
            let step = self.on_event(&events[i]);
            let ghost done = step@;
            match step {
                DownlinkStep::Send(text) => {
                    texts.push(text);
                },
                DownlinkStep::Halt => {},
            }
            assert(text_views(texts@) =~= so_far + step_texts(done));
            assert(text_views(texts@) + sent(self@, all.skip(i + 1)) =~= so_far + sent(
                before,
                rest,
            ));
            i = i + 1;
        }
        assert(all.skip(n as int).len() == 0);
        assert(text_views(texts@) + Seq::<Seq<char>>::empty() =~= text_views(texts@));
        texts
    }

    /// Reads the whole of `stream`, line by line and through its end, and
    /// gives the texts to send to the client, in order. A translator that
    /// has stopped reads nothing.
    pub fn drain(&mut self, stream: &[u8]) -> (texts: Vec<String>)
        ensures
            old(self)@ is Running ==> text_views(texts@) == delivered(stream@) && final(self)@
                == status_at_end(stream@),
            !(old(self)@ is Running) ==> texts@.len() == 0 && final(self)@ == old(self)@,
    {
        let mut texts: Vec<String> = Vec::new();
        if !self.status.is_running() {
            return texts;
        }
        let n = stream.len();
        let mut pos: usize = 0;
        assert(stream@.skip(0) =~= stream@);
        assert(text_views(texts@) + delivered(stream@) =~= delivered(stream@));
        while self.status.is_running()
            invariant
                n == stream@.len(),
                pos <= n,
                self@ is Running ==> text_views(texts@) + delivered(stream@.skip(pos as int))
                    == delivered(stream@) && status_at_end(stream@.skip(pos as int))
                    == status_at_end(stream@),
                !(self@ is Running) ==> text_views(texts@) == delivered(stream@) && self@
                    == status_at_end(stream@),
            decreases n - pos + (if self@ is Running { 1int } else { 0int }),
        {
            let ghost so_far = text_views(texts@);
            let ghost tail = stream@.skip(pos as int);
            let end = next_line_end(stream, pos);
            proof {
                lemma_line_end_shift(stream@, pos as int, 0);
                if pos < n {
                    lemma_line_end_bounds(stream@, pos as int);
                }
                assert(stream@.subrange(pos as int, end as int) =~= first_read(tail));
                assert(stream@.skip(end as int) =~= after_first_read(tail));
            }
            let chunk = slice_subrange(stream, pos, end);
            match self.on_read(chunk) {
                DownlinkStep::Send(text) => {
                    let ghost sent = text@;
                    texts.push(text);
                    assert(text_views(texts@) =~= so_far + seq![sent]);
                    assert(so_far + seq![sent] + delivered(stream@.skip(end as int)) =~= so_far
                        + (seq![sent] + delivered(stream@.skip(end as int))));
                },
                DownlinkStep::Halt => {
                    assert(so_far + Seq::<Seq<char>>::empty() =~= so_far);
                },
            }
            pos = end;
        }
        texts
    }
}

} // verus!
