//! The bridge: one client connection paired with one backend connection.
//!
//! A bridge runs the two translators side by side. The first of them to
//! stop, for whatever reason, ends the bridge: from then on nothing is
//! forwarded in either direction and both connections are to be released
//! together.

use crate::downlink::{
    all_newline_free, delivered, downlink_next, downlink_step, lemma_lines_delivered_in_order,
    sent, text_views, BackendEvent, BackendEventView, Downlink, DownlinkStep, DownlinkStepView,
};
use crate::frame::FrameView;
use crate::status::{Fault, Side, Status};
use crate::uplink::{
    lemma_texts_written_in_order, text_events, uplink_next, uplink_step, written, ClientEvent,
    ClientEventView, Uplink, UplinkStep, UplinkStepView,
};
use vstd::prelude::*;

verus! {

/// How a bridge ended.
#[derive(Debug, Clone, Copy, PartialEq, Eq, Structural)]
pub enum Outcome {
    /// This side closed or ended its stream: the normal end.
    Closed(Side),
    /// A read, a write or a decoding failed.
    Failed(Fault),
}

/// What happened on one of the two connections of a bridge.
#[derive(Debug, Clone, PartialEq, Eq)]
pub enum BridgeEvent {
    /// Something happened on the client's side.
    Client(ClientEvent),
    /// Something happened on the backend's side.
    Backend(BackendEvent),
}

/// The mathematical value of a [`BridgeEvent`].
pub enum BridgeEventView {
    Client(ClientEventView),
    Backend(BackendEventView),
}

impl View for BridgeEvent {
    type V = BridgeEventView;

    open spec fn view(&self) -> BridgeEventView {
        match self {
            BridgeEvent::Client(event) => BridgeEventView::Client(event@),
            BridgeEvent::Backend(event) => BridgeEventView::Backend(event@),
        }
    }
}

/// What the bridge asks for in answer to an event.
#[derive(Debug, Clone, PartialEq, Eq)]
pub enum Action {
    /// Write these bytes to the backend, all of them or none.
    WriteBackend(Vec<u8>),
    /// Send this text to the client as one text message.
    SendClient(String),
    /// Nothing to do: go on reading.
    Continue,
    /// The bridge has ended: release both connections.
    Finish(Outcome),
}

/// The mathematical value of an [`Action`].
pub enum ActionView {
    WriteBackend(Seq<u8>),
    SendClient(Seq<char>),
    Continue,
    Finish(Outcome),
}

impl View for Action {
    type V = ActionView;

    open spec fn view(&self) -> ActionView {
        match self {
            Action::WriteBackend(bytes) => ActionView::WriteBackend(bytes@),
            Action::SendClient(text) => ActionView::SendClient(text@),
            Action::Continue => ActionView::Continue,
            Action::Finish(outcome) => ActionView::Finish(*outcome),
        }
    }
}

/// The state of a bridge: the states of its two translators.
pub struct BridgeState {
    /// The translator from the client to the backend.
    pub uplink: Status,
    /// The translator from the backend to the client.
    pub downlink: Status,
}

/// How a translator that reads from `side` ended, if it has.
pub open spec fn stop_outcome(status: Status, side: Side) -> Option<Outcome> {
    match status {
        Status::Running => None,
        Status::StoppedClean => Some(Outcome::Closed(side)),
        Status::StoppedError(fault) => Some(Outcome::Failed(fault)),
    }
}

impl BridgeState {
    /// The state of a bridge that has just been set up.
    pub open spec fn fresh() -> BridgeState {
        BridgeState { uplink: Status::Running, downlink: Status::Running }
    }

    /// How the bridge ended, if it has: the way in which the first of its
    /// translators stopped.
    pub open spec fn outcome(self) -> Option<Outcome> {
        match stop_outcome(self.uplink, Side::Client) {
            Some(outcome) => Some(outcome),
            None => stop_outcome(self.downlink, Side::Backend),
        }
    }

    /// Whether at most one translator has stopped. The one that has not is
    /// left as it was when the bridge ended.
    pub open spec fn coherent(self) -> bool {
        self.uplink is Running || self.downlink is Running
    }
}

/// The state that follows `event`. A bridge that has ended stays as it is.
pub open spec fn bridge_next(state: BridgeState, event: BridgeEventView) -> BridgeState {
    if state.outcome() is Some {
        state
    } else {
        match event {
            BridgeEventView::Client(event) => BridgeState {
                uplink: uplink_next(state.uplink, event),
                downlink: state.downlink,
            },
            BridgeEventView::Backend(event) => BridgeState {
                uplink: state.uplink,
                downlink: downlink_next(state.downlink, event),
            },
        }
    }
}

/// What a running bridge forwards in answer to `event`, if anything.
pub open spec fn forwarded(state: BridgeState, event: BridgeEventView) -> Option<ActionView> {
    match event {
        BridgeEventView::Client(event) => match uplink_step(state.uplink, event) {
            UplinkStepView::Write(bytes) => Some(ActionView::WriteBackend(bytes)),
            _ => None,
        },
        BridgeEventView::Backend(event) => match downlink_step(state.downlink, event) {
            DownlinkStepView::Send(text) => Some(ActionView::SendClient(text)),
            _ => None,
        },
    }
}

/// The answer to `event`. A bridge that has ended answers every event with
/// the way it ended; a running bridge forwards what the event carries, ends
/// where the event stops a translator, and otherwise goes on.
pub open spec fn bridge_action(state: BridgeState, event: BridgeEventView) -> ActionView {
    match state.outcome() {
        Some(outcome) => ActionView::Finish(outcome),
        None => match forwarded(state, event) {
            Some(action) => action,
            None => match bridge_next(state, event).outcome() {
                Some(outcome) => ActionView::Finish(outcome),
                None => ActionView::Continue,
            },
        },
    }
}

/// The bytes that an action puts on the backend stream.
pub open spec fn backend_bytes(action: ActionView) -> Seq<u8> {
    match action {
        ActionView::WriteBackend(bytes) => bytes,
        _ => Seq::empty(),
    }
}

/// The text messages that an action sends to the client.
pub open spec fn client_texts(action: ActionView) -> Seq<Seq<char>> {
    match action {
        ActionView::SendClient(text) => seq![text],
        _ => Seq::empty(),
    }
}

/// The state of the bridge once `events` have arrived in order.
pub open spec fn state_after(state: BridgeState, events: Seq<BridgeEventView>) -> BridgeState
    decreases events.len(),
{
    if events.len() == 0 {
        state
    } else {
        state_after(bridge_next(state, events.first()), events.drop_first())
    }
}

/// The bytes written to the backend while `events` arrive in order.
pub open spec fn to_backend(state: BridgeState, events: Seq<BridgeEventView>) -> Seq<u8>
    decreases events.len(),
{
    if events.len() == 0 {
        Seq::empty()
    } else {
        backend_bytes(bridge_action(state, events.first())) + to_backend(
            bridge_next(state, events.first()),
            events.drop_first(),
        )
    }
}

/// The text messages sent to the client while `events` arrive in order.
pub open spec fn to_client(state: BridgeState, events: Seq<BridgeEventView>) -> Seq<Seq<char>>
    decreases events.len(),
{
    if events.len() == 0 {
        Seq::empty()
    } else {
        client_texts(bridge_action(state, events.first())) + to_client(
            bridge_next(state, events.first()),
            events.drop_first(),
        )
    }
}

/// The values of a sequence of events.
pub open spec fn bridge_event_views(events: Seq<BridgeEvent>) -> Seq<BridgeEventView> {
    events.map_values(|event: BridgeEvent| event@)
}

/// Whether `event` is the client closing its connection or ending its
/// stream.
pub open spec fn client_closes(event: BridgeEventView) -> bool {
    event == BridgeEventView::Client(ClientEventView::Frame(FrameView::Close)) || event
        == BridgeEventView::Client(ClientEventView::Ended)
}

/// Whether `event` is the backend ending its stream.
pub open spec fn backend_closes(event: BridgeEventView) -> bool {
    event == BridgeEventView::Backend(BackendEventView::Read(Seq::empty()))
}

/// The events of the client's side among `events`, in order.
pub open spec fn client_part(events: Seq<BridgeEventView>) -> Seq<ClientEventView>
    decreases events.len(),
{
    if events.len() == 0 {
        Seq::empty()
    } else {
        match events.first() {
            BridgeEventView::Client(event) => seq![event] + client_part(events.drop_first()),
            BridgeEventView::Backend(_) => client_part(events.drop_first()),
        }
    }
}

/// The events of the backend's side among `events`, in order.
pub open spec fn backend_part(events: Seq<BridgeEventView>) -> Seq<BackendEventView>
    decreases events.len(),
{
    if events.len() == 0 {
        Seq::empty()
    } else {
        match events.first() {
            BridgeEventView::Client(_) => backend_part(events.drop_first()),
            BridgeEventView::Backend(event) => seq![event] + backend_part(events.drop_first()),
        }
    }
}

/// One client connection paired with one backend connection.
#[derive(Debug, Clone, Copy)]
pub struct Bridge {
    uplink: Uplink,
    downlink: Downlink,
}

impl View for Bridge {
    type V = BridgeState;

    closed spec fn view(&self) -> BridgeState {
        BridgeState { uplink: self.uplink@, downlink: self.downlink@ }
    }
}

impl Bridge {
    /// A bridge over two connections that are both open: both translators
    /// run.
    pub fn new() -> (bridge: Bridge)
        ensures
            bridge@ == BridgeState::fresh(),
    {
        Bridge { uplink: Uplink::new(), downlink: Downlink::new() }
    }

    /// How the bridge ended, if it has.
    pub fn outcome(&self) -> (outcome: Option<Outcome>)
        ensures
            outcome == self@.outcome(),
    {
        match self.uplink.status() {
            Status::StoppedClean => Some(Outcome::Closed(Side::Client)),
            Status::StoppedError(fault) => Some(Outcome::Failed(fault)),
            Status::Running => match self.downlink.status() {
                Status::StoppedClean => Some(Outcome::Closed(Side::Backend)),
                Status::StoppedError(fault) => Some(Outcome::Failed(fault)),
                Status::Running => None,
            },
        }
    }

    /// Whether the bridge has ended.
    pub fn is_finished(&self) -> (finished: bool)
        ensures
            finished == (self@.outcome() is Some),
    {
        self.outcome().is_some()
    }

    /// Takes one event from the client's side and says what to do about it.
    pub fn on_client(&mut self, event: &ClientEvent) -> (action: Action)
        ensures
            final(self)@ == bridge_next(old(self)@, BridgeEventView::Client(event@)),
            action@ == bridge_action(old(self)@, BridgeEventView::Client(event@)),
    {
        if let Some(outcome) = self.outcome() {
            return Action::Finish(outcome);
        }
        match self.uplink.on_event(event) {
            UplinkStep::Write(bytes) => Action::WriteBackend(bytes),
            _ => match self.outcome() {
                Some(outcome) => Action::Finish(outcome),
                None => Action::Continue,
            },
        }
    }

    /// Takes one event from the backend's side and says what to do about it.
    pub fn on_backend(&mut self, event: &BackendEvent) -> (action: Action)
        ensures
            final(self)@ == bridge_next(old(self)@, BridgeEventView::Backend(event@)),
            action@ == bridge_action(old(self)@, BridgeEventView::Backend(event@)),
    {
        if let Some(outcome) = self.outcome() {
            return Action::Finish(outcome);
        }
        match self.downlink.on_event(event) {
            DownlinkStep::Send(text) => Action::SendClient(text),
            DownlinkStep::Halt => match self.outcome() {
                Some(outcome) => Action::Finish(outcome),
                None => Action::Continue,
            },
        }
    }

    /// Takes one event and says what to do about it.
    pub fn on_event(&mut self, event: &BridgeEvent) -> (action: Action)
        ensures
            final(self)@ == bridge_next(old(self)@, event@),
            action@ == bridge_action(old(self)@, event@),
    {
        match event {
            BridgeEvent::Client(event) => self.on_client(event),
            BridgeEvent::Backend(event) => self.on_backend(event),
        }
    }

    /// Takes `events` in order and gives what is forwarded meanwhile: the
    /// bytes to write to the backend and the texts to send to the client,
    /// each in the order in which they are to go out.
    pub fn run(&mut self, events: &Vec<BridgeEvent>) -> (traffic: (Vec<u8>, Vec<String>))
        ensures
            traffic.0@ == to_backend(old(self)@, bridge_event_views(events@)),
            text_views(traffic.1@) == to_client(old(self)@, bridge_event_views(events@)),
            final(self)@ == state_after(old(self)@, bridge_event_views(events@)),
    {
        let ghost all = bridge_event_views(events@);
        let ghost start = self@;
        let mut bytes: Vec<u8> = Vec::new();
        let mut texts: Vec<String> = Vec::new();
        let n = events.len();
        let mut i: usize = 0;
        assert(all.skip(0) =~= all);
        assert(bytes@ + to_backend(start, all) =~= to_backend(start, all));
        assert(text_views(texts@) + to_client(start, all) =~= to_client(start, all));
        while i < n
            invariant
                n == events@.len(),
                all == bridge_event_views(events@),
                0 <= i <= n,
                bytes@ + to_backend(self@, all.skip(i as int)) == to_backend(start, all),
                text_views(texts@) + to_client(self@, all.skip(i as int)) == to_client(
                    start,
                    all,
                ),
                state_after(self@, all.skip(i as int)) == state_after(start, all),
            decreases n - i,
        {
            let ghost before = self@;
            let ghost rest = all.skip(i as int);
            let ghost bytes_so_far = bytes@;
            let ghost texts_so_far = text_views(texts@);
            assert(rest.first() == events@[i as int]@);
            assert(rest.drop_first() == all.skip(i + 1));
            let action = self.on_event(&events[i]);
            let ghost done = action@;
            match action {
                Action::WriteBackend(chunk) => {
                    let mut chunk = chunk;
                    bytes.append(&mut chunk);
                },
                Action::SendClient(text) => {
                    texts.push(text);
                },
                _ => {},
            }
            assert(bytes@ =~= bytes_so_far + backend_bytes(done));
            assert(text_views(texts@) =~= texts_so_far + client_texts(done));
            assert(bytes@ + to_backend(self@, all.skip(i + 1)) =~= bytes_so_far + to_backend(
                before,
                rest,
            ));
            assert(text_views(texts@) + to_client(self@, all.skip(i + 1)) =~= texts_so_far
                + to_client(before, rest));
            i = i + 1;
        }
        assert(all.skip(n as int).len() == 0);
        assert(bytes@ + Seq::<u8>::empty() =~= bytes@);
        assert(text_views(texts@) + Seq::<Seq<char>>::empty() =~= text_views(texts@));
        (bytes, texts)
    }
}

/// The two translators never stop both: every step of a bridge in which at
/// most one translator has stopped leads to such a bridge again.
pub proof fn lemma_step_keeps_coherent(state: BridgeState, event: BridgeEventView)
    requires
        state.coherent(),
    ensures
        bridge_next(state, event).coherent(),
{
}

/// A bridge that has ended is ended for good: whatever arrives afterwards,
/// on either side, its state and the way it ended stay as they are and
/// nothing more goes out to the backend or to the client.
pub proof fn lemma_finished_is_final(state: BridgeState, events: Seq<BridgeEventView>)
    requires
        state.outcome() is Some,
    ensures
        state_after(state, events) == state,
        to_backend(state, events) == Seq::<u8>::empty(),
        to_client(state, events) == Seq::<Seq<char>>::empty(),
    decreases events.len(),
{
    if events.len() > 0 {
        lemma_finished_is_final(state, events.drop_first());
        assert(Seq::<u8>::empty() + Seq::<u8>::empty() =~= Seq::<u8>::empty());
        assert(Seq::<Seq<char>>::empty() + Seq::<Seq<char>>::empty() =~= Seq::<
            Seq<char>,
        >::empty());
    }
}

/// Either side ends the whole bridge: when the client closes or the backend
/// ends its stream, a running bridge ends at once, with that side named as
/// the one that closed, and needs nothing more from either side to stay
/// ended.
pub proof fn lemma_close_ends_bridge(
    state: BridgeState,
    event: BridgeEventView,
    later: Seq<BridgeEventView>,
)
    requires
        state.outcome() is None,
        client_closes(event) || backend_closes(event),
    ensures
        bridge_next(state, event).outcome() == Some(
            Outcome::Closed(
                if client_closes(event) {
                    Side::Client
                } else {
                    Side::Backend
                },
            ),
        ),
        bridge_action(state, event) == ActionView::Finish(
            bridge_next(state, event).outcome().unwrap(),
        ),
        state_after(bridge_next(state, event), later) == bridge_next(state, event),
        to_backend(bridge_next(state, event), later) == Seq::<u8>::empty(),
        to_client(bridge_next(state, event), later) == Seq::<Seq<char>>::empty(),
{
    lemma_finished_is_final(bridge_next(state, event), later);
}

/// Messages that are neither text nor close pass by: a running bridge
/// answers such a message of the client with nothing to do, writes nothing
/// to the backend for it and stays as it is.
pub proof fn lemma_other_frames_pass(state: BridgeState, frame: FrameView)
    requires
        state.outcome() is None,
        !(frame is Text),
        !(frame is Close),
    ensures
        bridge_next(state, BridgeEventView::Client(ClientEventView::Frame(frame))) == state,
        bridge_action(state, BridgeEventView::Client(ClientEventView::Frame(frame)))
            == ActionView::Continue,
{
}

/// The two directions do not disturb each other: as long as the bridge
/// runs, however the events of the two sides are interleaved, the backend is
/// written what the translator from the client would write on the client's
/// events alone, and the client is sent what the translator from the backend
/// would send on the backend's events alone, each in its own order.
pub proof fn lemma_directions_are_independent(events: Seq<BridgeEventView>)
    requires
        state_after(BridgeState::fresh(), events).outcome() is None,
    ensures
        to_backend(BridgeState::fresh(), events) == written(
            Status::Running,
            client_part(events),
        ),
        to_client(BridgeState::fresh(), events) == sent(Status::Running, backend_part(events)),
    decreases events.len(),
{
    let fresh = BridgeState::fresh();
    if events.len() > 0 {
        let event = events.first();
        let rest = events.drop_first();
        let next = bridge_next(fresh, event);
        if next.outcome() is Some {
            lemma_finished_is_final(next, rest);
        }
        assert(next == fresh);
        lemma_directions_are_independent(rest);
        match event {
            BridgeEventView::Client(e) => {
                let part = seq![e] + client_part(rest);
                assert(part.first() == e);
                assert(part.drop_first() =~= client_part(rest));
                assert(to_client(fresh, events) =~= to_client(fresh, rest));
            },
            BridgeEventView::Backend(e) => {
                let part = seq![e] + backend_part(rest);
                assert(part.first() == e);
                assert(part.drop_first() =~= backend_part(rest));
                assert(to_backend(fresh, events) =~= to_backend(fresh, rest));
            },
        }
    }
}

/// A text makes the round trip unchanged: the lines written to the backend
/// for texts of the client that hold no newline, sent back by the backend as
/// they are, arrive at the client as the same texts.
pub proof fn lemma_round_trip(texts: Seq<Seq<char>>)
    requires
        all_newline_free(texts),
    ensures
        delivered(written(Status::Running, text_events(texts))) == texts,
{
    lemma_texts_written_in_order(texts);
    lemma_lines_delivered_in_order(texts);
}

} // verus!
