//! Setting a bridge up: the handshake with the client comes first, then the
//! connection to the backend, and only when both stand does a bridge start.

use crate::bridge::{Bridge, BridgeState};
use vstd::prelude::*;

verus! {

/// Why no bridge was started.
#[derive(Debug, Clone, Copy, PartialEq, Eq, Structural)]
pub enum SetupFailure {
    /// The WebSocket handshake with the client failed.
    Handshake,
    /// The backend could not be reached.
    BackendConnect,
}

/// How far the setting up has come.
#[derive(Debug, Clone, Copy, PartialEq, Eq, Structural)]
pub enum Stage {
    /// The handshake with the client is under way.
    Handshaking,
    /// The client is connected and the backend is being connected.
    Connecting,
    /// Both connections are open: the bridge runs.
    Bridging,
    /// The attempt was given up, and no bridge ever ran.
    Abandoned(SetupFailure),
}

/// What happened while a bridge was being set up.
#[derive(Debug, Clone, Copy, PartialEq, Eq, Structural)]
pub enum SetupEvent {
    /// The handshake with the client succeeded.
    HandshakeDone,
    /// The handshake with the client failed.
    HandshakeFailed,
    /// The connection to the backend stands.
    BackendConnected,
    /// The backend refused the connection, or could not be reached.
    BackendRefused,
}

/// What to do next while a bridge is being set up.
#[derive(Debug, Clone, Copy, PartialEq, Eq, Structural)]
pub enum SetupAction {
    /// Open the connection to the backend.
    ConnectBackend,
    /// Both connections are open: run the bridge.
    RunBridge,
    /// Give the attempt up and release what was opened. Nothing is retried.
    Abandon(SetupFailure),
    /// The event does not belong to this stage: nothing to do.
    Nothing,
}

/// The stage that follows `event`.
pub open spec fn setup_next(stage: Stage, event: SetupEvent) -> Stage {
    match (stage, event) {
        (Stage::Handshaking, SetupEvent::HandshakeDone) => Stage::Connecting,
        (Stage::Handshaking, SetupEvent::HandshakeFailed) => Stage::Abandoned(
            SetupFailure::Handshake,
        ),
        (Stage::Connecting, SetupEvent::BackendConnected) => Stage::Bridging,
        (Stage::Connecting, SetupEvent::BackendRefused) => Stage::Abandoned(
            SetupFailure::BackendConnect,
        ),
        _ => stage,
    }
}

/// The answer to `event`.
pub open spec fn setup_action(stage: Stage, event: SetupEvent) -> SetupAction {
    match (stage, event) {
        (Stage::Handshaking, SetupEvent::HandshakeDone) => SetupAction::ConnectBackend,
        (Stage::Handshaking, SetupEvent::HandshakeFailed) => SetupAction::Abandon(
            SetupFailure::Handshake,
        ),
        (Stage::Connecting, SetupEvent::BackendConnected) => SetupAction::RunBridge,
        (Stage::Connecting, SetupEvent::BackendRefused) => SetupAction::Abandon(
            SetupFailure::BackendConnect,
        ),
        _ => SetupAction::Nothing,
    }
}

/// The stage reached from `stage` once `events` have arrived in order.
pub open spec fn stage_after(stage: Stage, events: Seq<SetupEvent>) -> Stage
    decreases events.len(),
{
    if events.len() == 0 {
        stage
    } else {
        stage_after(setup_next(stage, events.first()), events.drop_first())
    }
}

/// The setting up of one bridge for one incoming connection.
#[derive(Debug, Clone, Copy)]
pub struct Acceptor {
    stage: Stage,
}

impl View for Acceptor {
    type V = Stage;

    closed spec fn view(&self) -> Stage {
        self.stage
    }
}

impl Acceptor {
    /// The setting up of a bridge for a connection that has just come in.
    pub fn new() -> (acceptor: Acceptor)
        ensures
            acceptor@ == Stage::Handshaking,
    {
        Acceptor { stage: Stage::Handshaking }
    }

    /// How far the setting up has come.
    pub fn stage(&self) -> (stage: Stage)
        ensures
            stage == self@,
    {
        self.stage
    }

    /// Takes one event and says what to do next.
    pub fn on_event(&mut self, event: SetupEvent) -> (action: SetupAction)
        ensures
            final(self)@ == setup_next(old(self)@, event),
            action == setup_action(old(self)@, event),
    {
        match (self.stage, event) {
            (Stage::Handshaking, SetupEvent::HandshakeDone) => {
                self.stage = Stage::Connecting;
                SetupAction::ConnectBackend
            },
            (Stage::Handshaking, SetupEvent::HandshakeFailed) => {
                self.stage = Stage::Abandoned(SetupFailure::Handshake);
                SetupAction::Abandon(SetupFailure::Handshake)
            },
            (Stage::Connecting, SetupEvent::BackendConnected) => {
                self.stage = Stage::Bridging;
                SetupAction::RunBridge
            },
            (Stage::Connecting, SetupEvent::BackendRefused) => {
                self.stage = Stage::Abandoned(SetupFailure::BackendConnect);
                SetupAction::Abandon(SetupFailure::BackendConnect)
            },
            _ => SetupAction::Nothing,
        }
    }

    /// The bridge to run: a fresh one once both connections are open, and
    /// none before that or after the attempt was given up.
    pub fn bridge(&self) -> (bridge: Option<Bridge>)
        ensures
            bridge is Some <==> self@ == Stage::Bridging,
            bridge matches Some(b) ==> b@ == BridgeState::fresh(),
    {
        match self.stage {
            Stage::Bridging => Some(Bridge::new()),
            _ => None,
        }
    }
}

/// An attempt that was given up stays given up: whatever arrives afterwards,
/// no bridge is started for it.
pub proof fn lemma_abandoned_is_final(failure: SetupFailure, events: Seq<SetupEvent>)
    ensures
        stage_after(Stage::Abandoned(failure), events) == Stage::Abandoned(failure),
    decreases events.len(),
{
    if events.len() > 0 {
        lemma_abandoned_is_final(failure, events.drop_first());
    }
}

/// A bridge starts only behind both connections: the one step that leads to
/// a running bridge is the backend connecting after the handshake was done.
pub proof fn lemma_bridge_needs_both(stage: Stage, event: SetupEvent)
    requires
        stage != Stage::Bridging,
        setup_next(stage, event) == Stage::Bridging,
    ensures
        stage == Stage::Connecting,
        event == SetupEvent::BackendConnected,
        setup_action(stage, event) == SetupAction::RunBridge,
{
}

} // verus!
