//! How a translator stands, and why it stopped.

use vstd::prelude::*;

verus! {

/// One of the two connections that a bridge pairs.
#[derive(Debug, Clone, Copy, PartialEq, Eq, Structural)]
pub enum Side {
    /// The WebSocket connection of the client.
    Client,
    /// The byte stream of the backend.
    Backend,
}

/// The failure that stopped a translator.
#[derive(Debug, Clone, Copy, PartialEq, Eq, Structural)]
pub enum Fault {
    /// Reading the next message from the client failed.
    ClientRead,
    /// Writing a line to the backend failed.
    BackendWrite,
    /// Reading the next line from the backend failed.
    BackendRead,
    /// A line of the backend was not well-formed UTF-8.
    BackendText,
    /// Sending a message to the client failed.
    ClientSend,
}

/// The state of a translator. Both stopped states are final.
#[derive(Debug, Clone, Copy, PartialEq, Eq, Structural)]
pub enum Status {
    /// The translator forwards what it is given.
    Running,
    /// The source closed or ended.
    StoppedClean,
    /// A read, a write or a decoding failed.
    StoppedError(Fault),
}

impl Fault {
    /// The connection on which the failure arose.
    pub open spec fn spec_side(self) -> Side {
        match self {
            Fault::ClientRead | Fault::ClientSend => Side::Client,
            Fault::BackendWrite | Fault::BackendRead | Fault::BackendText => Side::Backend,
        }
    }

    /// The connection on which the failure arose.
    #[verifier::when_used_as_spec(spec_side)]
    pub fn side(self) -> (side: Side)
        ensures
            side == self.spec_side(),
    {
        match self {
            Fault::ClientRead | Fault::ClientSend => Side::Client,
            Fault::BackendWrite | Fault::BackendRead | Fault::BackendText => Side::Backend,
        }
    }
}

impl Status {
    /// Whether the translator still forwards.
    pub open spec fn spec_is_running(self) -> bool {
        self is Running
    }

    /// Whether the translator still forwards.
    #[verifier::when_used_as_spec(spec_is_running)]
    pub fn is_running(self) -> (r: bool)
        ensures
            r == self.spec_is_running(),
    {
        match self {
            Status::Running => true,
            _ => false,
        }
    }
}

} // verus!
