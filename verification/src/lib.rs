//! The core of a relay that bridges a WebSocket client to a backend which
//! speaks a newline-delimited text protocol over a byte stream.
//!
//! The crate performs no input or output. It holds the decisions of the
//! relay as state machines: the caller reads and writes, reports what
//! happened as events, and is told what to do next.
//!
//! - [`line`] frames texts as lines and reads lines back.
//! - [`uplink`] turns the client's text messages into lines.
//! - [`downlink`] turns the backend's lines into text messages.
//! - [`bridge`] pairs the two and ends both when either stops.
//! - [`accept`] sets a bridge up once both connections are open.
//! - [`config`] makes up the addresses to listen on and to connect to.

pub mod accept;
pub mod bridge;
pub mod config;
pub mod downlink;
pub mod frame;
pub mod line;
pub mod status;
pub mod uplink;
