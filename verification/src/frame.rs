//! The messages carried by the client connection.

use vstd::prelude::*;

verus! {

/// One message of the client connection.
#[derive(Debug, Clone, PartialEq, Eq)]
pub enum Frame {
    /// A text message.
    Text(String),
    /// A binary message.
    Binary(Vec<u8>),
    /// A ping control message.
    Ping(Vec<u8>),
    /// A pong control message.
    Pong(Vec<u8>),
    /// The close control message.
    Close,
}

/// The mathematical value of a [`Frame`].
pub enum FrameView {
    Text(Seq<char>),
    Binary(Seq<u8>),
    Ping(Seq<u8>),
    Pong(Seq<u8>),
    Close,
}

impl View for Frame {
    type V = FrameView;

    open spec fn view(&self) -> FrameView {
        match self {
            Frame::Text(s) => FrameView::Text(s@),
            Frame::Binary(b) => FrameView::Binary(b@),
            Frame::Ping(b) => FrameView::Ping(b@),
            Frame::Pong(b) => FrameView::Pong(b@),
            Frame::Close => FrameView::Close,
        }
    }
}

impl Frame {
    /// Whether this is a text message.
    pub fn is_text(&self) -> (r: bool)
        ensures
            r == (self@ is Text),
    {
        match self {
            Frame::Text(_) => true,
            _ => false,
        }
    }

    /// Whether this is the close message.
    pub fn is_close(&self) -> (r: bool)
        ensures
            r == (self@ is Close),
    {
        match self {
            Frame::Close => true,
            _ => false,
        }
    }
}

} // verus!
