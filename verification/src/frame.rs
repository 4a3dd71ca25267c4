//! What a connection and the code above it hand to each other.

use vstd::prelude::*;
use crate::error::Error;

verus! {

/// The outcome of an operation that never blocks.
#[derive(Debug, Clone, Copy, PartialEq, Eq)]
pub enum Async<T> {
    /// The operation made progress.
    Ready(T),
    /// The operation has to wait for the transport.
    NotReady,
}

impl<T> Async<T> {
    /// Whether this is `Ready`.
    pub fn is_ready(&self) -> (r: bool)
        ensures
            r == (self is Ready),
    {
        match self {
            Async::Ready(_) => true,
            Async::NotReady => false,
        }
    }
}

/// One step of a conversation: a head, a piece of a body, an error or the
/// end.
#[derive(Debug, Clone, PartialEq, Eq)]
pub enum Frame<T> {
    /// A message head; `body` says whether body frames follow.
    Message { message: T, body: bool },
    /// A piece of the body, or with `None` its end.
    Body { chunk: Option<Vec<u8>> },
    /// The conversation broke.
    Error { error: Error },
    /// The connection is over.
    Done,
}

/// A frame, as plain values.
pub enum FrameView<V> {
    Message { message: V, body: bool },
    Body { chunk: Option<Seq<u8>> },
    Error { error: Error },
    Done,
}

impl<T: View> View for Frame<T> {
    type V = FrameView<T::V>;

    open spec fn view(&self) -> FrameView<T::V> {
        match self {
            Frame::Message { message, body } => FrameView::Message {
                message: message@,
                body: *body,
            },
            Frame::Body { chunk } => FrameView::Body {
                chunk: match chunk {
                    Some(c) => Some(c@),
                    None => None,
                },
            },
            Frame::Error { error } => FrameView::Error { error: *error },
            Frame::Done => FrameView::Done,
        }
    }
}

/// The view of what a read hands back.
pub open spec fn async_view<T: View>(a: Async<Frame<T>>) -> Async<FrameView<T::V>> {
    match a {
        Async::Ready(f) => Async::Ready(f@),
        Async::NotReady => Async::NotReady,
    }
}

} // verus!
