//! Parsed SSE frames: an event, a comment, or a retry directive.

use vstd::prelude::*;

verus! {

/// An SSE event: the name of the event, its payload, and an optional id that
/// clients record and send back as `Last-Event-ID` on reconnection.
#[derive(Debug, Clone, PartialEq, Eq)]
pub struct Event {
    /// The last non-empty `id:` value seen before this event was dispatched,
    /// or `None` when no `id:` field was ever set.
    pub id: Option<Vec<u8>>,
    /// The value of the last `event:` field, or `message` when none was set.
    pub name: Vec<u8>,
    /// The values of all `data:` fields of this event, joined by `\n`.
    pub data: Vec<u8>,
}

/// A parsed frame from an SSE stream.
#[derive(Debug, Clone, PartialEq, Eq)]
pub enum Frame {
    /// A `: comment` line; ignored by clients, useful as a keepalive.
    Comment(Vec<u8>),
    /// A dispatched event.
    Event(Event),
    /// The server-suggested minimum reconnect delay, in milliseconds.
    Retry(u128),
}

/// Mathematical image of an [`Event`].
pub ghost struct EventView {
    pub id: Option<Seq<u8>>,
    pub name: Seq<u8>,
    pub data: Seq<u8>,
}

/// Mathematical image of a [`Frame`].
pub ghost enum FrameView {
    Comment(Seq<u8>),
    Event(EventView),
    Retry(int),
}

impl View for Event {
    type V = EventView;

    open spec fn view(&self) -> EventView {
        EventView {
            id: match self.id {
                Some(v) => Some(v@),
                None => None,
            },
            name: self.name@,
            data: self.data@,
        }
    }
}

impl View for Frame {
    type V = FrameView;

    open spec fn view(&self) -> FrameView {
        match self {
            Frame::Comment(c) => FrameView::Comment(c@),
            Frame::Event(e) => FrameView::Event(e@),
            Frame::Retry(ms) => FrameView::Retry(*ms as int),
        }
    }
}

} // verus!
