//! Native websocket transport: an event-driven client runs on a background
//! task and forwards its callbacks as [`Event`]s through a channel; the
//! foreground consumes them non-blockingly.
//!
//! The event library and the thread running it live outside this crate; the
//! channel's send-capable handle appears here only as the type parameter
//! `S`, carried through untouched. This module holds the decisions: the
//! first event must announce the connection, and every later one must carry
//! a message.

use crate::error::Error;
use vstd::prelude::*;

verus! {

/// What the background websocket client forwards through the channel: the
/// send-capable handle once the connection opens, then payload bytes for
/// each received frame.
pub enum Event<S> {
    Connect(S),
    Message(Vec<u8>),
}

/// An outbound websocket frame, ready to hand to the send-capable handle.
/// The websocket's own framing carries arbitrary sizes, so no length limit
/// applies here.
pub enum WsMessage {
    Text(String),
    Binary(Vec<u8>),
}

/// One native websocket handle: the send-capable handle and the messages
/// delivered but not yet polled.
pub struct WebSocket<S> {
    sender: S,
    inbox: Vec<Vec<u8>>,
}

impl<S> WebSocket<S> {
    /// The messages delivered and not yet polled, oldest first.
    pub closed spec fn inbox_view(self) -> Seq<Seq<u8>> {
        self.inbox.deep_view()
    }

    /// The send-capable handle obtained when the connection opened.
    pub closed spec fn sender_of(self) -> S {
        self.sender
    }

    /// Decide the outcome of connecting from the first event out of the
    /// channel (`None`: the channel closed before any event). Only a
    /// `Connect` event establishes the handle; anything else is an
    /// unrecoverable connection failure.
    pub fn connect(first: Option<Event<S>>) -> (r: Result<WebSocket<S>, Error>)
        ensures
            first matches Some(Event::Connect(s)) <==> r is Ok,
            first matches Some(Event::Connect(s)) ==> (r matches Ok(w) && w.sender_of() == s
                && w.inbox_view() == Seq::<Seq<u8>>::empty()),
            r matches Err(e) ==> e is Misc,
    {
        match first {
            Some(Event::Connect(sender)) => {
                let w = WebSocket { sender, inbox: Vec::new() };
                proof {
                    assert(w.inbox_view() =~~= Seq::<Seq<u8>>::empty());
                }
                Ok(w)
            },
            _ => Err(Error::Misc("failed to connect websocket".to_owned())),
        }
    }

    /// The send-capable handle, for forwarding outbound frames.
    pub fn sender(&self) -> (s: &S)
        ensures
            *s == self.sender_of(),
    {
        &self.sender
    }

    /// An established handle is connected; this design surfaces no later
    /// close or error through the handle (they end delivery silently).
    pub fn connected(&self) -> (r: bool)
        ensures
            r,
    {
        true
    }

    /// The payload of a message event. Any `Connect` event after the first
    /// is a defect in the producer; the caller must rule it out before
    /// unwrapping.
    pub fn event_message(e: Event<S>) -> (msg: Vec<u8>)
        requires
            e is Message,
        ensures
            e matches Event::Message(m) && msg@ == m@,
    {
        match e {
            Event::Message(m) => m,
            Event::Connect(_) => unreached(),
        }
    }

    /// The message-received callback delivered payload bytes.
    pub fn deliver(&mut self, msg: Vec<u8>)
        ensures
            final(self).inbox_view() == old(self).inbox_view().push(msg@),
            final(self).sender_of() == old(self).sender_of(),
    {
        self.inbox.push(msg);
        proof {
            assert(self.inbox_view() =~~= old(self).inbox_view().push(msg@));
        }
    }

    /// Non-blocking poll: the oldest delivered message, oldest first, or
    /// nothing when the inbox is empty.
    pub fn try_recv(&mut self) -> (r: Option<Vec<u8>>)
        ensures
            final(self).sender_of() == old(self).sender_of(),
            old(self).inbox_view().len() == 0 ==> r is None && final(self).inbox_view() == old(
                self,
            ).inbox_view(),
            old(self).inbox_view().len() > 0 ==> (r matches Some(m) && m@ == old(
                self,
            ).inbox_view()[0] && final(self).inbox_view() == old(self).inbox_view().drop_first()),
    {
        if self.inbox.len() > 0 {
            let m = self.inbox.remove(0);
            proof {
                assert(self.inbox_view() =~~= old(self).inbox_view().drop_first());
                assert(m.deep_view() == old(self).inbox_view()[0]);
            }
            Some(m)
        } else {
            None
        }
    }

    /// Build the text frame that `send_text` forwards through the handle.
    pub fn send_text(&self, text: &str) -> (m: WsMessage)
        ensures
            m matches WsMessage::Text(s) && s@ == text@,
    {
        WsMessage::Text(text.to_owned())
    }

    /// Build the binary frame that `send_bytes` forwards through the handle.
    pub fn send_bytes(&self, data: &[u8]) -> (m: WsMessage)
        ensures
            m matches WsMessage::Binary(b) && b@ == data@,
    {
        WsMessage::Binary(vstd::slice::slice_to_vec(data))
    }
}

} // verus!
