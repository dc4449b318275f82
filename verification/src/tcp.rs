//! Stream-socket transport: synchronous send of length-prefixed frames and a
//! non-blocking receive fed by a background reader.
//!
//! The platform side — opening the socket, the reader task that turns raw
//! bytes into frames with [`crate::protocol::MessageReader`], the channel
//! carrying them across threads — lives outside this crate. [`TcpSocket`]
//! holds the handle's observable state: the wire bytes queued to the peer,
//! the delivered messages not yet polled, and whether delivery has
//! terminated. The background side advances it with [`TcpSocket::deliver`]
//! and [`TcpSocket::close_delivery`]; the foreground polls with
//! [`TcpSocket::try_recv`].

use crate::error::{Error, IoError, IoErrorKind};
use crate::protocol::{encode_frame, frame_spec};
use vstd::prelude::*;

verus! {

/// Abstract state of one stream-transport handle.
#[verifier::ext_equal]
pub struct StreamView {
    /// Messages completed by the background reader and not yet polled,
    /// oldest first.
    pub inbox: Seq<Seq<u8>>,
    /// Whether the background delivery has terminated; once set it never
    /// clears.
    pub closed: bool,
    /// Every wire byte queued to the peer since the connection opened.
    pub outbox: Seq<u8>,
}

/// The background reader completed one frame.
pub open spec fn deliver_step(v: StreamView, msg: Seq<u8>) -> StreamView {
    StreamView { inbox: v.inbox.push(msg), ..v }
}

/// The background reader completed the given frames, in order.
pub open spec fn deliver_all(v: StreamView, msgs: Seq<Seq<u8>>) -> StreamView
    decreases msgs.len(),
{
    if msgs.len() == 0 {
        v
    } else {
        deliver_all(deliver_step(v, msgs[0]), msgs.drop_first())
    }
}

/// The background delivery terminated.
pub open spec fn close_step(v: StreamView) -> StreamView {
    StreamView { closed: true, ..v }
}

/// How one poll changes the state: the oldest message leaves the inbox;
/// polling an empty inbox changes nothing.
pub open spec fn recv_step(v: StreamView) -> StreamView {
    if v.inbox.len() > 0 {
        StreamView { inbox: v.inbox.drop_first(), ..v }
    } else {
        v
    }
}

/// Exactly when a poll reports the disconnection error: delivery has
/// terminated and the inbox has drained.
pub open spec fn recv_aborts(v: StreamView) -> bool {
    v.closed && v.inbox.len() == 0
}

/// Everything a sequence of polls yields from this state, oldest first.
pub open spec fn drain(v: StreamView) -> Seq<Seq<u8>>
    decreases v.inbox.len(),
{
    if v.inbox.len() > 0 {
        seq![v.inbox[0]] + drain(recv_step(v))
    } else {
        Seq::<Seq<u8>>::empty()
    }
}

/// Polling yields exactly the queued messages, oldest first.
pub proof fn lemma_drain_is_inbox(v: StreamView)
    ensures
        drain(v) == v.inbox,
    decreases v.inbox.len(),
{
    if v.inbox.len() > 0 {
        lemma_drain_is_inbox(recv_step(v));
        assert(drain(v) =~~= v.inbox);
    } else {
        assert(drain(v) =~~= v.inbox);
    }
}

/// Delivery appends to the inbox, in order, and touches nothing else.
pub proof fn lemma_deliver_all_appends(v: StreamView, msgs: Seq<Seq<u8>>)
    ensures
        deliver_all(v, msgs) == (StreamView { inbox: v.inbox + msgs, ..v }),
    decreases msgs.len(),
{
    if msgs.len() == 0 {
        assert(v.inbox + msgs =~~= v.inbox);
    } else {
        lemma_deliver_all_appends(deliver_step(v, msgs[0]), msgs.drop_first());
        assert(v.inbox.push(msgs[0]) + msgs.drop_first() =~~= v.inbox + msgs);
    }
    assert(deliver_all(v, msgs) =~= (StreamView { inbox: v.inbox + msgs, ..v }));
}

/// Ordering: messages delivered in order `m1, m2, ...` on one handle are
/// yielded by successive polls of that same handle in exactly that order,
/// after whatever the inbox already held — no reordering, duplication or
/// loss.
pub proof fn lemma_ordering(v: StreamView, msgs: Seq<Seq<u8>>)
    ensures
        drain(deliver_all(v, msgs)) == v.inbox + msgs,
{
    lemma_deliver_all_appends(v, msgs);
    lemma_drain_is_inbox(deliver_all(v, msgs));
}

/// Disconnection signaling is persistent: once a poll reports the
/// disconnection error, the state is unchanged by it, so every later poll
/// reports the same error — a standing signal, not a one-shot one.
pub proof fn lemma_abort_persistent(v: StreamView)
    requires
        recv_aborts(v),
    ensures
        recv_step(v) == v,
        recv_aborts(recv_step(v)),
{
}

/// One stream-transport handle, as the foreground and the background reader
/// observe it.
pub struct TcpSocket {
    inbox: Vec<Vec<u8>>,
    closed: bool,
    outbox: Vec<u8>,
}

impl View for TcpSocket {
    type V = StreamView;

    closed spec fn view(&self) -> StreamView {
        StreamView { inbox: self.inbox.deep_view(), closed: self.closed, outbox: self.outbox@ }
    }
}

impl TcpSocket {
    /// The state of a freshly connected handle: nothing delivered, nothing
    /// sent, delivery running.
    pub fn new() -> (s: TcpSocket)
        ensures
            s@ == (StreamView {
                inbox: Seq::<Seq<u8>>::empty(),
                closed: false,
                outbox: Seq::<u8>::empty(),
            }),
    {
        let s = TcpSocket { inbox: Vec::new(), closed: false, outbox: Vec::new() };
        proof {
            assert(s@ =~~= (StreamView {
                inbox: Seq::<Seq<u8>>::empty(),
                closed: false,
                outbox: Seq::<u8>::empty(),
            }));
        }
        s
    }

    /// Queue one message to the peer: its length byte, then the payload.
    /// A payload over 255 bytes is rejected and nothing is queued.
    pub fn send(&mut self, data: &[u8]) -> (r: Result<(), Error>)
        ensures
            data@.len() <= 255 <==> r is Ok,
            r is Ok ==> final(self)@ == (StreamView {
                outbox: old(self)@.outbox + frame_spec(data@),
                ..old(self)@
            }),
            r matches Err(e) ==> e is Misc && final(self)@ == old(self)@,
    {
        match encode_frame(data) {
            Ok(mut bytes) => {
                self.outbox.append(&mut bytes);
                proof {
                    assert(self@ =~~= (StreamView {
                        outbox: old(self)@.outbox + frame_spec(data@),
                        ..old(self)@
                    }));
                }
                Ok(())
            },
            Err(e) => {
                proof {
                    assert(self@ =~~= old(self)@);
                }
                Err(e)
            },
        }
    }

    /// The background reader completed one frame and hands it over.
    pub fn deliver(&mut self, msg: Vec<u8>)
        requires
            !old(self)@.closed,
        ensures
            final(self)@ == deliver_step(old(self)@, msg@),
    {
        self.inbox.push(msg);
        proof {
            assert(self@ =~~= deliver_step(old(self)@, msg@));
        }
    }

    /// The background delivery terminated — the connection is gone.
    pub fn close_delivery(&mut self)
        ensures
            final(self)@ == close_step(old(self)@),
    {
        self.closed = true;
        proof {
            assert(self@ =~~= close_step(old(self)@));
        }
    }

    /// Non-blocking poll: the oldest delivered message if one is buffered
    /// (an empty payload comes back as an empty message, never as "nothing
    /// yet"); nothing if the inbox is empty and delivery still runs; the
    /// disconnection error once delivery has terminated and the inbox has
    /// drained.
    pub fn try_recv(&mut self) -> (r: Option<Result<Vec<u8>, Error>>)
        ensures
            final(self)@ == recv_step(old(self)@),
            old(self)@.inbox.len() > 0 ==> (r matches Some(Ok(m)) && m@ == old(self)@.inbox[0]),
            old(self)@.inbox.len() == 0 && !old(self)@.closed ==> r is None,
            recv_aborts(old(self)@) ==> (r matches Some(Err(e)) && e matches Error::IOError(io)
                && io.kind == IoErrorKind::ConnectionAborted),
    {
        if self.inbox.len() > 0 {
            let m = self.inbox.remove(0);
            proof {
                assert(self@ =~~= recv_step(old(self)@));
                assert(m.deep_view() == old(self)@.inbox[0]);
            }
            Some(Ok(m))
        } else if self.closed {
            proof {
                assert(self@ =~~= recv_step(old(self)@));
            }
            Some(Err(Error::IOError(IoError::of_kind(IoErrorKind::ConnectionAborted))))
        } else {
            proof {
                assert(self@ =~~= recv_step(old(self)@));
            }
            None
        }
    }
}

} // verus!
