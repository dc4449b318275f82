//! Host-bridged websocket transport for sandboxed builds: the host owns the
//! socket and its queue, and this side only calls four host entry points —
//! connect, send, poll, is-connected.
//!
//! The entry points themselves live outside this crate; the values they
//! take and return are modelled here ([`HostData`], [`HostPoll`]), and this
//! module holds every decision taken on them: reading the connect reply,
//! and decoding a poll outcome — in particular the text/binary flag, where
//! a text payload contributes its UTF-8 bytes and a binary payload passes
//! through unchanged.

use crate::error::{Error, IoError, IoErrorKind};
use vstd::prelude::*;
use vstd::string::StrSliceExecFns;

verus! {

/// The payload of a successful host poll, as the host flagged it: a decoded
/// text string, or raw binary bytes.
pub enum HostData {
    Text(String),
    Binary(Vec<u8>),
}

/// One outcome of polling the host's inbound queue: nothing pending, a
/// failure described by the host, or a delivered payload.
pub enum HostPoll {
    Nil,
    Failed(String),
    Ready(HostData),
}

/// The message bytes a delivered payload yields: the UTF-8 encoding of a
/// text payload, or a binary payload's bytes unchanged.
pub open spec fn data_bytes(d: HostData) -> Seq<u8> {
    match d {
        HostData::Text(s) => vstd::utf8::encode_utf8(s@),
        HostData::Binary(b) => b@,
    }
}

/// Handle for the host-bridged websocket. It carries no state of its own:
/// the host owns the connection, and every operation is a fresh exchange
/// with it.
pub struct WebSocket;

impl WebSocket {
    /// Decide the outcome of connecting from the host's reply: no reply
    /// string means success; a reply describes why the connection failed.
    pub fn connect(reply: Option<String>) -> (r: Result<WebSocket, Error>)
        ensures
            reply is None <==> r is Ok,
            reply matches Some(desc) ==> (r matches Err(e) && e matches Error::IOError(io)
                && io.kind == IoErrorKind::Other && io.message@ == desc@),
    {
        match reply {
            None => Ok(WebSocket),
            Some(desc) => Err(Error::IOError(IoError::with_message(IoErrorKind::Other, desc))),
        }
    }

    /// Read the host's connectivity flag: 1 means connected, anything else
    /// does not.
    pub fn connected(&self, host_flag: i32) -> (r: bool)
        ensures
            r <==> host_flag == 1,
    {
        host_flag == 1
    }

    /// Decode one poll outcome: nothing pending yields nothing; a
    /// host-reported failure yields its description as an error; a
    /// delivered payload yields its message bytes — the UTF-8 bytes of a
    /// text payload, a binary payload's raw bytes with no decoding applied.
    pub fn try_recv(&mut self, polled: HostPoll) -> (r: Option<Result<Vec<u8>, Error>>)
        ensures
            polled is Nil <==> r is None,
            polled matches HostPoll::Failed(desc) ==> (r matches Some(Err(e)) && e matches
                Error::Misc(m) && m@ == desc@),
            polled matches HostPoll::Ready(d) ==> (r matches Some(Ok(bytes)) && bytes@
                == data_bytes(d)),
    {
        match polled {
            HostPoll::Nil => None,
            HostPoll::Failed(desc) => Some(Err(Error::Misc(desc))),
            HostPoll::Ready(HostData::Text(s)) => Some(Ok(s.as_str().as_bytes_vec())),
            HostPoll::Ready(HostData::Binary(b)) => Some(Ok(b)),
        }
    }

    /// Build the value `send_text` hands to the host's send entry point.
    pub fn send_text(&self, text: &str) -> (m: HostData)
        ensures
            m matches HostData::Text(s) && s@ == text@,
    {
        HostData::Text(text.to_owned())
    }

    /// Build the value `send_bytes` hands to the host's send entry point.
    pub fn send_bytes(&self, data: &[u8]) -> (m: HostData)
        ensures
            m matches HostData::Binary(b) && b@ == data@,
    {
        HostData::Binary(vstd::slice::slice_to_vec(data))
    }
}

} // verus!
