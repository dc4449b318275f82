//! Client-side message transports behind one non-blocking polling interface.
//!
//! Three transports deliver discrete binary messages to a foreground that
//! polls with `try_recv`:
//! - a raw stream socket carrying length-prefixed frames, read by a
//!   background task ([`tcp::TcpSocket`], [`protocol::MessageReader`]);
//! - a native websocket client whose event callbacks feed a channel
//!   ([`pc_web_socket::WebSocket`]);
//! - a host-bridged websocket for sandboxed builds, where every operation is
//!   a synchronous call into the host ([`js_web_socket::WebSocket`]).
//!
//! The platform-facing plumbing (socket handles, threads, the host's entry
//! points) lives outside this crate; these modules hold the framing, the
//! queueing discipline, and every decision taken on what those collaborators
//! hand back.

pub mod error;
pub mod js_web_socket;
pub mod pc_web_socket;
pub mod protocol;
pub mod tcp;
