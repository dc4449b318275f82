use quad_net::error::{Error, IoError, IoErrorKind};
use quad_net::js_web_socket::{HostData, HostPoll, WebSocket as JsWebSocket};
use quad_net::pc_web_socket::{Event, WebSocket as PcWebSocket, WsMessage};
use quad_net::tcp::TcpSocket;

#[test]
fn error_from_io_error() {
    let e = Error::from(IoError::of_kind(IoErrorKind::ConnectionReset));
    match e {
        Error::IOError(io) => assert_eq!(io.kind, IoErrorKind::ConnectionReset),
        Error::Misc(_) => panic!("expected an I/O error"),
    }
}

#[test]
fn tcp_send_queues_frame() {
    let mut s = TcpSocket::new();
    assert!(s.send(&[5, 6]).is_ok());
    assert!(s.send(&[]).is_ok());
}

#[test]
fn tcp_send_rejects_oversize() {
    let mut s = TcpSocket::new();
    let payload = vec![0u8; 256];
    match s.send(&payload) {
        Err(Error::Misc(_)) => {}
        _ => panic!("a 256-byte payload must be rejected"),
    }
    assert!(s.send(&vec![0u8; 255]).is_ok());
}

#[test]
fn tcp_messages_arrive_in_order() {
    let mut s = TcpSocket::new();
    s.deliver(vec![1]);
    s.deliver(vec![2, 2]);
    s.deliver(vec![3, 3, 3]);
    assert_eq!(s.try_recv().unwrap().unwrap(), vec![1]);
    assert_eq!(s.try_recv().unwrap().unwrap(), vec![2, 2]);
    assert_eq!(s.try_recv().unwrap().unwrap(), vec![3, 3, 3]);
    assert!(s.try_recv().is_none());
}

#[test]
fn tcp_empty_message_is_not_nothing() {
    let mut s = TcpSocket::new();
    s.deliver(Vec::new());
    match s.try_recv() {
        Some(Ok(m)) => assert_eq!(m, Vec::<u8>::new()),
        _ => panic!("an empty message must still be delivered"),
    }
    assert!(s.try_recv().is_none());
}

#[test]
fn tcp_disconnect_reported_after_drain() {
    let mut s = TcpSocket::new();
    s.deliver(vec![9]);
    s.close_delivery();
    // The buffered message still comes out first.
    assert_eq!(s.try_recv().unwrap().unwrap(), vec![9]);
    // Then the disconnection error, on every later call.
    for _ in 0..3 {
        match s.try_recv() {
            Some(Err(Error::IOError(io))) => {
                assert_eq!(io.kind, IoErrorKind::ConnectionAborted)
            }
            _ => panic!("expected the persistent disconnection error"),
        }
    }
}

#[test]
fn pc_connect_needs_connect_event_first() {
    let w = PcWebSocket::connect(Some(Event::Connect("handle"))).unwrap();
    assert!(w.connected());

    match PcWebSocket::<&str>::connect(Some(Event::Message(vec![1]))) {
        Err(Error::Misc(_)) => {}
        _ => panic!("a message event first must fail the connect"),
    }
    match PcWebSocket::<&str>::connect(None) {
        Err(Error::Misc(_)) => {}
        _ => panic!("a closed channel must fail the connect"),
    }
}

#[test]
fn pc_messages_arrive_in_order() {
    let mut w = PcWebSocket::connect(Some(Event::Connect(7u32))).unwrap();
    assert!(w.try_recv().is_none());
    w.deliver(vec![1]);
    w.deliver(vec![2]);
    assert_eq!(w.try_recv(), Some(vec![1]));
    assert_eq!(w.try_recv(), Some(vec![2]));
    assert!(w.try_recv().is_none());
    assert_eq!(*w.sender(), 7u32);
}

#[test]
fn pc_event_message_unwraps_payload() {
    let m = PcWebSocket::<u32>::event_message(Event::Message(vec![4, 5]));
    assert_eq!(m, vec![4, 5]);
}

#[test]
fn pc_send_builds_frames() {
    let w = PcWebSocket::connect(Some(Event::Connect(0u8))).unwrap();
    match w.send_text("ping") {
        WsMessage::Text(s) => assert_eq!(s, "ping"),
        WsMessage::Binary(_) => panic!("expected a text frame"),
    }
    match w.send_bytes(&[1, 2, 3]) {
        WsMessage::Binary(b) => assert_eq!(b, vec![1, 2, 3]),
        WsMessage::Text(_) => panic!("expected a binary frame"),
    }
}

#[test]
fn js_connect_reads_host_reply() {
    assert!(JsWebSocket::connect(None).is_ok());
    match JsWebSocket::connect(Some("refused".to_string())) {
        Err(Error::IOError(io)) => {
            assert_eq!(io.kind, IoErrorKind::Other);
            assert_eq!(io.message, "refused");
        }
        _ => panic!("a host reply string must fail the connect"),
    }
}

#[test]
fn js_text_payload_decodes_to_utf8_bytes() {
    let mut w = JsWebSocket::connect(None).unwrap();
    let polled = HostPoll::Ready(HostData::Text("héllo ✓".to_string()));
    match w.try_recv(polled) {
        Some(Ok(bytes)) => assert_eq!(bytes, "héllo ✓".as_bytes().to_vec()),
        _ => panic!("a text payload must decode to its UTF-8 bytes"),
    }
}

#[test]
fn js_binary_payload_passes_through() {
    let mut w = JsWebSocket::connect(None).unwrap();
    // Not valid UTF-8: must come through untouched, with no decoding applied.
    let raw = vec![0xFF, 0x00, 0xFE, 0x80];
    match w.try_recv(HostPoll::Ready(HostData::Binary(raw.clone()))) {
        Some(Ok(bytes)) => assert_eq!(bytes, raw),
        _ => panic!("a binary payload must pass through unchanged"),
    }
}

#[test]
fn js_poll_nothing_and_failure() {
    let mut w = JsWebSocket::connect(None).unwrap();
    assert!(w.try_recv(HostPoll::Nil).is_none());
    match w.try_recv(HostPoll::Failed("queue torn down".to_string())) {
        Some(Err(Error::Misc(m))) => assert_eq!(m, "queue torn down"),
        _ => panic!("a host failure must surface as a miscellaneous error"),
    }
}

#[test]
fn js_connected_reads_host_flag() {
    let w = JsWebSocket::connect(None).unwrap();
    assert!(w.connected(1));
    assert!(!w.connected(0));
    assert!(!w.connected(2));
}
