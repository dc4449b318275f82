use quad_net::error::Error;
use quad_net::protocol::{encode_frame, MessageReader};

fn encoded(payload: &[u8]) -> Vec<u8> {
    encode_frame(payload).expect("payload fits in one frame")
}

#[test]
fn encode_frame_prefixes_length() {
    assert_eq!(encoded(&[10, 20, 30]), vec![3, 10, 20, 30]);
}

#[test]
fn encode_frame_empty_payload() {
    assert_eq!(encoded(&[]), vec![0]);
}

#[test]
fn encode_frame_rejects_oversize() {
    let payload = vec![7u8; 256];
    match encode_frame(&payload) {
        Err(Error::Misc(_)) => {}
        other => panic!("expected a miscellaneous error, got {:?}", other.is_ok()),
    }
}

#[test]
fn round_trip_whole_chunk() {
    let payload = vec![1u8, 2, 3, 4, 5];
    let mut reader = MessageReader::new();
    let msgs = reader.feed(&encoded(&payload));
    assert_eq!(msgs, vec![payload]);
}

#[test]
fn round_trip_byte_at_a_time() {
    let payload: Vec<u8> = (0..100u8).collect();
    let wire = encoded(&payload);
    let mut reader = MessageReader::new();
    let mut got: Vec<Vec<u8>> = Vec::new();
    for b in wire {
        if let Some(m) = reader.push_byte(b) {
            got.push(m);
        }
    }
    assert_eq!(got, vec![payload]);
}

#[test]
fn round_trip_uneven_chunks() {
    let payload = b"hello framed world".to_vec();
    let wire = encoded(&payload);
    let mut reader = MessageReader::new();
    let mut got: Vec<Vec<u8>> = Vec::new();
    for chunk in wire.chunks(5) {
        got.extend(reader.feed(chunk));
    }
    assert_eq!(got, vec![payload]);
}

#[test]
fn round_trip_longest_payload() {
    let payload = vec![0xABu8; 255];
    let wire = encoded(&payload);
    assert_eq!(wire.len(), 256);
    let mut reader = MessageReader::new();
    let msgs = reader.feed(&wire);
    assert_eq!(msgs, vec![payload]);
}

#[test]
fn zero_length_frame_is_emitted() {
    let mut reader = MessageReader::new();
    let msgs = reader.feed(&[0]);
    assert_eq!(msgs, vec![Vec::<u8>::new()]);
}

#[test]
fn several_frames_in_one_chunk() {
    let mut wire = encoded(&[1]);
    wire.extend(encoded(&[]));
    wire.extend(encoded(&[2, 3]));
    let mut reader = MessageReader::new();
    let msgs = reader.feed(&wire);
    assert_eq!(msgs, vec![vec![1], vec![], vec![2, 3]]);
}

#[test]
fn partial_frame_waits_for_the_rest() {
    let mut reader = MessageReader::new();
    // Length byte says 3, but only two payload bytes have arrived.
    assert_eq!(reader.feed(&[3, 1, 2]), Vec::<Vec<u8>>::new());
    // The next chunk completes the frame, and a whole second frame follows.
    assert_eq!(reader.feed(&[3, 1, 9]), vec![vec![1, 2, 3], vec![9]]);
    // A lone length byte starts a third frame that never completes.
    assert_eq!(reader.feed(&[2, 8]), Vec::<Vec<u8>>::new());
    assert_eq!(reader.feed(&[8]), vec![vec![8, 8]]);
}

#[test]
fn split_point_does_not_matter() {
    let payload = b"partial reads are fine".to_vec();
    let wire = encoded(&payload);
    for split in 1..wire.len() {
        let mut reader = MessageReader::new();
        let mut got = reader.feed(&wire[..split]);
        got.extend(reader.feed(&wire[split..]));
        assert_eq!(got, vec![payload.clone()], "split at {}", split);
    }
}
