//! Length-prefixed message framing for the stream transport.
//!
//! Wire format: one length byte (0..=255) immediately followed by exactly
//! that many payload bytes; no escaping, no checksum. [`MessageReader`]
//! extracts complete frames from a byte stream incrementally, tolerating
//! partial arrivals across any number of calls.

use crate::error::Error;
use vstd::prelude::*;

verus! {

/// The wire form of one message: its length as a single byte, then the
/// payload itself.
pub open spec fn frame_spec(payload: Seq<u8>) -> Seq<u8>
    recommends
        payload.len() <= 255,
{
    seq![payload.len() as u8] + payload
}

/// What a byte stream parses to under the framing format: the payloads of
/// every complete frame, oldest first, and the trailing bytes of the one
/// incomplete frame (empty when the stream ends on a frame boundary).
pub open spec fn parse_frames(input: Seq<u8>) -> (Seq<Seq<u8>>, Seq<u8>)
    decreases input.len(),
{
    if input.len() == 0 {
        (Seq::<Seq<u8>>::empty(), Seq::<u8>::empty())
    } else {
        let n = input[0] as int;
        if input.len() >= 1 + n {
            let rec = parse_frames(input.subrange(1 + n, input.len() as int));
            (seq![input.subrange(1, 1 + n)] + rec.0, rec.1)
        } else {
            (Seq::<Seq<u8>>::empty(), input)
        }
    }
}

/// A stream that is exactly one frame — the length byte counts all the
/// bytes after it — parses to that frame's payload alone and leaves
/// nothing behind.
proof fn lemma_parse_single_frame(input: Seq<u8>)
    requires
        input.len() >= 1,
        input[0] as int == input.len() - 1,
    ensures
        parse_frames(input).0 == seq![input.subrange(1, input.len() as int)],
        parse_frames(input).1 == Seq::<u8>::empty(),
{
    let n = input[0] as int;
    assert(input.subrange(1 + n, input.len() as int) =~= Seq::<u8>::empty());
    assert(parse_frames(Seq::<u8>::empty()).0 =~~= Seq::<Seq<u8>>::empty());
    assert(parse_frames(Seq::<u8>::empty()).1 =~= Seq::<u8>::empty());
    assert(parse_frames(input).0 =~~= seq![input.subrange(1, input.len() as int)]);
}

/// Framing round-trip: a frame built from any payload of length at most 255
/// parses back to exactly that payload, and leaves no trailing bytes, so the
/// parser state returns to empty afterward.
pub proof fn lemma_frame_round_trip(payload: Seq<u8>)
    requires
        payload.len() <= 255,
    ensures
        parse_frames(frame_spec(payload)).0 == seq![payload],
        parse_frames(frame_spec(payload)).1 == Seq::<u8>::empty(),
{
    let f = frame_spec(payload);
    assert(f.len() == 1 + payload.len());
    assert(f[0] as int == payload.len());
    lemma_parse_single_frame(f);
    assert(f.subrange(1, f.len() as int) =~= payload);
    assert(parse_frames(f).0 =~~= seq![payload]);
}

/// Partial-read resilience: parsing a stream split at any point equals
/// parsing the first part, then parsing its leftover bytes together with the
/// second part. Hence feeding an encoded frame in any number of non-empty
/// sub-chunks, in order, emits the same messages as feeding it whole.
pub proof fn lemma_parse_chunked(s: Seq<u8>, t: Seq<u8>)
    ensures
        parse_frames(s + t).0 == parse_frames(s).0 + parse_frames(parse_frames(s).1 + t).0,
        parse_frames(s + t).1 == parse_frames(parse_frames(s).1 + t).1,
    decreases s.len(),
{
    if s.len() == 0 {
        assert(s + t =~= t);
        assert(parse_frames(s).1 + t =~= t);
        assert(parse_frames(s).0 + parse_frames(t).0 =~~= parse_frames(t).0);
    } else {
        let n = s[0] as int;
        if s.len() >= 1 + n {
            let s2 = s.subrange(1 + n, s.len() as int);
            lemma_parse_chunked(s2, t);
            assert((s + t)[0] == s[0]);
            assert((s + t).len() >= 1 + n);
            assert((s + t).subrange(1, 1 + n) =~= s.subrange(1, 1 + n));
            assert((s + t).subrange(1 + n, (s + t).len() as int) =~= s2 + t);
            assert(parse_frames(s + t).0 =~~= parse_frames(s).0 + parse_frames(
                parse_frames(s).1 + t,
            ).0);
        } else {
            assert(parse_frames(s).1 + t =~= s + t);
            assert(parse_frames(s).0 + parse_frames(s + t).0 =~~= parse_frames(s + t).0);
        }
    }
}

/// The wire form of a whole sequence of messages, framed back to back.
pub open spec fn frames_spec(msgs: Seq<Seq<u8>>) -> Seq<u8>
    decreases msgs.len(),
{
    if msgs.len() == 0 {
        Seq::<u8>::empty()
    } else {
        frame_spec(msgs[0]) + frames_spec(msgs.drop_first())
    }
}

/// Messages framed back to back — as a sender queues them — parse back to
/// exactly those messages, in order, with the parser state empty at the end.
pub proof fn lemma_stream_round_trip(msgs: Seq<Seq<u8>>)
    requires
        forall|i: int| 0 <= i < msgs.len() ==> #[trigger] msgs[i].len() <= 255,
    ensures
        parse_frames(frames_spec(msgs)).0 == msgs,
        parse_frames(frames_spec(msgs)).1 == Seq::<u8>::empty(),
    decreases msgs.len(),
{
    if msgs.len() == 0 {
        assert(parse_frames(frames_spec(msgs)).0 =~~= msgs);
    } else {
        let f0 = frame_spec(msgs[0]);
        let fr = frames_spec(msgs.drop_first());
        lemma_frame_round_trip(msgs[0]);
        lemma_parse_chunked(f0, fr);
        assert(Seq::<u8>::empty() + fr =~= fr);
        lemma_stream_round_trip(msgs.drop_first());
        assert(parse_frames(frames_spec(msgs)).0 =~~= msgs);
    }
}

/// Build the wire bytes for one outbound message: the length byte, then the
/// payload. A payload over 255 bytes cannot be represented by the one-byte
/// length prefix and is rejected outright, never truncated.
pub fn encode_frame(data: &[u8]) -> (r: Result<Vec<u8>, Error>)
    ensures
        data@.len() <= 255 <==> r is Ok,
        r matches Ok(v) ==> v@ == frame_spec(data@),
        r matches Err(e) ==> e is Misc,
{
    if data.len() > 255 {
        Err(Error::Misc("message too long for a one-byte length prefix".to_owned()))
    } else {
        let mut v: Vec<u8> = Vec::new();
        v.push(data.len() as u8);
        v.extend_from_slice(data);
        proof {
            assert(v@ =~= frame_spec(data@));
        }
        Ok(v)
    }
}

/// Incremental frame parser: carries the bytes of the frame in progress
/// across calls, so a frame may arrive split into arbitrarily small pieces.
pub struct MessageReader {
    /// The declared payload length of the frame in progress, once its length
    /// byte has been read. `None` between frames.
    expected: Option<u8>,
    /// The payload bytes accumulated so far for the frame in progress.
    buf: Vec<u8>,
}

impl MessageReader {
    /// The state never holds a finished frame: a zero length byte is emitted
    /// at once, and a frame is emitted the moment its last byte arrives.
    pub closed spec fn wf(self) -> bool {
        match self.expected {
            None => self.buf@.len() == 0,
            Some(n) => n > 0 && self.buf@.len() < n as int,
        }
    }

    /// The raw bytes this state stands for: everything consumed since the
    /// last emitted frame.
    pub closed spec fn pending(self) -> Seq<u8> {
        match self.expected {
            None => Seq::<u8>::empty(),
            Some(n) => seq![n] + self.buf@,
        }
    }

    /// A fresh parser, holding no partial frame.
    pub fn new() -> (r: MessageReader)
        ensures
            r.wf(),
            r.pending() == Seq::<u8>::empty(),
    {
        MessageReader { expected: None, buf: Vec::new() }
    }

    /// Consume one byte of the stream; returns the completed payload exactly
    /// when this byte finishes a frame (immediately, for a zero length byte).
    pub fn push_byte(&mut self, b: u8) -> (r: Option<Vec<u8>>)
        requires
            old(self).wf(),
        ensures
            final(self).wf(),
            ({
                let step = parse_frames(old(self).pending() + seq![b]);
                &&& final(self).pending() == step.1
                &&& match r {
                    Some(m) => step.0 == seq![m@],
                    None => step.0 == Seq::<Seq<u8>>::empty(),
                }
            }),
    {
        let ghost input = self.pending() + seq![b];
        match self.expected {
            None => {
                if b == 0 {
                    let m: Vec<u8> = Vec::new();
                    proof {
                        assert(input =~= seq![0u8]);
                        lemma_parse_single_frame(input);
                        assert(input.subrange(1, input.len() as int) =~= m@);
                        assert(parse_frames(input).0 =~~= seq![m@]);
                        assert(self.pending() =~= parse_frames(input).1);
                    }
                    Some(m)
                } else {
                    self.expected = Some(b);
                    proof {
                        assert(input =~= seq![b]);
                        assert(input.len() < 1 + b as int);
                        assert(self.pending() =~= input);
                        assert(parse_frames(input).1 == input);
                    }
                    None
                }
            },
            Some(n) => {
                self.buf.push(b);
                if self.buf.len() == n as usize {
                    let mut m: Vec<u8> = Vec::new();
                    core::mem::swap(&mut self.buf, &mut m);
                    self.expected = None;
                    proof {
                        assert(input.len() == 1 + n as int);
                        assert(input[0] == n);
                        lemma_parse_single_frame(input);
                        assert(input.subrange(1, input.len() as int) =~= m@);
                        assert(parse_frames(input).0 =~~= seq![m@]);
                        assert(self.pending() =~= parse_frames(input).1);
                    }
                    Some(m)
                } else {
                    proof {
                        assert(input[0] == n);
                        assert(input.len() < 1 + n as int);
                        assert(self.pending() =~= input);
                        assert(parse_frames(input).1 == input);
                    }
                    None
                }
            },
        }
    }

    /// Consume a chunk of the stream; returns every payload completed while
    /// doing so, oldest first. Feeding a stream in chunks of any sizes emits
    /// the same messages as feeding it whole.
    pub fn feed(&mut self, chunk: &[u8]) -> (msgs: Vec<Vec<u8>>)
        requires
            old(self).wf(),
        ensures
            final(self).wf(),
            ({
                let whole = parse_frames(old(self).pending() + chunk@);
                &&& msgs.deep_view() == whole.0
                &&& final(self).pending() == whole.1
            }),
    {
        let ghost whole = parse_frames(old(self).pending() + chunk@);
        let mut msgs: Vec<Vec<u8>> = Vec::new();
        let mut i: usize = 0;
        proof {
            assert(old(self).pending() + chunk@.skip(0) =~= old(self).pending() + chunk@);
            assert(msgs.deep_view() + whole.0 =~~= whole.0);
        }
        while i < chunk.len()
            invariant
                i <= chunk@.len(),
                self.wf(),
                msgs.deep_view() + parse_frames(self.pending() + chunk@.skip(i as int)).0
                    =~~= whole.0,
                parse_frames(self.pending() + chunk@.skip(i as int)).1 == whole.1,
            decreases chunk@.len() - i,
        {
            let ghost pend = self.pending();
            let ghost msgs_before = msgs.deep_view();
            let b = chunk[i];
            let r = self.push_byte(b);
            proof {
                lemma_parse_chunked(pend + seq![b], chunk@.skip(i + 1 as int));
                assert((pend + seq![b]) + chunk@.skip(i + 1 as int) =~= pend + chunk@.skip(
                    i as int,
                ));
            }
            match r {
                Some(m) => {
                    msgs.push(m);
                    proof {
                        assert(msgs.deep_view() =~~= msgs_before + seq![m@]);
                    }
                },
                None => {
                    proof {
                        assert(msgs.deep_view() =~~= msgs_before);
                        assert(msgs_before + (Seq::<Seq<u8>>::empty() + parse_frames(
                            self.pending() + chunk@.skip(i + 1 as int),
                        ).0) =~~= msgs_before + parse_frames(
                            self.pending() + chunk@.skip(i + 1 as int),
                        ).0);
                    }
                },
            }
            i += 1;
        }
        proof {
            assert(chunk@.skip(chunk@.len() as int) =~= Seq::<u8>::empty());
            assert(self.pending() + Seq::<u8>::empty() =~= self.pending());
            lemma_wf_state_incomplete(*self);
            assert(msgs.deep_view() =~~= whole.0);
        }
        msgs
    }
}

/// A well-formed parser state is always strictly inside a frame: parsing its
/// pending bytes alone emits nothing and consumes nothing.
pub proof fn lemma_wf_state_incomplete(r: MessageReader)
    requires
        r.wf(),
    ensures
        parse_frames(r.pending()).0 == Seq::<Seq<u8>>::empty(),
        parse_frames(r.pending()).1 == r.pending(),
{
    match r.expected {
        None => {
            assert(parse_frames(r.pending()).1 =~= r.pending());
        },
        Some(n) => {
            assert(r.pending()[0] == n);
            assert(r.pending().len() < 1 + n as int);
        },
    }
}

} // verus!
