//! Packet framing: every packet on the wire is the body length as a
//! little-endian `u64`, exclusive of itself, followed by the body.
//!
//! A reader rejects a frame whose announced length exceeds [`MAX_BODY_LEN`]
//! with a distinct error, so a corrupt stream is diagnosable; a frame whose
//! bytes have not all arrived yet is reported as incomplete rather than
//! malformed.

use vstd::prelude::*;

use crate::codec::enc_u64;
use crate::codec::encode_byte_seq;
use crate::codec::lemma_subrange_split;
use crate::codec::lemma_u64_round_trip;
use crate::codec::sdec_u64;
use crate::messages::MessageView;
use crate::messages::ProtocolMessage;
use crate::codec::enc_message;
use crate::codec::serialize_message;
use crate::codec::wf_message;

verus! {

/// The largest body a reader accepts: 64 MiB.
pub const MAX_BODY_LEN: u64 = 67108864;

/// Why a frame could not be read.
#[derive(Debug, Clone, Copy, PartialEq, Eq, Structural)]
pub enum FrameError {
    /// The announced body length exceeds [`MAX_BODY_LEN`]: the stream is
    /// corrupt or hostile, and the connection must be torn down.
    Oversize,
    /// The buffer ends before the frame does.
    Incomplete,
}

/// The bytes of one frame: the body length, then the body.
pub open spec fn spec_frame(body: Seq<u8>) -> Seq<u8> {
    enc_u64(body.len() as u64) + body
}

/// Mathematical result of reading one frame at `pos`.
pub open spec fn sread_frame(s: Seq<u8>, pos: int) -> Result<(Seq<u8>, int), FrameError> {
    match sdec_u64(s, pos) {
        Some((n, p1)) => if n > MAX_BODY_LEN {
            Err(FrameError::Oversize)
        } else if p1 + n <= s.len() {
            Ok((s.subrange(p1, p1 + n), p1 + n))
        } else {
            Err(FrameError::Incomplete)
        },
        None => Err(FrameError::Incomplete),
    }
}

/// Reading inverts framing: a frame written into the middle of a stream is
/// read back exactly, and the reader stops at its end.
pub proof fn lemma_frame_round_trip(s: Seq<u8>, pos: int, body: Seq<u8>)
    requires
        0 <= pos,
        body.len() <= MAX_BODY_LEN,
        pos + spec_frame(body).len() <= s.len(),
        s.subrange(pos, pos + spec_frame(body).len()) == spec_frame(body),
    ensures
        sread_frame(s, pos) == Ok::<(Seq<u8>, int), FrameError>(
            (body, pos + spec_frame(body).len()),
        ),
{
    lemma_subrange_split(s, pos, enc_u64(body.len() as u64), body);
    lemma_u64_round_trip(s, pos, body.len() as u64);
}

/// Two frames written back to back are read back as the two bodies, in
/// order.
pub proof fn lemma_two_frames_round_trip(a: Seq<u8>, b: Seq<u8>)
    requires
        a.len() <= MAX_BODY_LEN,
        b.len() <= MAX_BODY_LEN,
    ensures
        ({
            let s = spec_frame(a) + spec_frame(b);
            &&& sread_frame(s, 0) == Ok::<(Seq<u8>, int), FrameError>(
                (a, spec_frame(a).len() as int),
            )
            &&& sread_frame(s, spec_frame(a).len() as int) == Ok::<(Seq<u8>, int), FrameError>(
                (b, s.len() as int),
            )
        }),
{
    let s = spec_frame(a) + spec_frame(b);
    assert(s.subrange(0, spec_frame(a).len() as int) =~= spec_frame(a));
    assert(s.subrange(spec_frame(a).len() as int, s.len() as int) =~= spec_frame(b));
    lemma_frame_round_trip(s, 0, a);
    lemma_frame_round_trip(s, spec_frame(a).len() as int, b);
}

/// Writes one frame: the body's length, then the body, in a single buffer
/// so the transport can be handed the packet in one write.
pub fn write_frame(body: &Vec<u8>) -> (r: Vec<u8>)
    ensures
        r@ == spec_frame(body@),
{
    let mut out: Vec<u8> = Vec::new();
    encode_byte_seq(&mut out, body);
    assert(out@ =~= spec_frame(body@));
    out
}

/// Reads one frame out of a buffer.
pub fn read_frame(bytes: &Vec<u8>, pos: usize) -> (r: Result<(Vec<u8>, usize), FrameError>)
    ensures
        match r {
            Ok(p) => sread_frame(bytes@, pos as int) == Ok::<(Seq<u8>, int), FrameError>(
                (p.0@, p.1 as int),
            ),
            Err(e) => sread_frame(bytes@, pos as int) == Err::<(Seq<u8>, int), FrameError>(e),
        },
{
    let (n, p1) = match crate::codec::decode_u64(bytes, pos) {
        Some(p) => p,
        None => {
            return Err(FrameError::Incomplete);
        },
    };
    if n > MAX_BODY_LEN {
        return Err(FrameError::Oversize);
    }
    let avail = bytes.len() - p1;
    if n > avail as u64 {
        return Err(FrameError::Incomplete);
    }
    let cnt = n as usize;
    let mut body: Vec<u8> = Vec::new();
    let mut cur = p1;
    let mut i: usize = 0;
    while i < cnt
        invariant
            0 <= i <= cnt,
            cnt <= bytes.len() - p1,
            cur == p1 + i,
            body@ == bytes@.subrange(p1 as int, cur as int),
        decreases cnt - i,
    {
        body.push(bytes[cur]);
        proof {
            assert(bytes@.subrange(p1 as int, cur as int).push(bytes@[cur as int]) =~= bytes@
                .subrange(p1 as int, cur + 1 as int));
        }
        cur = cur + 1;
        i = i + 1;
    }
    Ok((body, cur))
}

// ---------------------------------------------------------------------------
// Whole outbound streams
// ---------------------------------------------------------------------------
/// The bytes a side's encoder emits for a queue of messages: exactly the
/// concatenation of one frame per message, in the order they were enqueued.
pub open spec fn spec_message_stream(msgs: Seq<MessageView>) -> Seq<u8>
    decreases msgs.len(),
{
    if msgs.len() == 0 {
        seq![]
    } else {
        spec_frame(enc_message(msgs[0])) + spec_message_stream(msgs.drop_first())
    }
}

/// Appending a message appends its frame.
pub proof fn lemma_message_stream_push(msgs: Seq<MessageView>, m: MessageView)
    ensures
        spec_message_stream(msgs.push(m)) == spec_message_stream(msgs) + spec_frame(
            enc_message(m),
        ),
    decreases msgs.len(),
{
    if msgs.len() == 0 {
        assert(msgs.push(m) =~= seq![m]);
        assert(spec_message_stream(seq![m]) == spec_frame(enc_message(seq![m][0]))
            + spec_message_stream(seq![m].drop_first()));
        assert(seq![m].drop_first() =~= Seq::<MessageView>::empty());
        assert(spec_message_stream(Seq::<MessageView>::empty()) == Seq::<u8>::empty());
        assert(spec_message_stream(msgs) == Seq::<u8>::empty());
        assert(spec_frame(enc_message(m)) + Seq::<u8>::empty() =~= spec_frame(enc_message(m)));
        assert(Seq::<u8>::empty() + spec_frame(enc_message(m)) =~= spec_frame(enc_message(m)));
    } else {
        assert(msgs.push(m).drop_first() =~= msgs.drop_first().push(m));
        assert(msgs.push(m)[0] == msgs[0]);
        lemma_message_stream_push(msgs.drop_first(), m);
        assert(spec_frame(enc_message(msgs[0])) + (spec_message_stream(msgs.drop_first())
            + spec_frame(enc_message(m))) =~= (spec_frame(enc_message(msgs[0]))
            + spec_message_stream(msgs.drop_first())) + spec_frame(enc_message(m)));
    }
}

/// Serialises and frames one message, ready for a single transport write.
pub fn frame_message(m: &ProtocolMessage) -> (r: Vec<u8>)
    ensures
        r@ == spec_frame(enc_message(m@)),
        wf_message(m@),
{
    let body = serialize_message(m);
    write_frame(&body)
}

/// Encodes a whole queue of messages: the result is exactly the
/// concatenation of their frames, in queue order.
pub fn encode_message_stream(msgs: &Vec<ProtocolMessage>) -> (r: Vec<u8>)
    ensures
        r@ == spec_message_stream(msgs@.map_values(|m: ProtocolMessage| m@)),
{
    let ghost model = msgs@.map_values(|m: ProtocolMessage| m@);
    let mut out: Vec<u8> = Vec::new();
    let mut i: usize = 0;
    while i < msgs.len()
        invariant
            0 <= i <= msgs.len(),
            model == msgs@.map_values(|m: ProtocolMessage| m@),
            out@ == spec_message_stream(model.take(i as int)),
        decreases msgs.len() - i,
    {
        let mut packet = frame_message(&msgs[i]);
        let mut j: usize = 0;
        let ghost out_before = out@;
        while j < packet.len()
            invariant
                0 <= j <= packet.len(),
                out@ == out_before + packet@.take(j as int),
            decreases packet.len() - j,
        {
            out.push(packet[j]);
            proof {
                assert(packet@.take(j as int).push(packet@[j as int]) =~= packet@.take(
                    j + 1 as int,
                ));
                assert(out_before + packet@.take(j as int) + seq![packet@[j as int]] =~= out_before
                    + packet@.take(j + 1 as int));
            }
            j = j + 1;
        }
        proof {
            assert(packet@.take(packet@.len() as int) =~= packet@);
            lemma_message_stream_push(model.take(i as int), model[i as int]);
            assert(model.take(i as int).push(model[i as int]) =~= model.take(i + 1 as int));
        }
        i = i + 1;
    }
    proof {
        assert(model.take(model.len() as int) =~= model);
    }
    out
}

} // verus!
