//! The per-stream packet framer: bytes arrive in arbitrary chunks, headers
//! and bodies accumulate across reads, and every complete frame is handed
//! out exactly once — no bytes are lost or invented at chunk boundaries.

use vstd::prelude::*;
use crate::codec::{CodecError, dec_u16le, enc_u16le, lemma_u16_round};

verus! {

/// Where the framer stands in the current frame.
pub enum RecvState {
    /// Waiting for the three header bytes.
    AwaitingHeader,
    /// The header is read; waiting for `length` body bytes.
    AwaitingBody { packet_type: u8, packet_length: u16 },
}

/// Splits the first `n` bytes off the front of a buffer.
fn take_front(v: &mut Vec<u8>, n: usize) -> (front: Vec<u8>)
    requires
        n <= old(v)@.len(),
    ensures
        front@ == old(v)@.subrange(0, n as int),
        final(v)@ == old(v)@.subrange(n as int, old(v)@.len() as int),
{
    let front = vstd::slice::slice_to_vec(vstd::slice::slice_subrange(v.as_slice(), 0, n));
    let rest = vstd::slice::slice_to_vec(
        vstd::slice::slice_subrange(v.as_slice(), n, v.len()),
    );
    *v = rest;
    front
}

/// Encoding a decoded 16-bit header length gives the two bytes back.
proof fn lemma_u16le_bytes(b0: u8, b1: u8)
    ensures
        enc_u16le(dec_u16le(b0, b1)) == seq![b0, b1],
{
    assert((((b0 as u16) | ((b1 as u16) << 8)) as u8) == b0) by (bit_vector);
    assert(((((b0 as u16) | ((b1 as u16) << 8)) >> 8) as u8) == b1) by (bit_vector);
    assert(enc_u16le(dec_u16le(b0, b1)) =~= seq![b0, b1]);
}

/// The byte stream a list of frames stands for: each frame as its tag, its
/// little-endian length and its body.
pub open spec fn frames_bytes(frames: Seq<(u8, Seq<u8>)>) -> Seq<u8>
    decreases frames.len(),
{
    if frames.len() == 0 {
        Seq::empty()
    } else {
        let f = frames[0];
        seq![f.0] + enc_u16le(f.1.len() as u16) + f.1 + frames_bytes(frames.drop_first())
    }
}

proof fn lemma_frames_bytes_snoc(frames: Seq<(u8, Seq<u8>)>, f: (u8, Seq<u8>))
    ensures
        frames_bytes(frames.push(f)) == frames_bytes(frames) + seq![f.0] + enc_u16le(
            f.1.len() as u16,
        ) + f.1,
    decreases frames.len(),
{
    reveal_with_fuel(frames_bytes, 3);
    if frames.len() == 0 {
        assert(frames.push(f) =~= seq![f]);
        assert((seq![f]).drop_first() =~= Seq::<(u8, Seq<u8>)>::empty());
        assert(frames_bytes(frames.push(f)) =~= frames_bytes(frames) + seq![f.0] + enc_u16le(
            f.1.len() as u16,
        ) + f.1);
    } else {
        assert(frames.push(f).drop_first() =~= frames.drop_first().push(f));
        lemma_frames_bytes_snoc(frames.drop_first(), f);
        assert(frames_bytes(frames.push(f)) =~= frames_bytes(frames) + seq![f.0] + enc_u16le(
            f.1.len() as u16,
        ) + f.1);
    }
}

/// One per-peer framer with its retained partial input.
pub struct PacketFramer {
    pub state: RecvState,
    pub buffer: Vec<u8>,
    pub max_body_length: u16,
}

impl PacketFramer {
    /// The bytes received but not yet handed out as frames: the re-encoded
    /// header, when one was read, followed by the retained buffer.
    pub open spec fn pending(&self) -> Seq<u8> {
        match self.state {
            RecvState::AwaitingHeader => self.buffer@,
            RecvState::AwaitingBody { packet_type, packet_length } => seq![packet_type]
                + enc_u16le(packet_length) + self.buffer@,
        }
    }

    /// No complete frame hides in the retained input.
    pub open spec fn drained(&self) -> bool {
        match self.state {
            RecvState::AwaitingHeader => self.buffer@.len() < 3,
            RecvState::AwaitingBody { packet_type, packet_length } => self.buffer@.len() < (
            packet_length as int),
        }
    }

    /// The framer retains no complete frame and never awaits a body longer
    /// than the configured maximum.
    pub open spec fn wf(&self) -> bool {
        &&& self.drained()
        &&& match self.state {
            RecvState::AwaitingBody { packet_type, packet_length } => packet_length
                <= self.max_body_length,
            _ => true,
        }
    }

    pub fn new(max_body_length: u16) -> (r: Self)
        ensures
            r.pending() == Seq::<u8>::empty(),
            r.wf(),
            r.max_body_length == max_body_length,
    {
        PacketFramer { state: RecvState::AwaitingHeader, buffer: Vec::new(), max_body_length }
    }

    /// Feeds one chunk of received bytes and hands out every frame that is
    /// now complete, in order.  The bytes are conserved: what was pending
    /// plus the chunk equals the emitted frames followed by what is still
    /// pending — partial frames are retained across reads, none is lost.
    /// A header announcing a body longer than the configured maximum is
    /// fatal for the stream.
    pub fn feed(&mut self, bytes: &[u8]) -> (r: Result<Vec<(u8, Vec<u8>)>, CodecError>)
        requires
            old(self).wf(),
        ensures
            match r {
                Ok(frames) => ({
                    &&& old(self).pending() + bytes@ == frames_bytes(
                        frames@.map_values(|f: (u8, Vec<u8>)| (f.0, f.1@)),
                    ) + final(self).pending()
                    &&& final(self).wf()
                    &&& forall|i: int|
                        0 <= i < frames@.len() ==> (#[trigger] frames@[i]).1@.len()
                            <= old(self).max_body_length
                }),
                Err(e) => e == CodecError::BodyTooLarge,
            },
            final(self).max_body_length == old(self).max_body_length,
    {
        crate::codec::push_slice(&mut self.buffer, bytes);
        let mut frames: Vec<(u8, Vec<u8>)> = Vec::new();
        proof {
            assert(old(self).pending() + bytes@ =~= frames_bytes(
                frames@.map_values(|f: (u8, Vec<u8>)| (f.0, f.1@)),
            ) + self.pending());
        }
        loop
            invariant
                self.max_body_length == old(self).max_body_length,
                old(self).pending() + bytes@ == frames_bytes(
                    frames@.map_values(|f: (u8, Vec<u8>)| (f.0, f.1@)),
                ) + self.pending(),
                forall|i: int|
                    0 <= i < frames@.len() ==> (#[trigger] frames@[i]).1@.len() <= old(
                        self,
                    ).max_body_length,
                self.state is AwaitingBody ==> (self.state->packet_length as int)
                    <= self.max_body_length,
            decreases self.buffer@.len(), (if self.state is AwaitingBody {
                1int
            } else {
                0int
            }),
        {
            let advanced = match self.state {
                RecvState::AwaitingHeader => {
                    if self.buffer.len() >= 3 {
                        let packet_type = self.buffer[0];
                        let packet_length = crate::codec::read_u16le(self.buffer.as_slice(), 1);
                        if packet_length > self.max_body_length {
                            return Err(CodecError::BodyTooLarge);
                        }
                        let ghost buf0 = self.buffer@;
                        let header = take_front(&mut self.buffer, 3);
                        self.state = RecvState::AwaitingBody { packet_type, packet_length };
                        proof {
                            lemma_u16le_bytes(buf0[1], buf0[2]);
                            assert(self.pending() =~= buf0);
                        }
                        true
                    } else {
                        false
                    }
                },
                RecvState::AwaitingBody { packet_type, packet_length } => {
                    if self.buffer.len() >= packet_length as usize {
                        let ghost pend0 = self.pending();
                        let ghost frames0 = frames@.map_values(|f: (u8, Vec<u8>)| (f.0, f.1@));
                        let body = take_front(&mut self.buffer, packet_length as usize);
                        self.state = RecvState::AwaitingHeader;
                        let ghost bodyv = body@;
                        frames.push((packet_type, body));
                        proof {
                            let frames1 = frames@.map_values(|f: (u8, Vec<u8>)| (f.0, f.1@));
                            assert(frames1 =~= frames0.push((packet_type, bodyv)));
                            lemma_frames_bytes_snoc(frames0, (packet_type, bodyv));
                            assert(bodyv.len() == packet_length as int);
                            assert(pend0 =~= seq![packet_type] + enc_u16le(packet_length) + bodyv
                                + self.buffer@);
                            assert(frames_bytes(frames1) + self.pending() =~= frames_bytes(frames0)
                                + pend0);
                        }
                        true
                    } else {
                        false
                    }
                },
            };
            if !advanced {
                return Ok(frames);
            }
        }
    }
}

} // verus!
