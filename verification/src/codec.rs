//! Gossip packet codec.
//!
//! Every packet travels as a 3-byte header — type tag (1 byte) and body length
//! (2 bytes, little-endian) — followed by exactly `length` body bytes.  The
//! defined kinds are `Handshake`, `MilestoneRequest`, `MessageRequest`,
//! `MessageBroadcast` and `Heartbeat`.

use vstd::prelude::*;
use crate::ids::MessageId;

verus! {

/// Size in bytes of a packet header.
pub const HEADER_SIZE: usize = 3;

/// Default maximum body length a node accepts (32 KiB).
pub const DEFAULT_MAX_BODY_LENGTH: u16 = 32768;

pub const HANDSHAKE_TYPE: u8 = 1;
pub const MILESTONE_REQUEST_TYPE: u8 = 3;
pub const HEARTBEAT_TYPE: u8 = 6;
pub const MESSAGE_BROADCAST_TYPE: u8 = 10;
pub const MESSAGE_REQUEST_TYPE: u8 = 11;

/// Ways a packet can fail to parse.
#[derive(Clone, Copy, Debug, PartialEq, Eq, Structural)]
pub enum CodecError {
    /// The header's type tag names no defined packet kind.
    InvalidTypeTag,
    /// The header announces a body longer than the configured maximum.
    BodyTooLarge,
    /// The body's layout does not match its kind.
    MalformedBody,
}

// ---------------------------------------------------------------------------
// Integer byte encodings.
// ---------------------------------------------------------------------------
pub open spec fn enc_u16be(x: u16) -> Seq<u8> {
    seq![(x >> 8) as u8, x as u8]
}

pub open spec fn dec_u16be(b0: u8, b1: u8) -> u16 {
    ((b0 as u16) << 8) | (b1 as u16)
}

pub open spec fn enc_u16le(x: u16) -> Seq<u8> {
    seq![x as u8, (x >> 8) as u8]
}

pub open spec fn dec_u16le(b0: u8, b1: u8) -> u16 {
    (b0 as u16) | ((b1 as u16) << 8)
}

pub open spec fn enc_u32be(x: u32) -> Seq<u8> {
    seq![(x >> 24) as u8, (x >> 16) as u8, (x >> 8) as u8, x as u8]
}

pub open spec fn dec_u32be(b0: u8, b1: u8, b2: u8, b3: u8) -> u32 {
    ((b0 as u32) << 24) | ((b1 as u32) << 16) | ((b2 as u32) << 8) | (b3 as u32)
}

pub open spec fn enc_u32le(x: u32) -> Seq<u8> {
    seq![x as u8, (x >> 8) as u8, (x >> 16) as u8, (x >> 24) as u8]
}

pub open spec fn dec_u32le(b0: u8, b1: u8, b2: u8, b3: u8) -> u32 {
    (b0 as u32) | ((b1 as u32) << 8) | ((b2 as u32) << 16) | ((b3 as u32) << 24)
}

pub open spec fn enc_u64be(x: u64) -> Seq<u8> {
    seq![
        (x >> 56) as u8,
        (x >> 48) as u8,
        (x >> 40) as u8,
        (x >> 32) as u8,
        (x >> 24) as u8,
        (x >> 16) as u8,
        (x >> 8) as u8,
        x as u8,
    ]
}

pub open spec fn dec_u64be(b: Seq<u8>) -> u64
    recommends
        b.len() == 8,
{
    ((b[0] as u64) << 56) | ((b[1] as u64) << 48) | ((b[2] as u64) << 40) | ((b[3] as u64) << 32)
        | ((b[4] as u64) << 24) | ((b[5] as u64) << 16) | ((b[6] as u64) << 8) | (b[7] as u64)
}

pub open spec fn enc_u64le(x: u64) -> Seq<u8> {
    seq![
        x as u8,
        (x >> 8) as u8,
        (x >> 16) as u8,
        (x >> 24) as u8,
        (x >> 32) as u8,
        (x >> 40) as u8,
        (x >> 48) as u8,
        (x >> 56) as u8,
    ]
}

pub open spec fn dec_u64le(b: Seq<u8>) -> u64
    recommends
        b.len() == 8,
{
    (b[0] as u64) | ((b[1] as u64) << 8) | ((b[2] as u64) << 16) | ((b[3] as u64) << 24)
        | ((b[4] as u64) << 32) | ((b[5] as u64) << 40) | ((b[6] as u64) << 48)
        | ((b[7] as u64) << 56)
}

/// Decoding inverts encoding, for every 16-bit value and both byte orders.
pub proof fn lemma_u16_round(x: u16)
    ensures
        dec_u16be(enc_u16be(x)[0], enc_u16be(x)[1]) == x,
        dec_u16le(enc_u16le(x)[0], enc_u16le(x)[1]) == x,
{
    assert((((x >> 8) as u8 as u16) << 8) | (x as u8 as u16) == x) by (bit_vector);
    assert((x as u8 as u16) | (((x >> 8) as u8 as u16) << 8) == x) by (bit_vector);
}

/// Decoding inverts encoding, for every 32-bit value and both byte orders.
pub proof fn lemma_u32_round(x: u32)
    ensures
        dec_u32be(enc_u32be(x)[0], enc_u32be(x)[1], enc_u32be(x)[2], enc_u32be(x)[3]) == x,
        dec_u32le(enc_u32le(x)[0], enc_u32le(x)[1], enc_u32le(x)[2], enc_u32le(x)[3]) == x,
{
    assert((((x >> 24) as u8 as u32) << 24) | (((x >> 16) as u8 as u32) << 16) | (((x
        >> 8) as u8 as u32) << 8) | (x as u8 as u32) == x) by (bit_vector);
    assert((x as u8 as u32) | (((x >> 8) as u8 as u32) << 8) | (((x >> 16) as u8 as u32) << 16) | ((
    (x >> 24) as u8 as u32) << 24) == x) by (bit_vector);
}

/// Decoding inverts encoding, for every 64-bit value and both byte orders.
pub proof fn lemma_u64_round(x: u64)
    ensures
        dec_u64be(enc_u64be(x)) == x,
        dec_u64le(enc_u64le(x)) == x,
{
    assert((((x >> 56) as u8 as u64) << 56) | (((x >> 48) as u8 as u64) << 48) | (((x
        >> 40) as u8 as u64) << 40) | (((x >> 32) as u8 as u64) << 32) | (((x
        >> 24) as u8 as u64) << 24) | (((x >> 16) as u8 as u64) << 16) | (((x
        >> 8) as u8 as u64) << 8) | (x as u8 as u64) == x) by (bit_vector);
    assert((x as u8 as u64) | (((x >> 8) as u8 as u64) << 8) | (((x >> 16) as u8 as u64) << 16) | ((
    (x >> 24) as u8 as u64) << 24) | (((x >> 32) as u8 as u64) << 32) | (((x
        >> 40) as u8 as u64) << 40) | (((x >> 48) as u8 as u64) << 48) | (((x
        >> 56) as u8 as u64) << 56) == x) by (bit_vector);
}

// ---------------------------------------------------------------------------
// Executable helpers for building and reading byte buffers.
// ---------------------------------------------------------------------------
pub fn push_slice(out: &mut Vec<u8>, s: &[u8])
    ensures
        final(out)@ == old(out)@ + s@,
{
    let mut i: usize = 0;
    while i < s.len()
        invariant
            i <= s@.len(),
            out@ == old(out)@ + s@.subrange(0, i as int),
        decreases s@.len() - i,
    {
        out.push(s[i]);
        i += 1;
        proof {
            assert(out@ =~= old(out)@ + s@.subrange(0, i as int));
        }
    }
    proof {
        assert(out@ =~= old(out)@ + s@);
    }
}

pub fn push_u16be(out: &mut Vec<u8>, x: u16)
    ensures
        final(out)@ == old(out)@ + enc_u16be(x),
{
    out.push((x >> 8) as u8);
    out.push(x as u8);
    proof {
        assert(out@ =~= old(out)@ + enc_u16be(x));
    }
}

pub fn push_u16le(out: &mut Vec<u8>, x: u16)
    ensures
        final(out)@ == old(out)@ + enc_u16le(x),
{
    out.push(x as u8);
    out.push((x >> 8) as u8);
    proof {
        assert(out@ =~= old(out)@ + enc_u16le(x));
    }
}

pub fn push_u32be(out: &mut Vec<u8>, x: u32)
    ensures
        final(out)@ == old(out)@ + enc_u32be(x),
{
    out.push((x >> 24) as u8);
    out.push((x >> 16) as u8);
    out.push((x >> 8) as u8);
    out.push(x as u8);
    proof {
        assert(out@ =~= old(out)@ + enc_u32be(x));
    }
}

pub fn push_u32le(out: &mut Vec<u8>, x: u32)
    ensures
        final(out)@ == old(out)@ + enc_u32le(x),
{
    out.push(x as u8);
    out.push((x >> 8) as u8);
    out.push((x >> 16) as u8);
    out.push((x >> 24) as u8);
    proof {
        assert(out@ =~= old(out)@ + enc_u32le(x));
    }
}

pub fn push_u64be(out: &mut Vec<u8>, x: u64)
    ensures
        final(out)@ == old(out)@ + enc_u64be(x),
{
    out.push((x >> 56) as u8);
    out.push((x >> 48) as u8);
    out.push((x >> 40) as u8);
    out.push((x >> 32) as u8);
    out.push((x >> 24) as u8);
    out.push((x >> 16) as u8);
    out.push((x >> 8) as u8);
    out.push(x as u8);
    proof {
        assert(out@ =~= old(out)@ + enc_u64be(x));
    }
}

pub fn push_u64le(out: &mut Vec<u8>, x: u64)
    ensures
        final(out)@ == old(out)@ + enc_u64le(x),
{
    out.push(x as u8);
    out.push((x >> 8) as u8);
    out.push((x >> 16) as u8);
    out.push((x >> 24) as u8);
    out.push((x >> 32) as u8);
    out.push((x >> 40) as u8);
    out.push((x >> 48) as u8);
    out.push((x >> 56) as u8);
    proof {
        assert(out@ =~= old(out)@ + enc_u64le(x));
    }
}

pub fn read_u16be(b: &[u8], pos: usize) -> (r: u16)
    requires
        pos + 2 <= b@.len(),
    ensures
        r == dec_u16be(b@[pos as int], b@[pos + 1]),
{
    ((b[pos] as u16) << 8) | (b[pos + 1] as u16)
}

pub fn read_u16le(b: &[u8], pos: usize) -> (r: u16)
    requires
        pos + 2 <= b@.len(),
    ensures
        r == dec_u16le(b@[pos as int], b@[pos + 1]),
{
    (b[pos] as u16) | ((b[pos + 1] as u16) << 8)
}

pub fn read_u32be(b: &[u8], pos: usize) -> (r: u32)
    requires
        pos + 4 <= b@.len(),
    ensures
        r == dec_u32be(b@[pos as int], b@[pos + 1], b@[pos + 2], b@[pos + 3]),
{
    ((b[pos] as u32) << 24) | ((b[pos + 1] as u32) << 16) | ((b[pos + 2] as u32) << 8) | (b[pos
        + 3] as u32)
}

pub fn read_u32le(b: &[u8], pos: usize) -> (r: u32)
    requires
        pos + 4 <= b@.len(),
    ensures
        r == dec_u32le(b@[pos as int], b@[pos + 1], b@[pos + 2], b@[pos + 3]),
{
    (b[pos] as u32) | ((b[pos + 1] as u32) << 8) | ((b[pos + 2] as u32) << 16) | ((b[pos
        + 3] as u32) << 24)
}

pub fn read_u64be(b: &[u8], pos: usize) -> (r: u64)
    requires
        pos + 8 <= b@.len(),
    ensures
        r == dec_u64be(b@.subrange(pos as int, pos + 8)),
{
    let r = ((b[pos] as u64) << 56) | ((b[pos + 1] as u64) << 48) | ((b[pos + 2] as u64) << 40) | ((
    b[pos + 3] as u64) << 32) | ((b[pos + 4] as u64) << 24) | ((b[pos + 5] as u64) << 16) | ((b[pos
        + 6] as u64) << 8) | (b[pos + 7] as u64);
    proof {
        let s = b@.subrange(pos as int, pos + 8);
        assert(s[0] == b@[pos as int]);
        assert(s[1] == b@[pos + 1]);
        assert(s[2] == b@[pos + 2]);
        assert(s[3] == b@[pos + 3]);
        assert(s[4] == b@[pos + 4]);
        assert(s[5] == b@[pos + 5]);
        assert(s[6] == b@[pos + 6]);
        assert(s[7] == b@[pos + 7]);
    }
    r
}

pub fn read_u64le(b: &[u8], pos: usize) -> (r: u64)
    requires
        pos + 8 <= b@.len(),
    ensures
        r == dec_u64le(b@.subrange(pos as int, pos + 8)),
{
    let r = (b[pos] as u64) | ((b[pos + 1] as u64) << 8) | ((b[pos + 2] as u64) << 16) | ((b[pos
        + 3] as u64) << 24) | ((b[pos + 4] as u64) << 32) | ((b[pos + 5] as u64) << 40) | ((b[pos
        + 6] as u64) << 48) | ((b[pos + 7] as u64) << 56);
    proof {
        let s = b@.subrange(pos as int, pos + 8);
        assert(s[0] == b@[pos as int]);
        assert(s[1] == b@[pos + 1]);
        assert(s[2] == b@[pos + 2]);
        assert(s[3] == b@[pos + 3]);
        assert(s[4] == b@[pos + 4]);
        assert(s[5] == b@[pos + 5]);
        assert(s[6] == b@[pos + 6]);
        assert(s[7] == b@[pos + 7]);
    }
    r
}

/// Copies the 32 bytes starting at `pos` into a fixed array.
pub fn read_bytes32(b: &[u8], pos: usize) -> (r: [u8; 32])
    requires
        pos + 32 <= b@.len(),
    ensures
        r@ == b@.subrange(pos as int, pos + 32),
{
    let blen = b.len();
    let mut r = [0u8; 32];
    let mut i: usize = 0;
    while i < 32
        invariant
            i <= 32,
            pos + 32 <= blen == b@.len(),
            forall|j: int| 0 <= j < i ==> r@[j] == b@[pos + j],
        decreases 32 - i,
    {
        r[i] = b[pos + i];
        i += 1;
    }
    proof {
        assert(r@ =~= b@.subrange(pos as int, pos + 32));
    }
    r
}

// ---------------------------------------------------------------------------
// Packet kinds.
// ---------------------------------------------------------------------------
/// First packet exchanged by two peers, carrying identifying parameters.
#[derive(Clone, Debug, PartialEq, Eq)]
pub struct Handshake {
    pub port: u16,
    pub timestamp_ms: u64,
    pub network_id: [u8; 32],
    pub minimum_weight_magnitude: u8,
    pub supported_versions: Vec<u8>,
}

/// Asks a peer for the milestone with the given index; index 0 asks for any.
#[derive(Clone, Copy, Debug, PartialEq, Eq, Structural)]
pub struct MilestoneRequest {
    pub index: u32,
}

/// Asks a peer for the message with the given id.
#[derive(Clone, Copy, Debug, PartialEq, Eq)]
pub struct MessageRequest {
    pub message_id: MessageId,
}

/// Carries the raw bytes of one message.
#[derive(Clone, Debug, PartialEq, Eq)]
pub struct MessageBroadcast {
    pub bytes: Vec<u8>,
}

/// Periodic report of a peer's sync window.
#[derive(Clone, Copy, Debug, PartialEq, Eq, Structural)]
pub struct Heartbeat {
    pub latest_solid_milestone_index: u32,
    pub pruning_index: u32,
    pub latest_milestone_index: u32,
    pub connected_peers: u8,
    pub synced_peers: u8,
}

/// A parsed gossip packet of any kind.
#[derive(Clone, Debug, PartialEq, Eq)]
pub enum Packet {
    Handshake(Handshake),
    MilestoneRequest(MilestoneRequest),
    MessageRequest(MessageRequest),
    MessageBroadcast(MessageBroadcast),
    Heartbeat(Heartbeat),
}

/// Mathematical model of a packet: every byte payload as a sequence.
pub enum PacketV {
    Handshake {
        port: u16,
        timestamp_ms: u64,
        network_id: Seq<u8>,
        minimum_weight_magnitude: u8,
        supported_versions: Seq<u8>,
    },
    MilestoneRequest { index: u32 },
    MessageRequest { message_id: Seq<u8> },
    MessageBroadcast { bytes: Seq<u8> },
    Heartbeat {
        latest_solid_milestone_index: u32,
        pruning_index: u32,
        latest_milestone_index: u32,
        connected_peers: u8,
        synced_peers: u8,
    },
}

impl View for Packet {
    type V = PacketV;

    open spec fn view(&self) -> PacketV {
        match self {
            Packet::Handshake(h) => PacketV::Handshake {
                port: h.port,
                timestamp_ms: h.timestamp_ms,
                network_id: h.network_id@,
                minimum_weight_magnitude: h.minimum_weight_magnitude,
                supported_versions: h.supported_versions@,
            },
            Packet::MilestoneRequest(m) => PacketV::MilestoneRequest { index: m.index },
            Packet::MessageRequest(m) => PacketV::MessageRequest { message_id: m.message_id@ },
            Packet::MessageBroadcast(m) => PacketV::MessageBroadcast { bytes: m.bytes@ },
            Packet::Heartbeat(h) => PacketV::Heartbeat {
                latest_solid_milestone_index: h.latest_solid_milestone_index,
                pruning_index: h.pruning_index,
                latest_milestone_index: h.latest_milestone_index,
                connected_peers: h.connected_peers,
                synced_peers: h.synced_peers,
            },
        }
    }
}

impl PacketV {
    /// The wire type tag of this packet kind.
    pub open spec fn tag(self) -> u8 {
        match self {
            PacketV::Handshake { .. } => HANDSHAKE_TYPE,
            PacketV::MilestoneRequest { .. } => MILESTONE_REQUEST_TYPE,
            PacketV::MessageRequest { .. } => MESSAGE_REQUEST_TYPE,
            PacketV::MessageBroadcast { .. } => MESSAGE_BROADCAST_TYPE,
            PacketV::Heartbeat { .. } => HEARTBEAT_TYPE,
        }
    }

    /// The body bytes of this packet.
    pub open spec fn body(self) -> Seq<u8> {
        match self {
            PacketV::Handshake {
                port,
                timestamp_ms,
                network_id,
                minimum_weight_magnitude,
                supported_versions,
            } => enc_u16be(port) + enc_u64be(timestamp_ms) + network_id + seq![
                minimum_weight_magnitude,
            ] + supported_versions,
            PacketV::MilestoneRequest { index } => enc_u32be(index),
            PacketV::MessageRequest { message_id } => message_id,
            PacketV::MessageBroadcast { bytes } => bytes,
            PacketV::Heartbeat {
                latest_solid_milestone_index,
                pruning_index,
                latest_milestone_index,
                connected_peers,
                synced_peers,
            } => enc_u32be(latest_solid_milestone_index) + enc_u32be(pruning_index) + enc_u32be(
                latest_milestone_index,
            ) + seq![connected_peers, synced_peers],
        }
    }

    /// A packet is well formed when its body fits behind a 3-byte header.
    pub open spec fn wf(self) -> bool {
        &&& self.body().len() <= 0xFFFF
        &&& match self {
            PacketV::Handshake { network_id, .. } => network_id.len() == 32,
            PacketV::MessageRequest { message_id } => message_id.len() == 32,
            _ => true,
        }
    }

    /// The whole frame: header then body.
    pub open spec fn frame(self) -> Seq<u8> {
        seq![self.tag()] + enc_u16le(self.body().len() as u16) + self.body()
    }
}

/// What a body of a given kind parses to: the exact partial inverse of
/// `PacketV::body`.
pub open spec fn spec_decode_body(tag: u8, b: Seq<u8>) -> Result<PacketV, CodecError> {
    if tag == HANDSHAKE_TYPE {
        if b.len() >= 43 && b.len() <= 0xFFFF {
            Ok(
                PacketV::Handshake {
                    port: dec_u16be(b[0], b[1]),
                    timestamp_ms: dec_u64be(b.subrange(2, 10)),
                    network_id: b.subrange(10, 42),
                    minimum_weight_magnitude: b[42],
                    supported_versions: b.subrange(43, b.len() as int),
                },
            )
        } else {
            Err(CodecError::MalformedBody)
        }
    } else if tag == MILESTONE_REQUEST_TYPE {
        if b.len() == 4 {
            Ok(PacketV::MilestoneRequest { index: dec_u32be(b[0], b[1], b[2], b[3]) })
        } else {
            Err(CodecError::MalformedBody)
        }
    } else if tag == MESSAGE_REQUEST_TYPE {
        if b.len() == 32 {
            Ok(PacketV::MessageRequest { message_id: b })
        } else {
            Err(CodecError::MalformedBody)
        }
    } else if tag == MESSAGE_BROADCAST_TYPE {
        if b.len() <= 0xFFFF {
            Ok(PacketV::MessageBroadcast { bytes: b })
        } else {
            Err(CodecError::MalformedBody)
        }
    } else if tag == HEARTBEAT_TYPE {
        if b.len() == 14 {
            Ok(
                PacketV::Heartbeat {
                    latest_solid_milestone_index: dec_u32be(b[0], b[1], b[2], b[3]),
                    pruning_index: dec_u32be(b[4], b[5], b[6], b[7]),
                    latest_milestone_index: dec_u32be(b[8], b[9], b[10], b[11]),
                    connected_peers: b[12],
                    synced_peers: b[13],
                },
            )
        } else {
            Err(CodecError::MalformedBody)
        }
    } else {
        Err(CodecError::InvalidTypeTag)
    }
}

/// Serializes a packet into a full frame: tag, little-endian body length,
/// body bytes.
pub fn encode_packet(p: &Packet) -> (r: Vec<u8>)
    requires
        p@.wf(),
    ensures
        r@ == p@.frame(),
{
    let mut out: Vec<u8> = Vec::new();
    match p {
        Packet::Handshake(h) => {
            out.push(HANDSHAKE_TYPE);
            let body_len = (43 + h.supported_versions.len()) as u16;
            push_u16le(&mut out, body_len);
            push_u16be(&mut out, h.port);
            push_u64be(&mut out, h.timestamp_ms);
            push_slice(&mut out, h.network_id.as_slice());
            out.push(h.minimum_weight_magnitude);
            push_slice(&mut out, h.supported_versions.as_slice());
        },
        Packet::MilestoneRequest(m) => {
            out.push(MILESTONE_REQUEST_TYPE);
            push_u16le(&mut out, 4);
            push_u32be(&mut out, m.index);
        },
        Packet::MessageRequest(m) => {
            out.push(MESSAGE_REQUEST_TYPE);
            push_u16le(&mut out, 32);
            push_slice(&mut out, m.message_id.as_bytes());
        },
        Packet::MessageBroadcast(m) => {
            out.push(MESSAGE_BROADCAST_TYPE);
            push_u16le(&mut out, m.bytes.len() as u16);
            push_slice(&mut out, m.bytes.as_slice());
        },
        Packet::Heartbeat(h) => {
            out.push(HEARTBEAT_TYPE);
            push_u16le(&mut out, 14);
            push_u32be(&mut out, h.latest_solid_milestone_index);
            push_u32be(&mut out, h.pruning_index);
            push_u32be(&mut out, h.latest_milestone_index);
            out.push(h.connected_peers);
            out.push(h.synced_peers);
        },
    }
    proof {
        assert(out@ =~= p@.frame());
    }
    out
}

/// Parses a body of the given kind, returning exactly what
/// `spec_decode_body` defines.
pub fn decode_body(tag: u8, body: &[u8]) -> (r: Result<Packet, CodecError>)
    requires
        body@.len() <= 0xFFFF,
    ensures
        match r {
            Ok(p) => spec_decode_body(tag, body@) == Ok::<PacketV, CodecError>(p@),
            Err(e) => spec_decode_body(tag, body@) == Err::<PacketV, CodecError>(e),
        },
{
    if tag == HANDSHAKE_TYPE {
        if body.len() >= 43 {
            let port = read_u16be(body, 0);
            let timestamp_ms = read_u64be(body, 2);
            let network_id = read_bytes32(body, 10);
            let minimum_weight_magnitude = body[42];
            let supported_versions = vstd::slice::slice_to_vec(
                vstd::slice::slice_subrange(body, 43, body.len()),
            );
            Ok(
                Packet::Handshake(
                    Handshake {
                        port,
                        timestamp_ms,
                        network_id,
                        minimum_weight_magnitude,
                        supported_versions,
                    },
                ),
            )
        } else {
            Err(CodecError::MalformedBody)
        }
    } else if tag == MILESTONE_REQUEST_TYPE {
        if body.len() == 4 {
            Ok(Packet::MilestoneRequest(MilestoneRequest { index: read_u32be(body, 0) }))
        } else {
            Err(CodecError::MalformedBody)
        }
    } else if tag == MESSAGE_REQUEST_TYPE {
        if body.len() == 32 {
            let id_bytes = read_bytes32(body, 0);
            proof {
                assert(id_bytes@ =~= body@);
            }
            Ok(Packet::MessageRequest(MessageRequest { message_id: MessageId::new(id_bytes) }))
        } else {
            Err(CodecError::MalformedBody)
        }
    } else if tag == MESSAGE_BROADCAST_TYPE {
        Ok(Packet::MessageBroadcast(MessageBroadcast { bytes: vstd::slice::slice_to_vec(body) }))
    } else if tag == HEARTBEAT_TYPE {
        if body.len() == 14 {
            Ok(
                Packet::Heartbeat(
                    Heartbeat {
                        latest_solid_milestone_index: read_u32be(body, 0),
                        pruning_index: read_u32be(body, 4),
                        latest_milestone_index: read_u32be(body, 8),
                        connected_peers: body[12],
                        synced_peers: body[13],
                    },
                ),
            )
        } else {
            Err(CodecError::MalformedBody)
        }
    } else {
        Err(CodecError::InvalidTypeTag)
    }
}

/// Packet round trip: decoding the frame a packet was encoded into yields the
/// packet itself, for every well-formed packet of every kind, and the
/// header's length field equals the body's length.
pub proof fn lemma_packet_round_trip(p: PacketV)
    requires
        p.wf(),
    ensures
        ({
            let frame = p.frame();
            &&& frame[0] == p.tag()
            &&& dec_u16le(frame[1], frame[2]) == p.body().len()
            &&& frame.subrange(3, frame.len() as int) == p.body()
            &&& spec_decode_body(p.tag(), p.body()) == Ok::<PacketV, CodecError>(p)
        }),
{
    let frame = p.frame();
    let body = p.body();
    lemma_u16_round(body.len() as u16);
    assert(frame.subrange(3, frame.len() as int) =~= body);
    match p {
        PacketV::Handshake {
            port,
            timestamp_ms,
            network_id,
            minimum_weight_magnitude,
            supported_versions,
        } => {
            lemma_u16_round(port);
            lemma_u64_round(timestamp_ms);
            assert(body.subrange(2, 10) =~= enc_u64be(timestamp_ms));
            assert(body.subrange(10, 42) =~= network_id);
            assert(body.subrange(43, body.len() as int) =~= supported_versions);
            assert(spec_decode_body(p.tag(), body) == Ok::<PacketV, CodecError>(p));
        },
        PacketV::MilestoneRequest { index } => {
            lemma_u32_round(index);
        },
        PacketV::MessageRequest { message_id } => {
        },
        PacketV::MessageBroadcast { bytes } => {
        },
        PacketV::Heartbeat {
            latest_solid_milestone_index,
            pruning_index,
            latest_milestone_index,
            connected_peers,
            synced_peers,
        } => {
            lemma_u32_round(latest_solid_milestone_index);
            lemma_u32_round(pruning_index);
            lemma_u32_round(latest_milestone_index);
        },
    }
}

} // verus!
