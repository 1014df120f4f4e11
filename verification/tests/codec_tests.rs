//! Packet codec and framer behavior.

use bee_core::codec::{
    decode_body, encode_packet, CodecError, Handshake, Heartbeat, MessageBroadcast, MessageRequest,
    MilestoneRequest, Packet, HEADER_SIZE,
};
use bee_core::framer::PacketFramer;
use bee_core::ids::MessageId;

fn round_trip(p: Packet) {
    let frame = encode_packet(&p);
    assert!(frame.len() >= HEADER_SIZE);
    let tag = frame[0];
    let len = u16::from_le_bytes([frame[1], frame[2]]) as usize;
    assert_eq!(frame.len(), HEADER_SIZE + len);
    let back = decode_body(tag, &frame[3..]).unwrap();
    assert_eq!(p, back);
}

#[test]
fn packet_round_trip_handshake() {
    round_trip(Packet::Handshake(Handshake {
        port: 15600,
        timestamp_ms: 1234567890,
        network_id: [7u8; 32],
        minimum_weight_magnitude: 14,
        supported_versions: vec![0b0000_0001],
    }));
}

#[test]
fn packet_round_trip_milestone_request() {
    round_trip(Packet::MilestoneRequest(MilestoneRequest { index: 42 }));
    round_trip(Packet::MilestoneRequest(MilestoneRequest { index: 0 }));
}

#[test]
fn packet_round_trip_message_request() {
    round_trip(Packet::MessageRequest(MessageRequest { message_id: MessageId::new([3u8; 32]) }));
}

#[test]
fn packet_round_trip_message_broadcast() {
    round_trip(Packet::MessageBroadcast(MessageBroadcast { bytes: vec![1, 2, 3, 4, 5] }));
    round_trip(Packet::MessageBroadcast(MessageBroadcast { bytes: vec![] }));
}

#[test]
fn packet_round_trip_heartbeat() {
    round_trip(Packet::Heartbeat(Heartbeat {
        latest_solid_milestone_index: 10,
        pruning_index: 2,
        latest_milestone_index: 12,
        connected_peers: 4,
        synced_peers: 3,
    }));
}

#[test]
fn decode_rejects_unknown_tag() {
    assert_eq!(decode_body(99, &[1, 2, 3]), Err(CodecError::InvalidTypeTag));
}

#[test]
fn decode_rejects_malformed_body() {
    // a milestone request needs exactly four bytes
    assert_eq!(decode_body(3, &[1, 2, 3]), Err(CodecError::MalformedBody));
    // a handshake needs at least 43 bytes
    assert_eq!(decode_body(1, &[0u8; 10]), Err(CodecError::MalformedBody));
}

#[test]
fn framer_reassembles_split_frames() {
    let p1 = encode_packet(&Packet::MilestoneRequest(MilestoneRequest { index: 7 }));
    let p2 = encode_packet(&Packet::Heartbeat(Heartbeat {
        latest_solid_milestone_index: 1,
        pruning_index: 0,
        latest_milestone_index: 2,
        connected_peers: 1,
        synced_peers: 1,
    }));
    let mut stream = Vec::new();
    stream.extend_from_slice(&p1);
    stream.extend_from_slice(&p2);

    let mut framer = PacketFramer::new(32768);
    // feed the stream one byte at a time: no frame may be lost
    let mut frames = Vec::new();
    for b in stream {
        frames.extend(framer.feed(&[b]).unwrap());
    }
    assert_eq!(frames.len(), 2);
    assert_eq!(frames[0].0, 3);
    assert_eq!(frames[1].0, 6);
    assert_eq!(decode_body(frames[0].0, &frames[0].1).unwrap(),
        Packet::MilestoneRequest(MilestoneRequest { index: 7 }));
}

#[test]
fn framer_rejects_oversized_body() {
    let mut framer = PacketFramer::new(4);
    // header announcing a 100-byte body
    let r = framer.feed(&[3, 100, 0]);
    assert_eq!(r.unwrap_err(), CodecError::BodyTooLarge);
}
