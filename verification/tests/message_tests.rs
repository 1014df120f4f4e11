//! Message, payload and indexation serialization behavior.

use bee_core::ids::MessageId;
use bee_core::message::{
    Address, Ed25519Signature, Error, Indexation, Message, MilestonePayload, Payload,
    ReferenceUnlock, SigLockedSingleOutput, TransactionPayload, UnlockBlock, UtxoInput,
};
use bee_core::text::UTXOInput;
use rand::Rng as _;

const UTXO_INPUT: &str = "52fdfc072182654f163f5f0f9a621d729566c74d10037c4d7bbb0407d1e2c6492a00";

#[test]
fn empty_index() {
    assert!(matches!(
        Indexation::new("".to_string(), &[0x42, 0xff, 0x84, 0xa2, 0x42, 0xff, 0x84, 0xa2]).err(),
        Some(Error::EmptyIndex)
    ));
}

#[test]
fn packed_len() {
    let indexation = Indexation::new(
        "indexation".to_string(),
        &[0x42, 0xff, 0x84, 0xa2, 0x42, 0xff, 0x84, 0xa2],
    )
    .unwrap();
    assert_eq!(indexation.packed_len(), 24);
}

#[test]
fn pack_unpack() {
    let indexation_1 = Indexation::new(
        "indexation".to_string(),
        &[0x42, 0xff, 0x84, 0xa2, 0x42, 0xff, 0x84, 0xa2],
    )
    .unwrap();
    let bytes = indexation_1.pack_new();
    let indexation_2 = Indexation::unpack(bytes.as_slice()).unwrap();

    assert_eq!(indexation_1.packed_len(), bytes.len());
    assert_eq!(indexation_1.index(), indexation_2.index());
    assert_eq!(indexation_1.data(), indexation_2.data());
    assert_eq!(indexation_1.hash(), indexation_2.hash())
}

#[test]
fn unpack_invalid_index_len() {
    let indexation = Indexation::new(
        "indexation".to_string(),
        &[0x42, 0xff, 0x84, 0xa2, 0x42, 0xff, 0x84, 0xa2],
    )
    .unwrap();
    let mut bytes = indexation.pack_new();
    bytes[0..2].copy_from_slice(&1000u16.to_le_bytes());

    assert!(matches!(Indexation::unpack(bytes.as_slice()).err(), Some(Error::Io { .. })));
}

#[test]
fn unpack_invalid_data_len() {
    let indexation = Indexation::new(
        "indexation".to_string(),
        &[0x42, 0xff, 0x84, 0xa2, 0x42, 0xff, 0x84, 0xa2],
    )
    .unwrap();
    let mut bytes = indexation.pack_new();
    bytes[14..18].copy_from_slice(&1000u32.to_le_bytes());

    assert!(matches!(Indexation::unpack(bytes.as_slice()).err(), Some(Error::Io { .. })));
}

#[test]
fn unpack_non_utf8_index() {
    // the index bytes 0, 159, 146, 150 are not valid UTF-8
    let mut bytes: Vec<u8> = Vec::new();
    bytes.extend_from_slice(&4u16.to_le_bytes());
    bytes.extend_from_slice(&[0, 159, 146, 150]);
    bytes.extend_from_slice(&8u32.to_le_bytes());
    bytes.extend_from_slice(&[0x42, 0xff, 0x84, 0xa2, 0x42, 0xff, 0x84, 0xa2]);

    assert!(matches!(Indexation::unpack(bytes.as_slice()).err(), Some(Error::Utf8String { .. })));
}

#[test]
fn from_to_str() {
    assert_eq!(UTXO_INPUT, UTXOInput::from_str(UTXO_INPUT).unwrap().to_string());
}

fn random_bytes32() -> [u8; 32] {
    let mut b = [0u8; 32];
    rand::rng().fill_bytes(&mut b);
    b
}

fn random_message(payload: Option<Payload>) -> Message {
    Message {
        network_id: rand::random::<u64>(),
        parent1: MessageId::new(random_bytes32()),
        parent2: MessageId::new(random_bytes32()),
        payload,
        nonce: rand::random::<u64>(),
    }
}

#[test]
fn message_round_trip_no_payload() {
    for _ in 0..16 {
        let m = random_message(None);
        let bytes = m.pack_new();
        let back = Message::unpack(bytes.as_slice()).unwrap();
        assert_eq!(m, back);
    }
}

#[test]
fn message_round_trip_indexation() {
    for _ in 0..16 {
        let ix = Indexation::new("a tag".to_string(), &[1, 2, 3]).unwrap();
        let m = random_message(Some(Payload::Indexation(ix)));
        let bytes = m.pack_new();
        let back = Message::unpack(bytes.as_slice()).unwrap();
        assert_eq!(m, back);
    }
}

#[test]
fn message_round_trip_milestone() {
    let ms = MilestonePayload {
        index: 7,
        timestamp: 1234567,
        inclusion_merkle_proof: [9u8; 32],
        signatures: vec![vec![3u8; 64], vec![4u8; 64]],
    };
    let m = random_message(Some(Payload::Milestone(ms)));
    let bytes = m.pack_new();
    let back = Message::unpack(bytes.as_slice()).unwrap();
    assert_eq!(m, back);
}

#[test]
fn message_round_trip_transaction() {
    let tx = TransactionPayload {
        inputs: vec![
            UtxoInput { transaction_id: [1u8; 32], output_index: 0 },
            UtxoInput { transaction_id: [2u8; 32], output_index: 3 },
        ],
        outputs: vec![
            SigLockedSingleOutput { address: Address::Ed25519([5u8; 32]), amount: 1000 },
            SigLockedSingleOutput { address: Address::Wots(vec![6u8; 49]), amount: 7 },
        ],
        unlock_blocks: vec![
            UnlockBlock::Signature(Ed25519Signature::new([8u8; 32], vec![9u8; 64])),
            UnlockBlock::Reference(ReferenceUnlock::new(0).unwrap()),
        ],
    };
    let m = random_message(Some(Payload::Transaction(tx)));
    let bytes = m.pack_new();
    let back = Message::unpack(bytes.as_slice()).unwrap();
    assert_eq!(m, back);
}

#[test]
fn message_digest_is_stable() {
    let m = random_message(None);
    let bytes_a = m.pack_new();
    let bytes_b = m.pack_new();
    assert_eq!(bytes_a, bytes_b);
    let id_a = bee_core::digests::compute_message_id(bytes_a.as_slice());
    let id_b = bee_core::digests::compute_message_id(bytes_b.as_slice());
    assert_eq!(id_a, id_b);
    // the digest is not the input handed back
    assert_eq!(id_a.as_bytes().len(), 32);
    assert_ne!(id_a.as_bytes(), &bytes_a[0..32]);
}

#[test]
fn reference_unlock_index_range() {
    assert_eq!(ReferenceUnlock::new(5).unwrap().index(), 5);
    assert!(matches!(ReferenceUnlock::new(127), Err(Error::InvalidIndex)));
}

#[test]
fn message_decode_rejects_truncation() {
    let m = random_message(None);
    let mut bytes = m.pack_new();
    bytes.pop();
    assert!(matches!(Message::unpack(bytes.as_slice()), Err(Error::Io { .. })));
}

#[test]
fn payload_decode_rejects_unknown_kind() {
    let ix = Indexation::new("x".to_string(), &[]).unwrap();
    let m = random_message(Some(Payload::Indexation(ix)));
    let mut bytes = m.pack_new();
    // the payload kind tag sits right after the 76-byte message header
    bytes[76] = 9;
    assert!(matches!(Message::unpack(bytes.as_slice()), Err(Error::InvalidVariant)));
}
