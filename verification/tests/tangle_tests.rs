//! Tangle store, vertex and cache behavior.

use bee_core::cache::TinyHashCache;
use bee_core::digests::xx_hash;
use bee_core::ids::MessageId;
use bee_core::message::Message;
use bee_core::propagator::propagate;
use bee_core::tangle::Tangle;
use bee_core::vertex::Vertex;
use rand::Rng as _;

fn random_bytes32() -> [u8; 32] {
    let mut b = [0u8; 32];
    rand::rng().fill_bytes(&mut b);
    b
}

fn random_message() -> Message {
    Message {
        network_id: rand::random::<u64>(),
        parent1: MessageId::new(random_bytes32()),
        parent2: MessageId::new(random_bytes32()),
        payload: None,
        nonce: rand::random::<u64>(),
    }
}

fn message_with_parents(p1: MessageId, p2: MessageId) -> Message {
    Message { network_id: 0, parent1: p1, parent2: p2, payload: None, nonce: 0 }
}

#[test]
fn create_new_vertex() {
    let tx = random_message();
    let metadata = 0b0000_0001u8;

    let vtx = Vertex::new(tx.clone(), metadata);

    assert_eq!(tx.parent1(), vtx.parent1());
    assert_eq!(tx.parent2(), vtx.parent2());
    assert_eq!(&tx, vtx.message());
    assert_eq!(metadata, *vtx.metadata());
}

#[test]
fn update_vertex_meta() {
    let tx = random_message();

    let mut vtx = Vertex::new(tx, 0b0000_0001u8);
    *vtx.metadata_mut() = 0b1111_1110u8;

    assert_eq!(0b1111_1110u8, *vtx.metadata());
}

#[test]
fn test_cache_insert_same_elements() {
    let mut cache = TinyHashCache::new(10);

    let first_buf = &[1, 2, 3];
    let second_buf = &[1, 2, 3];

    assert_eq!(cache.insert(xx_hash(first_buf)), true);
    assert_eq!(cache.insert(xx_hash(second_buf)), false);
    assert_eq!(cache.len(), 1);
}

#[test]
fn test_cache_insert_different_elements() {
    let mut cache = TinyHashCache::new(10);

    let first_buf = &[1, 2, 3];
    let second_buf = &[3, 4, 5];

    assert_eq!(cache.insert(xx_hash(first_buf)), true);
    assert_eq!(cache.insert(xx_hash(second_buf)), true);
    assert_eq!(cache.len(), 2);
}

#[test]
fn test_cache_max_capacity() {
    let mut cache = TinyHashCache::new(1);

    let first_buf = &[1, 2, 3];
    let second_buf = &[3, 4, 5];
    let second_buf_clone = second_buf.clone();

    assert_eq!(cache.insert(xx_hash(first_buf)), true);
    assert_eq!(cache.insert(xx_hash(second_buf)), true);
    assert_eq!(cache.len(), 1);
    assert_eq!(cache.insert(xx_hash(&second_buf_clone)), false);
}

#[test]
fn tangle_insert_is_idempotent() {
    let mut tangle = Tangle::new(0);
    let id = MessageId::new(random_bytes32());
    let msg = random_message();

    assert!(tangle.insert(msg.clone(), id, 100, false));
    assert_eq!(tangle.len(), 1);
    assert!(!tangle.insert(msg, id, 200, false));
    assert_eq!(tangle.len(), 1);
    assert!(tangle.contains(&id));
}

#[test]
fn tangle_tracks_children_of_both_parents() {
    let mut tangle = Tangle::new(0);
    let p1 = MessageId::new([1u8; 32]);
    let p2 = MessageId::new([2u8; 32]);
    let id = MessageId::new([3u8; 32]);
    tangle.insert(message_with_parents(p1, p2), id, 0, false);

    assert_eq!(tangle.get_children(&p1), vec![id]);
    assert_eq!(tangle.get_children(&p2), vec![id]);
}

#[test]
fn solidification_cascades_through_children() {
    let mut tangle = Tangle::new(0);
    let sep = MessageId::new([0u8; 32]);
    tangle.add_solid_entry_point(sep, 0);

    let a = MessageId::new([1u8; 32]);
    let b = MessageId::new([2u8; 32]);
    tangle.insert(message_with_parents(sep, sep), a, 0, false);
    tangle.insert(message_with_parents(a, sep), b, 0, false);

    let solidified = propagate(&mut tangle, a);
    assert_eq!(solidified, vec![a, b]);
    assert!(tangle.get_metadata(&a).unwrap().flags.is_solid);
    assert!(tangle.get_metadata(&b).unwrap().flags.is_solid);
    // referenced milestone indices come from the entry point
    assert_eq!(tangle.get_metadata(&a).unwrap().otrsi, Some(0));
    assert_eq!(tangle.get_metadata(&b).unwrap().ytrsi, Some(0));
}

#[test]
fn unsolid_without_stored_parent() {
    let mut tangle = Tangle::new(0);
    let missing = MessageId::new([9u8; 32]);
    let a = MessageId::new([1u8; 32]);
    tangle.insert(message_with_parents(missing, missing), a, 0, false);

    let solidified = propagate(&mut tangle, a);
    assert!(solidified.is_empty());
    assert!(!tangle.get_metadata(&a).unwrap().flags.is_solid);
}

#[test]
fn milestone_pins_referenced_indices() {
    let mut tangle = Tangle::new(0);
    let id = MessageId::new([4u8; 32]);
    tangle.insert(random_message(), id, 0, false);
    tangle.add_milestone(5, id);

    let meta = tangle.get_metadata(&id).unwrap();
    assert!(meta.flags.is_milestone);
    assert_eq!(meta.otrsi, Some(5));
    assert_eq!(meta.ytrsi, Some(5));
    assert_eq!(tangle.get_milestone_message_id(5), Some(id));
    assert!(tangle.contains_milestone(5));
}

#[test]
fn latest_solid_milestone_index_increases_strictly() {
    let mut tangle = Tangle::new(3);
    assert_eq!(tangle.get_latest_solid_milestone_index(), 3);
    tangle.update_latest_solid_milestone_index(4);
    tangle.update_latest_solid_milestone_index(6);
    assert_eq!(tangle.get_latest_solid_milestone_index(), 6);
    assert!(!tangle.is_synced() || tangle.get_latest_milestone_index() == 6);
}
