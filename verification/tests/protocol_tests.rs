//! End-to-end behavior of the protocol components: processor, requester,
//! peer session, solidifier, white-flag confirmation and tip selection.

use bee_core::codec::{Handshake, Packet};
use bee_core::sender::OutboundQueue;
use bee_core::confirmation::{confirm, merkle_root, LedgerState};
use bee_core::ids::{MessageId, OutputId, TransactionId};
use bee_core::message::{
    Address, Message, MilestonePayload, Payload, SigLockedSingleOutput, TransactionPayload,
    UtxoInput,
};
use bee_core::peer::{
    check_handshake, session_step, HandshakeError, HandshakeExpectation, Peer, PeerId, PeerMetrics,
    Origin, SessionEvent, SessionState,
};
use bee_core::processor::{process_message, NodeMetrics, ProcessorAction};
use bee_core::requester::{
    process_milestone_request, process_request, retry_requests, RequestedMessages,
    RequestedMilestones, RETRY_INTERVAL_MS,
};
use bee_core::solidifier::{MilestoneSolidifier, SolidifierAction};
use bee_core::tangle::Tangle;
use bee_core::tips::{Score, WurtsTipPool};

fn id_of(b: u8) -> MessageId {
    MessageId::new([b; 32])
}

fn message_with_parents(p1: MessageId, p2: MessageId, payload: Option<Payload>) -> Message {
    Message { network_id: 1, parent1: p1, parent2: p2, payload, nonce: 0 }
}

fn simple_tx(input_tx: [u8; 32], input_index: u16) -> TransactionPayload {
    TransactionPayload {
        inputs: vec![UtxoInput { transaction_id: input_tx, output_index: input_index }],
        outputs: vec![SigLockedSingleOutput { address: Address::Ed25519([7u8; 32]), amount: 10 }],
        unlock_blocks: vec![],
    }
}

#[test]
fn processor_counts_known_message() {
    let mut tangle = Tangle::new(0);
    let mut requested = RequestedMessages::new();
    let mut metrics = NodeMetrics::default();
    let msg = message_with_parents(id_of(1), id_of(2), None);
    let bytes = msg.pack_new();

    let (first_id, first_actions) = process_message(
        &mut tangle, &mut requested, &mut metrics, 1, 0, PeerId(9), bytes.as_slice(), 100, 0,
    );
    assert!(first_id.is_some());
    assert_eq!(metrics.new_messages, 1);
    assert!(matches!(first_actions[0], ProcessorAction::Propagate(_)));
    // an unrequested message is rebroadcast to everyone but the source
    assert!(first_actions.iter().any(|a| matches!(a, ProcessorAction::BroadcastExcept(p) if *p == PeerId(9))));

    let (second_id, second_actions) = process_message(
        &mut tangle, &mut requested, &mut metrics, 1, 0, PeerId(9), bytes.as_slice(), 100, 5,
    );
    assert!(second_id.is_none());
    assert!(second_actions.is_empty());
    assert_eq!(metrics.known_messages, 1);
    assert_eq!(tangle.len(), 1);
}

#[test]
fn processor_rejects_wrong_network_and_low_pow() {
    let mut tangle = Tangle::new(0);
    let mut requested = RequestedMessages::new();
    let mut metrics = NodeMetrics::default();
    let msg = message_with_parents(id_of(1), id_of(2), None);
    let bytes = msg.pack_new();

    let (r, _) = process_message(
        &mut tangle, &mut requested, &mut metrics, 2, 0, PeerId(9), bytes.as_slice(), 100, 0,
    );
    assert!(r.is_none());
    assert_eq!(metrics.invalid_messages, 1);

    let (r, _) = process_message(
        &mut tangle, &mut requested, &mut metrics, 1, 50, PeerId(9), bytes.as_slice(), 10, 0,
    );
    assert!(r.is_none());
    assert_eq!(metrics.invalid_messages, 2);
    assert_eq!(tangle.len(), 0);

    let (r, _) = process_message(
        &mut tangle, &mut requested, &mut metrics, 1, 0, PeerId(9), &bytes[1..], 100, 0,
    );
    assert!(r.is_none());
    assert_eq!(metrics.invalid_messages, 3);
}

#[test]
fn request_prefers_peer_that_surely_has_data() {
    // peer A surely covers index 100, peer B may have pruned it away
    let peers = vec![
        Peer {
            epid: PeerId(1),
            origin: Origin::Outbound,
            handshaked: true,
            latest_solid_milestone_index: 110,
            pruning_index: 50,
            latest_milestone_index: 120,
        },
        Peer {
            epid: PeerId(2),
            origin: Origin::Inbound,
            handshaked: true,
            latest_solid_milestone_index: 190,
            pruning_index: 150,
            latest_milestone_index: 200,
        },
    ];
    let mut requested = RequestedMessages::new();
    let mut counter: usize = 0;
    let sent = process_request(&mut requested, &peers, &mut counter, id_of(5), 100, 0);
    assert_eq!(sent, Some(PeerId(1)));
    assert!(requested.contains_key(&id_of(5)));
}

#[test]
fn request_is_idempotent_within_interval() {
    let peers = vec![Peer {
        epid: PeerId(1),
        origin: Origin::Outbound,
        handshaked: true,
        latest_solid_milestone_index: 110,
        pruning_index: 0,
        latest_milestone_index: 120,
    }];
    let mut requested = RequestedMessages::new();
    let mut counter: usize = 0;
    let first = process_request(&mut requested, &peers, &mut counter, id_of(5), 100, 0);
    assert!(first.is_some());
    // a second request for the same id within the retry interval sends nothing
    let second = process_request(&mut requested, &peers, &mut counter, id_of(5), 100, 3);
    assert!(second.is_none());
    assert_eq!(requested.len(), 1);
}

#[test]
fn handshake_with_skewed_clock_is_rejected() {
    let exp = HandshakeExpectation {
        port: 15600,
        network_id: [7u8; 32],
        minimum_weight_magnitude: 14,
        supported_versions: vec![0b0000_0001],
    };
    let hs = Handshake {
        port: 15600,
        timestamp_ms: 100_000,
        network_id: [7u8; 32],
        minimum_weight_magnitude: 14,
        supported_versions: vec![0b0000_0001],
    };
    // ten seconds of skew exceed the five-second tolerance
    let now = 110_000;
    assert_eq!(check_handshake(&hs, &exp, now), Err(HandshakeError::TimestampSkew));

    let mut metrics = PeerMetrics::default();
    let (state, actions) = session_step(
        SessionState::AwaitingHandshake,
        SessionEvent::PacketReceived(Packet::Handshake(hs.clone())),
        &mut metrics,
        &exp,
        now,
    );
    assert_eq!(state, SessionState::AwaitingHandshake);
    assert!(actions.is_empty());
    assert_eq!(metrics.invalid_handshakes, 1);

    // within tolerance the session becomes ready
    let (state, _) = session_step(
        SessionState::AwaitingHandshake,
        SessionEvent::PacketReceived(Packet::Handshake(hs)),
        &mut metrics,
        &exp,
        101_000,
    );
    assert_eq!(state, SessionState::Ready);
}

#[test]
fn solidifier_waits_for_the_next_index() {
    let mut tangle = Tangle::new(5);
    let requested = RequestedMessages::new();
    let mut solidifier = MilestoneSolidifier::new(6);

    // milestone 7 arrives while 6 is unknown: it must wait
    solidifier.save_index(7);
    let actions = solidifier.process_queue(&tangle, &requested);
    assert!(actions.is_empty());
    assert_eq!(solidifier.next_index, 6);

    // index 6 is queued but its message is unknown: the milestone is requested
    solidifier.save_index(6);
    let actions = solidifier.process_queue(&tangle, &requested);
    assert_eq!(actions, vec![SolidifierAction::RequestMilestone(6)]);
    assert_eq!(solidifier.next_index, 6);

    // milestone 6 arrives and is registered: 6 and then 7 are processed
    let m6 = id_of(6);
    tangle.insert(message_with_parents(id_of(60), id_of(61), None), m6, 0, false);
    tangle.add_milestone(6, m6);
    let m7 = id_of(7);
    tangle.insert(message_with_parents(id_of(70), id_of(71), None), m7, 0, false);
    tangle.add_milestone(7, m7);
    solidifier.save_index(6);
    solidifier.save_index(7);
    let actions = solidifier.process_queue(&tangle, &requested);
    assert_eq!(solidifier.next_index, 8);
    // the walk found the missing parents of both milestones
    assert!(actions
        .iter()
        .all(|a| matches!(a, SolidifierAction::RequestMessage(_, h) if *h == 6 || *h == 7)));
    assert!(!actions.is_empty());
}

#[test]
fn white_flag_confirms_cone_and_skips_conflict() {
    let mut tangle = Tangle::new(4);
    let mut ledger = LedgerState::new();

    // two unspent outputs the cone will fight over
    let o1 = OutputId::new(TransactionId::new([101u8; 32]), 0);
    let o2 = OutputId::new(TransactionId::new([102u8; 32]), 0);
    ledger.insert_unspent(o1, SigLockedSingleOutput { address: Address::Ed25519([1u8; 32]), amount: 5 });
    ledger.insert_unspent(o2, SigLockedSingleOutput { address: Address::Ed25519([2u8; 32]), amount: 6 });

    let sep = id_of(0);
    tangle.add_solid_entry_point(sep, 4);

    // T1 spends O1, T2 spends O2, T3 tries to spend O1 again
    let t1 = id_of(1);
    let t2 = id_of(2);
    let t3 = id_of(3);
    let m5 = id_of(5);
    tangle.insert(
        message_with_parents(sep, sep, Some(Payload::Transaction(simple_tx([101u8; 32], 0)))),
        t1, 0, false,
    );
    tangle.insert(
        message_with_parents(t1, sep, Some(Payload::Transaction(simple_tx([102u8; 32], 0)))),
        t2, 0, false,
    );
    tangle.insert(
        message_with_parents(t2, sep, Some(Payload::Transaction(simple_tx([101u8; 32], 0)))),
        t3, 0, false,
    );

    // the declared root covers exactly the included transactions T1 and T2
    let declared = merkle_root(&vec![t1, t2]);
    let milestone = MilestonePayload {
        index: 5,
        timestamp: 0,
        inclusion_merkle_proof: declared,
        signatures: vec![],
    };
    tangle.insert(
        message_with_parents(t3, sep, Some(Payload::Milestone(milestone))),
        m5, 0, false,
    );

    let c = confirm(&mut tangle, &mut ledger, m5).unwrap();
    assert_eq!(c.index, 5);
    assert_eq!(c.cone, vec![t1, t2, t3, m5]);
    assert_eq!(c.included, vec![t1, t2]);
    assert_eq!(c.conflicting, vec![t3]);

    // the delta: O1 and O2 spent, T1's and T2's outputs created
    assert!(!ledger.contains_unspent(&o1));
    assert!(!ledger.contains_unspent(&o2));
    assert!(ledger.contains_spent(&o1));
    assert!(ledger.contains_spent(&o2));
    assert!(ledger.contains_unspent(&OutputId::new(TransactionId::new([1u8; 32]), 0)));
    assert!(ledger.contains_unspent(&OutputId::new(TransactionId::new([2u8; 32]), 0)));
    // the conflicting transaction had no ledger effect
    assert!(!ledger.contains_unspent(&OutputId::new(TransactionId::new([3u8; 32]), 0)));

    // every vertex of the cone carries the milestone's index; none outside
    for v in [t1, t2, t3, m5] {
        assert_eq!(tangle.get_metadata(&v).unwrap().cone_root_index, Some(5));
    }
    assert_eq!(tangle.get_latest_solid_milestone_index(), 5);

    // a second milestone over an already confirmed cone has an empty cone
    let declared6 = merkle_root(&vec![]);
    let m6 = id_of(6);
    tangle.insert(
        message_with_parents(m5, sep, Some(Payload::Milestone(MilestonePayload {
            index: 6,
            timestamp: 0,
            inclusion_merkle_proof: declared6,
            signatures: vec![],
        }))),
        m6, 0, false,
    );
    let c6 = confirm(&mut tangle, &mut ledger, m6).unwrap();
    assert_eq!(c6.cone, vec![m6]);
    assert!(c6.included.is_empty());
}

#[test]
fn white_flag_rejects_wrong_merkle_root() {
    let mut tangle = Tangle::new(4);
    let mut ledger = LedgerState::new();
    let sep = id_of(0);
    tangle.add_solid_entry_point(sep, 4);
    let m5 = id_of(5);
    tangle.insert(
        message_with_parents(sep, sep, Some(Payload::Milestone(MilestonePayload {
            index: 5,
            timestamp: 0,
            inclusion_merkle_proof: [1u8; 32],
            signatures: vec![],
        }))),
        m5, 0, false,
    );
    assert!(confirm(&mut tangle, &mut ledger, m5).is_err());
    // nothing changed
    assert_eq!(tangle.get_metadata(&m5).unwrap().cone_root_index, None);
    assert_eq!(tangle.get_latest_solid_milestone_index(), 4);
}

#[test]
fn tip_pool_evicts_overloaded_parent() {
    let mut pool = WurtsTipPool::new();
    let t1 = id_of(1);
    let t2 = id_of(2);
    let far = id_of(90);
    pool.insert(t1, far, far, Score::NonLazy, 0);
    pool.insert(t2, far, far, Score::NonLazy, 0);
    assert_eq!(pool.num_non_lazy(), 2);

    // children of t1 keep arriving; the third one overloads it
    let c = id_of(10);
    let s = id_of(11);
    let c2 = id_of(12);
    pool.insert(c, t1, far, Score::SemiLazy, 1);
    assert!(pool.contains(&t1));
    pool.insert(s, t1, far, Score::SemiLazy, 2);
    assert!(pool.contains(&t1));
    pool.insert(c2, t1, far, Score::SemiLazy, 3);
    assert!(!pool.contains(&t1));
    assert!(!pool.is_non_lazy(&t1));

    // only t2 is left to select: it is served twice
    let pair = pool.two_non_lazy_tips().unwrap();
    assert_eq!(pair, (t2, t2));
}

#[test]
fn tip_pool_selection_from_empty_pool() {
    let mut pool = WurtsTipPool::new();
    assert!(pool.two_non_lazy_tips().is_none());
}

#[test]
fn milestone_validator_checks_quorum_and_index() {
    let mut tangle = Tangle::new(0);
    let id = id_of(9);
    tangle.insert(
        message_with_parents(id_of(1), id_of(2), Some(Payload::Milestone(MilestonePayload {
            index: 3,
            timestamp: 0,
            inclusion_merkle_proof: [0u8; 32],
            signatures: vec![],
        }))),
        id, 0, false,
    );
    assert_eq!(
        bee_core::validator::validate_milestone(&mut tangle, &id, 1, 2),
        Err(bee_core::validator::ValidationError::BelowQuorum)
    );
    assert_eq!(bee_core::validator::validate_milestone(&mut tangle, &id, 2, 2), Ok(3));
    assert_eq!(tangle.get_latest_milestone_index(), 3);
    assert_eq!(
        bee_core::validator::validate_milestone(&mut tangle, &id, 2, 2),
        Err(bee_core::validator::ValidationError::AlreadyRegistered)
    );
}

#[test]
fn retry_redispatches_only_stale_requests() {
    let peers = vec![Peer {
        epid: PeerId(1),
        origin: Origin::Outbound,
        handshaked: true,
        latest_solid_milestone_index: 110,
        pruning_index: 0,
        latest_milestone_index: 120,
    }];
    let mut requested = RequestedMessages::new();
    let mut counter: usize = 0;
    process_request(&mut requested, &peers, &mut counter, id_of(5), 100, 0);
    process_request(&mut requested, &peers, &mut counter, id_of(6), 100, 4000);

    // at this instant only the first entry is older than the interval
    let now = RETRY_INTERVAL_MS + 1000;
    let sent = retry_requests(&mut requested, &peers, &mut counter, now);
    assert_eq!(sent.len(), 1);
    assert_eq!(sent[0].0, id_of(5));
    assert_eq!(sent[0].1, PeerId(1));

    // right away, nothing is due any more
    let sent = retry_requests(&mut requested, &peers, &mut counter, now + 1);
    assert!(sent.is_empty());
}

#[test]
fn milestone_requests_are_deduplicated() {
    let peers = vec![Peer {
        epid: PeerId(3),
        origin: Origin::Outbound,
        handshaked: true,
        latest_solid_milestone_index: 110,
        pruning_index: 0,
        latest_milestone_index: 120,
    }];
    let mut requested = RequestedMilestones::new();
    let mut counter: usize = 0;
    assert_eq!(
        process_milestone_request(&mut requested, &peers, &mut counter, 42, 0),
        Some(PeerId(3))
    );
    assert_eq!(process_milestone_request(&mut requested, &peers, &mut counter, 42, 1), None);
}

#[test]
fn outbound_queue_backpressure_policies() {
    let mut q = OutboundQueue::new(2);
    assert!(q.push_drop_new(vec![1]));
    assert!(q.push_drop_new(vec![2]));
    // a full queue rejects a new request
    assert!(!q.push_drop_new(vec![3]));
    assert_eq!(q.len(), 2);
    // a heartbeat evicts the oldest entry instead
    q.push_drop_oldest(vec![4]);
    assert_eq!(q.len(), 2);
    assert_eq!(q.pop_front(), Some(vec![2]));
    assert_eq!(q.pop_front(), Some(vec![4]));
    assert_eq!(q.pop_front(), None);
}
