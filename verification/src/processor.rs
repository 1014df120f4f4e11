//! The message processor: deduplicate, validate, compute the id, insert,
//! then propagate, request missing parents or rebroadcast.

use vstd::prelude::*;
use crate::digests::{blake2b256_of, compute_message_id};
use crate::ids::MessageId;
use crate::message::{Message, sdec_message};
use crate::peer::PeerId;
use crate::requester::RequestedMessages;
use crate::tangle::{Tangle, spec_arrived, TangleVertexV};

verus! {

/// The node-wide message counters the processor maintains.
#[derive(Clone, Copy, Debug, PartialEq, Eq, Structural, Default)]
pub struct NodeMetrics {
    pub invalid_messages: u64,
    pub known_messages: u64,
    pub new_messages: u64,
}

/// What the processor asks the other workers to do for one new message.
pub enum ProcessorAction {
    /// Recompute solidity starting from the new message.
    Propagate(MessageId),
    /// The message carries a milestone payload: validate it.
    ValidateMilestone(MessageId),
    /// A parent is missing: request it with the given milestone index hint.
    RequestParent(MessageId, u32),
    /// The message was not requested: broadcast its raw bytes to every
    /// handshaked peer except the source.
    BroadcastExcept(PeerId),
}

/// The saturating increment of a counter.
pub open spec fn inc(c: u64) -> u64 {
    crate::peer::saturated_inc(c)
}

/// The observable form of an action: its kind, the bytes of the id it
/// carries, and its hint or peer.
pub open spec fn action_shape(a: ProcessorAction) -> (int, Seq<u8>, u64) {
    match a {
        ProcessorAction::Propagate(m) => (0int, m@, 0u64),
        ProcessorAction::ValidateMilestone(m) => (1int, m@, 0u64),
        ProcessorAction::RequestParent(m, h) => (2int, m@, h as u64),
        ProcessorAction::BroadcastExcept(p) => (3int, Seq::empty(), p.0),
    }
}

/// The action list owed for a freshly inserted message, by shape:
/// propagation first; then, for a requested message, a request for each
/// absent parent with the original index hint, and for an unrequested one a
/// broadcast; last, for a milestone payload, validation.
pub open spec fn spec_processor_actions(
    t: &Tangle,
    m: crate::message::MessageV,
    id: Seq<u8>,
    was_requested: Option<(u32, u64)>,
    source: PeerId,
) -> Seq<(int, Seq<u8>, u64)> {
    let base = seq![(0int, id, 0u64)];
    let mid = match was_requested {
        Some((hint, _)) => (if !t.vmap().contains_key(m.parent1) && !t.sep_map().contains_key(
            m.parent1,
        ) {
            seq![(2int, m.parent1, hint as u64)]
        } else {
            Seq::empty()
        }) + (if m.parent2 != m.parent1 && !t.vmap().contains_key(m.parent2)
            && !t.sep_map().contains_key(m.parent2) {
            seq![(2int, m.parent2, hint as u64)]
        } else {
            Seq::empty()
        }),
        None => seq![(3int, Seq::<u8>::empty(), source.0)],
    };
    let tail = if m.payload is Some && m.payload->Some_0 is Milestone {
        seq![(1int, id, 0u64)]
    } else {
        Seq::<(int, Seq<u8>, u64)>::empty()
    };
    base + mid + tail
}

/// One run of the processor over a received message, following the
/// pipeline: decode, check the network id, compute the BLAKE2b-256 id,
/// check the proof-of-work score, insert idempotently, then emit the owed
/// actions.  Every rejection counts one invalid message; a duplicate counts
/// one known message; a fresh insert counts one new message.
pub fn process_message(
    tangle: &mut Tangle,
    requested: &mut RequestedMessages,
    metrics: &mut NodeMetrics,
    network_id: u64,
    minimum_pow_score: u64,
    source: PeerId,
    bytes: &[u8],
    pow_score: u64,
    now: u64,
) -> (r: (Option<MessageId>, Vec<ProcessorAction>))
    requires
        old(tangle).inv(),
        old(requested).wf(),
    ensures
        final(tangle).inv(),
        final(requested).wf(),
        ({
            let rejected = sdec_message(bytes@) is Err || (sdec_message(bytes@) is Ok && (
            sdec_message(bytes@)->Ok_0.network_id != network_id || pow_score < minimum_pow_score));
            &&& rejected ==> r.0 is None && r.1@.len() == 0 && *final(tangle) == *old(tangle)
                && *final(requested) == *old(requested) && *final(metrics) == (NodeMetrics {
                invalid_messages: inc(old(metrics).invalid_messages),
                ..*old(metrics)
            })
            &&& !rejected ==> ({
                let m = sdec_message(bytes@)->Ok_0;
                let id = blake2b256_of(bytes@);
                if old(tangle).vmap().contains_key(id) {
                    r.0 is None && r.1@.len() == 0 && *final(tangle) == *old(tangle)
                        && *final(requested) == *old(requested) && *final(metrics) == (NodeMetrics {
                        known_messages: inc(old(metrics).known_messages),
                        ..*old(metrics)
                    })
                } else {
                    &&& r.0 is Some && (r.0->Some_0)@ == id
                    &&& final(tangle).vmap().contains_key(id)
                    &&& final(tangle).vmap()[id].message == m
                    &&& final(tangle).vmap()[id].metadata == spec_arrived(
                        now,
                        old(requested)@.contains_key(id),
                    )
                    &&& final(requested)@ == old(requested)@.remove(id)
                    &&& *final(metrics) == (NodeMetrics {
                        new_messages: inc(old(metrics).new_messages),
                        ..*old(metrics)
                    })
                    &&& r.1@.map_values(|a: ProcessorAction| action_shape(a))
                        == spec_processor_actions(
                        old(tangle),
                        m,
                        id,
                        if old(requested)@.contains_key(id) {
                            Some(old(requested)@[id])
                        } else {
                            None
                        },
                        source,
                    )
                }
            })
        }),
{
    let message = match Message::unpack(bytes) {
        Ok(m) => m,
        Err(_) => {
            metrics.invalid_messages = crate::peer::saturating_inc(metrics.invalid_messages);
            return (None, Vec::new());
        },
    };
    if message.network_id() != network_id {
        metrics.invalid_messages = crate::peer::saturating_inc(metrics.invalid_messages);
        return (None, Vec::new());
    }
    let id = compute_message_id(bytes);
    if pow_score < minimum_pow_score {
        metrics.invalid_messages = crate::peer::saturating_inc(metrics.invalid_messages);
        return (None, Vec::new());
    }
    let was_requested = requested.contains_key(&id);
    let parent1 = *message.parent1();
    let parent2 = *message.parent2();
    let is_milestone = match message.payload() {
        Some(crate::message::Payload::Milestone(_)) => true,
        _ => false,
    };
    let parent1_missing = !tangle.contains(&parent1) && !tangle.is_solid_entry_point(&parent1);
    let parent2_missing = !(parent2 == parent1) && !tangle.contains(&parent2)
        && !tangle.is_solid_entry_point(&parent2);
    let inserted = tangle.insert(message, id, now, was_requested);
    if !inserted {
        metrics.known_messages = crate::peer::saturating_inc(metrics.known_messages);
        return (None, Vec::new());
    }
    metrics.new_messages = crate::peer::saturating_inc(metrics.new_messages);
    let mut actions: Vec<ProcessorAction> = Vec::new();
    actions.push(ProcessorAction::Propagate(id));
    let entry = requested.remove(&id);
    match entry {
        Some((hint, _)) => {
            if parent1_missing {
                actions.push(ProcessorAction::RequestParent(parent1, hint));
            }
            if parent2_missing {
                actions.push(ProcessorAction::RequestParent(parent2, hint));
            }
        },
        None => {
            actions.push(ProcessorAction::BroadcastExcept(source));
        },
    }
    if is_milestone {
        actions.push(ProcessorAction::ValidateMilestone(id));
    }
    proof {
        let expected = spec_processor_actions(
            old(tangle),
            sdec_message(bytes@)->Ok_0,
            blake2b256_of(bytes@),
            if old(requested)@.contains_key(blake2b256_of(bytes@)) {
                Some(old(requested)@[blake2b256_of(bytes@)])
            } else {
                None
            },
            source,
        );
        assert(actions@.map_values(|a: ProcessorAction| action_shape(a)) =~= expected);
    }
    (Some(id), actions)
}


impl NodeMetrics {
    /// The change of each counter since an earlier snapshot, as the
    /// periodic rate report uses it; a counter that moved backwards
    /// reports zero.
    pub fn delta_since(&self, earlier: &NodeMetrics) -> (d: NodeMetrics)
        ensures
            d.invalid_messages == (if self.invalid_messages >= earlier.invalid_messages {
                (self.invalid_messages - earlier.invalid_messages) as u64
            } else {
                0u64
            }),
            d.known_messages == (if self.known_messages >= earlier.known_messages {
                (self.known_messages - earlier.known_messages) as u64
            } else {
                0u64
            }),
            d.new_messages == (if self.new_messages >= earlier.new_messages {
                (self.new_messages - earlier.new_messages) as u64
            } else {
                0u64
            }),
    {
        NodeMetrics {
            invalid_messages: if self.invalid_messages >= earlier.invalid_messages {
                self.invalid_messages - earlier.invalid_messages
            } else {
                0
            },
            known_messages: if self.known_messages >= earlier.known_messages {
                self.known_messages - earlier.known_messages
            } else {
                0
            },
            new_messages: if self.new_messages >= earlier.new_messages {
                self.new_messages - earlier.new_messages
            } else {
                0
            },
        }
    }
}

} // verus!
