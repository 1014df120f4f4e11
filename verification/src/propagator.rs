//! The propagator: when a message arrives or a vertex turns solid, the
//! solid front advances through every child whose other parent was already
//! solid.

use vstd::prelude::*;
use crate::ids::MessageId;
use crate::tangle::Tangle;

verus! {

/// The ids of the stored vertices that are not yet solid.
pub open spec fn unsolid_keys(t: &Tangle) -> Set<Seq<u8>> {
    t.vmap().dom().filter(|k: Seq<u8>| !t.vmap()[k].metadata.flags.is_solid)
}

/// The root is stored, unsolid, and both its parents count as solid.
pub open spec fn root_eligible(t: &Tangle, root: Seq<u8>) -> bool {
    &&& t.vmap().contains_key(root)
    &&& !t.vmap()[root].metadata.flags.is_solid
    &&& t.parent_solid(t.vmap()[root].message.parent1)
    &&& t.parent_solid(t.vmap()[root].message.parent2)
}

/// When a popped id is skipped without turning solid, the root's claim to
/// progress survives: it is already solid, it was the popped id (impossible
/// in the skip branches that call this), or its stack witness sits below
/// the popped position.
proof fn lemma_root_witness_survives(
    t: &Tangle,
    t0: &Tangle,
    root: Seq<u8>,
    stack0: Seq<crate::ids::MessageId>,
    stack1: Seq<crate::ids::MessageId>,
    popped: Seq<u8>,
)
    requires
        stack0.len() > 0,
        stack1 =~= stack0.drop_last(),
        (stack0[stack0.len() - 1])@ == popped,
        root_eligible(t0, root) ==> t.vmap().contains_key(root) && (t.vmap()[
            root
        ].metadata.flags.is_solid || exists|j: int|
            0 <= j < stack0.len() && (#[trigger] stack0[j])@ == root),
        // the popped id did not need handling: it is not an unsolid root
        root_eligible(t0, root) && popped == root ==> t.vmap()[root].metadata.flags.is_solid,
    ensures
        root_eligible(t0, root) ==> t.vmap()[root].metadata.flags.is_solid || exists|j: int|
            0 <= j < stack1.len() && (#[trigger] stack1[j])@ == root,
{
    if root_eligible(t0, root) && !t.vmap()[root].metadata.flags.is_solid {
        let j = choose|j: int| 0 <= j < stack0.len() && (#[trigger] stack0[j])@ == root;
        assert(j < stack0.len() - 1);
        assert(stack1[j] == stack0[j]);
    }
}

/// Recomputes solidity from `root` outward: a vertex becomes solid when
/// both parents are solid or solid entry points, and every child of a newly
/// solid vertex is revisited.  Returns the ids that turned solid, in the
/// order they did.
pub fn propagate(tangle: &mut Tangle, root: MessageId) -> (solidified: Vec<MessageId>)
    requires
        old(tangle).inv(),
    ensures
        final(tangle).inv(),
        final(tangle).vmap().dom() == old(tangle).vmap().dom(),
        forall|k: Seq<u8>| #[trigger]
            final(tangle).vmap().contains_key(k) ==> final(tangle).vmap()[k].message == old(
                tangle,
            ).vmap()[k].message,
        forall|k: Seq<u8>| #[trigger]
            old(tangle).vmap().contains_key(k) && old(tangle).vmap()[k].metadata.flags.is_solid
                ==> final(tangle).vmap()[k].metadata.flags.is_solid,
        forall|j: int|
            0 <= j < solidified@.len() ==> final(tangle).vmap().contains_key(
                (#[trigger] solidified@[j])@,
            ) && final(tangle).vmap()[solidified@[j]@].metadata.flags.is_solid && !old(
                tangle,
            ).vmap()[solidified@[j]@].metadata.flags.is_solid,
        final(tangle).cmap() == old(tangle).cmap(),
        final(tangle).sep_map() == old(tangle).sep_map(),
        final(tangle).ms_map() == old(tangle).ms_map(),
        final(tangle).latest_solid_milestone_index == old(tangle).latest_solid_milestone_index,
        final(tangle).latest_milestone_index == old(tangle).latest_milestone_index,
        final(tangle).pruning_index == old(tangle).pruning_index,
        final(tangle).solid_milestone_log == old(tangle).solid_milestone_log,
{
    let mut stack: Vec<MessageId> = Vec::new();
    stack.push(root);
    let mut solidified: Vec<MessageId> = Vec::new();
    proof {
        crate::tangle::lemma_pairs_to_map(tangle.vseq());
        assert((stack@[0])@ == root@);
    }
    while stack.len() > 0
        invariant
            tangle.inv(),
            unsolid_keys(tangle).finite(),
            tangle.vmap().dom() == old(tangle).vmap().dom(),
            forall|k: Seq<u8>| #[trigger]
                tangle.vmap().contains_key(k) ==> tangle.vmap()[k].message == old(tangle).vmap()[
                    k
                ].message,
            forall|k: Seq<u8>| #[trigger]
                old(tangle).vmap().contains_key(k) && old(tangle).vmap()[k].metadata.flags.is_solid
                    ==> tangle.vmap()[k].metadata.flags.is_solid,
            forall|j: int|
                0 <= j < solidified@.len() ==> tangle.vmap().contains_key(
                    (#[trigger] solidified@[j])@,
                ) && tangle.vmap()[solidified@[j]@].metadata.flags.is_solid && !old(tangle).vmap()[
                    solidified@[j]@
                ].metadata.flags.is_solid,
            forall|k: Seq<u8>| #[trigger]
                tangle.vmap().contains_key(k) && tangle.vmap()[k].metadata.flags.is_solid ==> old(
                    tangle,
                ).vmap()[k].metadata.flags.is_solid || (exists|j: int|
                    0 <= j < solidified@.len() && (#[trigger] solidified@[j])@ == k),
            root_eligible(old(tangle), root@) ==> tangle.vmap()[root@].metadata.flags.is_solid
                || (exists|j: int| 0 <= j < stack@.len() && (#[trigger] stack@[j])@ == root@),
            tangle.cmap() == old(tangle).cmap(),
            tangle.sep_map() == old(tangle).sep_map(),
            tangle.ms_map() == old(tangle).ms_map(),
            tangle.latest_solid_milestone_index == old(tangle).latest_solid_milestone_index,
            tangle.latest_milestone_index == old(tangle).latest_milestone_index,
            tangle.pruning_index == old(tangle).pruning_index,
            tangle.solid_milestone_log == old(tangle).solid_milestone_log,
        decreases unsolid_keys(tangle).len(), stack@.len(),
    {
        let ghost stack0 = stack@;
        let id = match stack.pop() {
            Some(id) => id,
            None => {
                proof {
                    assert(false);
                }
                return solidified;
            },
        };
        proof {
            assert(stack@ =~= stack0.drop_last());
            assert(id == stack0[stack0.len() - 1]);
            assert(forall|j: int| 0 <= j < stack@.len() ==> stack@[j] == stack0[j]);
        }
        let meta = match tangle.get_metadata(&id) {
            Some(m) => m,
            None => {
                proof {
                    lemma_root_witness_survives(tangle, old(tangle), root@, stack0, stack@, id@);
                }
                continue ;
            },
        };
        if meta.flags.is_solid {
            proof {
                lemma_root_witness_survives(tangle, old(tangle), root@, stack0, stack@, id@);
            }
            continue ;
        }
        let (parent1, parent2) = match tangle.get_message(&id) {
            Some(m) => (*m.parent1(), *m.parent2()),
            None => {
                proof {
                    assert(false);
                }
                return solidified;
            },
        };
        if !tangle.is_solid_message(&parent1) {
            proof {
                if root_eligible(old(tangle), root@) && !tangle.vmap()[
                    root@
                ].metadata.flags.is_solid && id@ == root@ {
                    assert(tangle.vmap()[root@].message == old(tangle).vmap()[root@].message);
                    assert(old(tangle).parent_solid(parent1@));
                    assert(tangle.parent_solid(parent1@)) by {
                        if old(tangle).vmap().contains_key(parent1@) && old(tangle).vmap()[
                            parent1@
                        ].metadata.flags.is_solid {
                            assert(tangle.vmap()[parent1@].metadata.flags.is_solid);
                        }
                    }
                    assert(false);
                }
                lemma_root_witness_survives(tangle, old(tangle), root@, stack0, stack@, id@);
            }
            continue ;
        }
        if !tangle.is_solid_message(&parent2) {
            proof {
                if root_eligible(old(tangle), root@) && !tangle.vmap()[
                    root@
                ].metadata.flags.is_solid && id@ == root@ {
                    assert(tangle.vmap()[root@].message == old(tangle).vmap()[root@].message);
                    assert(old(tangle).parent_solid(parent2@));
                    assert(tangle.parent_solid(parent2@)) by {
                        if old(tangle).vmap().contains_key(parent2@) && old(tangle).vmap()[
                            parent2@
                        ].metadata.flags.is_solid {
                            assert(tangle.vmap()[parent2@].metadata.flags.is_solid);
                        }
                    }
                    assert(false);
                }
                lemma_root_witness_survives(tangle, old(tangle), root@, stack0, stack@, id@);
            }
            continue ;
        }
        let ghost before = *tangle;
        tangle.mark_solid(&id);
        proof {
            assert(unsolid_keys(tangle) =~= unsolid_keys(&before).remove(id@));
            assert(unsolid_keys(&before).contains(id@));
            assert(unsolid_keys(tangle).len() < unsolid_keys(&before).len());
            assert(tangle.vmap().dom() =~= before.vmap().dom());
        }
        let ghost solidified0 = solidified@;
        solidified.push(id);
        proof {
            assert(solidified@ =~= solidified0.push(id));
            assert((solidified@[solidified@.len() - 1])@ == id@);
            // exactness: the one flipped vertex is listed
            assert forall|k: Seq<u8>| #[trigger]
                tangle.vmap().contains_key(k) && tangle.vmap()[k].metadata.flags.is_solid
                implies old(tangle).vmap()[k].metadata.flags.is_solid || (exists|j: int|
                0 <= j < solidified@.len() && (#[trigger] solidified@[j])@ == k) by {
                if k == id@ {
                    assert((solidified@[solidified@.len() - 1])@ == k);
                } else {
                    assert(before.vmap().contains_key(k));
                    assert(tangle.vmap()[k] == before.vmap()[k]);
                    if !old(tangle).vmap()[k].metadata.flags.is_solid {
                        let j = choose|j: int|
                            0 <= j < solidified0.len() && (#[trigger] solidified0[j])@ == k;
                        assert(solidified@[j] == solidified0[j]);
                    }
                }
            }
            // the root stays solid or on the stack
            if root_eligible(old(tangle), root@) {
                if id@ == root@ {
                    assert(tangle.vmap()[root@].metadata.flags.is_solid);
                } else if !tangle.vmap()[root@].metadata.flags.is_solid {
                    assert(!before.vmap()[root@].metadata.flags.is_solid);
                    let j = choose|j: int|
                        0 <= j < stack0.len() && (#[trigger] stack0[j])@ == root@;
                    assert(j < stack0.len() - 1);
                    assert(stack@[j] == stack0[j]);
                }
            }
        }
        let children = tangle.get_children(&id);
        let mut k: usize = 0;
        while k < children.len()
            invariant
                k <= children@.len(),
                tangle.inv(),
                unsolid_keys(tangle).finite(),
                tangle.vmap().dom() == old(tangle).vmap().dom(),
                forall|q: Seq<u8>| #[trigger]
                    tangle.vmap().contains_key(q) ==> tangle.vmap()[q].message == old(
                        tangle,
                    ).vmap()[q].message,
                forall|q: Seq<u8>| #[trigger]
                    old(tangle).vmap().contains_key(q) && old(tangle).vmap()[
                        q
                    ].metadata.flags.is_solid ==> tangle.vmap()[q].metadata.flags.is_solid,
                forall|j: int|
                    0 <= j < solidified@.len() ==> tangle.vmap().contains_key(
                        (#[trigger] solidified@[j])@,
                    ) && tangle.vmap()[solidified@[j]@].metadata.flags.is_solid && !old(
                        tangle,
                    ).vmap()[solidified@[j]@].metadata.flags.is_solid,
                forall|q: Seq<u8>| #[trigger]
                    tangle.vmap().contains_key(q) && tangle.vmap()[q].metadata.flags.is_solid
                        ==> old(tangle).vmap()[q].metadata.flags.is_solid || (exists|j: int|
                        0 <= j < solidified@.len() && (#[trigger] solidified@[j])@ == q),
                root_eligible(old(tangle), root@) ==> tangle.vmap()[
                    root@
                ].metadata.flags.is_solid || (exists|j: int|
                    0 <= j < stack@.len() && (#[trigger] stack@[j])@ == root@),
                tangle.cmap() == old(tangle).cmap(),
                tangle.sep_map() == old(tangle).sep_map(),
                tangle.ms_map() == old(tangle).ms_map(),
                tangle.latest_solid_milestone_index == old(
                    tangle,
                ).latest_solid_milestone_index,
                tangle.latest_milestone_index == old(tangle).latest_milestone_index,
                tangle.pruning_index == old(tangle).pruning_index,
                tangle.solid_milestone_log == old(tangle).solid_milestone_log,
                unsolid_keys(tangle).len() < unsolid_keys(&before).len(),
            decreases children@.len() - k,
        {
            let ghost st0 = stack@;
            stack.push(children[k]);
            proof {
                if root_eligible(old(tangle), root@) && !tangle.vmap()[
                    root@
                ].metadata.flags.is_solid {
                    let j = choose|j: int| 0 <= j < st0.len() && (#[trigger] st0[j])@ == root@;
                    assert(stack@[j] == st0[j]);
                }
            }
            k += 1;
        }
    }
    solidified
}

} // verus!
