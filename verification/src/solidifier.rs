//! The milestone solidifier: milestones are solidified strictly in index
//! order.  Indices arrive out of order into a sorted queue; the head is
//! processed only when it is exactly the next awaited index, and processing
//! walks the milestone's cone to request every missing ancestor.

use vstd::prelude::*;
use crate::ids::MessageId;
use crate::requester::RequestedMessages;
use crate::tangle::Tangle;

verus! {

/// What the solidifier asks its surroundings to do.
#[derive(Clone, Copy, Debug, PartialEq, Eq)]
pub enum SolidifierAction {
    /// Ask the peers for the milestone with this index.
    RequestMilestone(u32),
    /// Ask the peers for this message, hinting the milestone index whose
    /// cone needs it.
    RequestMessage(MessageId, u32),
}

/// Orders solidification by milestone index.
pub struct MilestoneSolidifier {
    /// Indices awaiting solidification, strictly decreasing, so the next
    /// smallest sits at the end.
    pub queue: Vec<u32>,
    /// The first index not yet processed.
    pub next_index: u32,
}

impl MilestoneSolidifier {
    /// The queue holds strictly decreasing indices.
    pub open spec fn wf(&self) -> bool {
        forall|i: int, j: int| 0 <= i < j < self.queue@.len() ==> self.queue@[i] > self.queue@[j]
    }

    pub fn new(next_index: u32) -> (r: Self)
        ensures
            r.wf(),
            r.next_index == next_index,
            r.queue@ == Seq::<u32>::empty(),
    {
        MilestoneSolidifier { queue: Vec::new(), next_index }
    }

    /// Queues an index for solidification; a duplicate changes nothing, and
    /// the queue stays sorted.
    pub fn save_index(&mut self, target_index: u32)
        requires
            old(self).wf(),
        ensures
            final(self).wf(),
            final(self).next_index == old(self).next_index,
            final(self).queue@.contains(target_index),
            forall|x: u32| #[trigger]
                final(self).queue@.contains(x) <==> old(self).queue@.contains(x) || x
                    == target_index,
    {
        let mut i: usize = 0;
        while i < self.queue.len()
            invariant
                self.wf(),
                i <= self.queue@.len(),
                *self == *old(self),
                forall|k: int| 0 <= k < i ==> self.queue@[k] > target_index,
            decreases self.queue@.len() - i,
        {
            if self.queue[i] == target_index {
                proof {
                    assert(self.queue@.contains(target_index));
                    assert(forall|x: u32| #[trigger]
                        self.queue@.contains(x) <==> old(self).queue@.contains(x) || x
                            == target_index);
                }
                return ;
            }
            if self.queue[i] < target_index {
                self.queue.insert(i, target_index);
                proof {
                    assert(self.queue@ =~= old(self).queue@.subrange(0, i as int).push(
                        target_index,
                    ) + old(self).queue@.subrange(i as int, old(self).queue@.len() as int));
                    assert(self.queue@[i as int] == target_index);
                    assert(self.queue@.contains(target_index));
                    assert forall|a: int, b: int|
                        0 <= a < b < self.queue@.len() implies self.queue@[a] > self.queue@[b] by {
                        if a < i {
                            assert(self.queue@[a] == old(self).queue@[a]);
                        } else if a > i {
                            assert(self.queue@[a] == old(self).queue@[a - 1]);
                        }
                        if b < i {
                            assert(self.queue@[b] == old(self).queue@[b]);
                        } else if b > i {
                            assert(self.queue@[b] == old(self).queue@[b - 1]);
                        }
                    }
                    assert forall|x: u32| #[trigger]
                        self.queue@.contains(x) <==> old(self).queue@.contains(x) || x
                            == target_index by {
                        if self.queue@.contains(x) && x != target_index {
                            let a = choose|a: int|
                                0 <= a < self.queue@.len() && self.queue@[a] == x;
                            if a < i {
                                assert(old(self).queue@[a] == x);
                            } else {
                                assert(old(self).queue@[a - 1] == x);
                            }
                            assert(old(self).queue@.contains(x));
                        }
                        if old(self).queue@.contains(x) {
                            let a = choose|a: int|
                                0 <= a < old(self).queue@.len() && old(self).queue@[a] == x;
                            if a < i {
                                assert(self.queue@[a] == x);
                            } else {
                                assert(self.queue@[a + 1] == x);
                            }
                            assert(self.queue@.contains(x));
                        }
                    }
                }
                return ;
            }
            i += 1;
        }
        self.queue.push(target_index);
        proof {
            assert(self.queue@ =~= old(self).queue@.push(target_index));
            assert(self.queue@[self.queue@.len() - 1] == target_index);
            assert(self.queue@.contains(target_index));
            assert forall|x: u32| #[trigger]
                self.queue@.contains(x) <==> old(self).queue@.contains(x) || x == target_index by {
                if self.queue@.contains(x) && x != target_index {
                    let a = choose|a: int| 0 <= a < self.queue@.len() && self.queue@[a] == x;
                    assert(old(self).queue@[a] == x);
                    assert(old(self).queue@.contains(x));
                }
                if old(self).queue@.contains(x) {
                    let a = choose|a: int|
                        0 <= a < old(self).queue@.len() && old(self).queue@[a] == x;
                    assert(self.queue@[a] == x);
                }
            }
        }
    }
}

/// The walk's visit condition: a stored, unsolid vertex that was not
/// requested (unless it is the walk's root) and has no outstanding request.
pub open spec fn walk_visit(
    t: &Tangle,
    req: Map<Seq<u8>, (u32, u64)>,
    root: Seq<u8>,
    id: Seq<u8>,
) -> bool {
    &&& t.vmap().contains_key(id)
    &&& (!t.vmap()[id].metadata.flags.is_requested || id == root)
    &&& !t.vmap()[id].metadata.flags.is_solid
    &&& !req.contains_key(id)
}

/// A reference that blocks solidification: neither stored, nor a solid
/// entry point, nor already requested.
pub open spec fn missing_ref(t: &Tangle, req: Map<Seq<u8>, (u32, u64)>, id: Seq<u8>) -> bool {
    &&& !t.vmap().contains_key(id)
    &&& !t.sep_map().contains_key(id)
    &&& !req.contains_key(id)
}

/// One parent reference of a stored vertex.
pub open spec fn walk_parent_of(t: &Tangle, u: Seq<u8>, w: Seq<u8>) -> bool {
    t.vmap().contains_key(u) && (t.vmap()[u].message.parent1 == w || t.vmap()[u].message.parent2
        == w)
}

/// The ids of a list, as a set.
pub open spec fn walk_id_set(s: Seq<MessageId>) -> Set<Seq<u8>> {
    s.map_values(|m: MessageId| m@).to_set()
}

/// What the solidification walk means: `visited` is the visitable region
/// the root reaches (distinct, rooted, closed), and `missing` holds exactly
/// the blocking parents discovered from it.
pub open spec fn solidification_walk(
    t: &Tangle,
    req: Map<Seq<u8>, (u32, u64)>,
    root: Seq<u8>,
    visited: Seq<Seq<u8>>,
    missing: Seq<Seq<u8>>,
) -> bool {
    &&& forall|a: int, b: int| 0 <= a < b < visited.len() ==> visited[a] != visited[b]
    &&& forall|a: int| 0 <= a < visited.len() ==> walk_visit(t, req, root, #[trigger] visited[a])
    &&& forall|a: int|
        0 <= a < visited.len() ==> ((#[trigger] visited[a]) == root || exists|b: int|
            0 <= b < visited.len() && walk_parent_of(t, visited[b], visited[a]))
    &&& forall|a: int|
        0 <= a < visited.len() ==> ({
            let p1 = t.vmap()[#[trigger] visited[a]].message.parent1;
            let p2 = t.vmap()[visited[a]].message.parent2;
            &&& (walk_visit(t, req, root, p1) ==> visited.contains(p1))
            &&& (walk_visit(t, req, root, p2) ==> visited.contains(p2))
            &&& (missing_ref(t, req, p1) ==> missing.contains(p1))
            &&& (missing_ref(t, req, p2) ==> missing.contains(p2))
        })
    &&& (walk_visit(t, req, root, root) <==> visited.contains(root))
    &&& forall|m: int|
        0 <= m < missing.len() ==> missing_ref(t, req, #[trigger] missing[m]) && (exists|b: int|
            0 <= b < visited.len() && walk_parent_of(t, visited[b], missing[m]))
}

/// The list holds pairwise distinct ids.
pub open spec fn distinct_ids(s: Seq<MessageId>) -> bool {
    forall|a: int, b: int| 0 <= a < b < s.len() ==> (#[trigger] s[a])@ != (#[trigger] s[b])@
}

/// Every listed id satisfies the walk's visit condition.
pub open spec fn all_visitable(
    t: &Tangle,
    req: Map<Seq<u8>, (u32, u64)>,
    root: Seq<u8>,
    visited: Seq<MessageId>,
) -> bool {
    forall|a: int| 0 <= a < visited.len() ==> walk_visit(t, req, root, (#[trigger] visited[a])@)
}

/// Every reported id is a blocking reference discovered on some visited
/// vertex.
pub open spec fn missing_justified(
    t: &Tangle,
    req: Map<Seq<u8>, (u32, u64)>,
    visited: Seq<MessageId>,
    missing: Seq<MessageId>,
) -> bool {
    forall|a: int|
        0 <= a < missing.len() ==> missing_ref(t, req, (#[trigger] missing[a])@) && (exists|b: int|
            0 <= b < visited.len() && walk_parent_of(t, (visited[b])@, (missing[a])@))
}

fn walk_step(
    tangle: &Tangle,
    requested: &RequestedMessages,
    root: &MessageId,
    v: MessageId,
    visited: &mut Vec<MessageId>,
    missing: &mut Vec<MessageId>,
)
    requires
        tangle.inv(),
        distinct_ids(old(visited)@),
        all_visitable(tangle, requested@, root@, old(visited)@),
        missing_justified(tangle, requested@, old(visited)@, old(missing)@),
    ensures
        distinct_ids(final(visited)@),
        all_visitable(tangle, requested@, root@, final(visited)@),
        missing_justified(tangle, requested@, final(visited)@, final(missing)@),
        final(visited)@.len() >= old(visited)@.len(),
        final(missing)@.len() >= old(missing)@.len(),
        forall|a: int| 0 <= a < old(visited)@.len() ==> final(visited)@[a] == old(visited)@[a],
        forall|a: int| 0 <= a < old(missing)@.len() ==> final(missing)@[a] == old(missing)@[a],
        forall|a: int|
            old(visited)@.len() <= a < final(visited)@.len() ==> ({
                let w = (#[trigger] final(visited)@[a])@;
                w == v@ || exists|b: int|
                    old(visited)@.len() <= b < final(visited)@.len() && walk_parent_of(
                        tangle,
                        (final(visited)@[b])@,
                        w,
                    )
            }),
        forall|a: int|
            old(visited)@.len() <= a < final(visited)@.len() ==> ({
                let p1 = tangle.vmap()[(#[trigger] final(visited)@[a])@].message.parent1;
                let p2 = tangle.vmap()[(final(visited)@[a])@].message.parent2;
                &&& (walk_visit(tangle, requested@, root@, p1) ==> walk_id_set(
                    final(visited)@,
                ).contains(p1))
                &&& (walk_visit(tangle, requested@, root@, p2) ==> walk_id_set(
                    final(visited)@,
                ).contains(p2))
                &&& (missing_ref(tangle, requested@, p1) ==> walk_id_set(
                    final(missing)@,
                ).contains(p1))
                &&& (missing_ref(tangle, requested@, p2) ==> walk_id_set(
                    final(missing)@,
                ).contains(p2))
            }),
        walk_visit(tangle, requested@, root@, v@) ==> walk_id_set(final(visited)@).contains(v@),
        !walk_visit(tangle, requested@, root@, v@) ==> *final(visited) == *old(visited) && *final(missing) == *old(missing),
    decreases tangle.vmap().dom().len() - walk_id_set(old(visited)@).len(),
{
    proof {
        crate::tangle::lemma_pairs_to_map(tangle.vseq());
        let vs = visited@.map_values(|m: MessageId| m@);
        assert(walk_id_set(visited@) <= tangle.vmap().dom()) by {
            assert forall|x: Seq<u8>| walk_id_set(visited@).contains(x)
                implies tangle.vmap().contains_key(x) by {
                let a = choose|a: int| 0 <= a < vs.len() && (#[trigger] vs[a]) == x;
                assert((visited@[a])@ == x);
                assert(walk_visit(tangle, requested@, root@, (visited@[a])@));
            }
        }
        vstd::set_lib::lemma_len_subset(walk_id_set(visited@), tangle.vmap().dom());
    }
    if crate::tangle::id_list_contains(visited, &v) {
        proof {
            let vs2 = visited@.map_values(|m: MessageId| m@);
            assert(walk_id_set(visited@).contains(v@));
            assert(walk_visit(tangle, requested@, root@, v@)) by {
                let a = choose|a: int| 0 <= a < vs2.len() && (#[trigger] vs2[a]) == v@;
                assert((visited@[a])@ == v@);
            }
            assert(true);
        }
        return ;
    }
    let meta = match tangle.get_metadata(&v) {
        Some(m) => m,
        None => {
            proof {
                assert(true);
            }
            return ;
        },
    };
    let is_root = v == *root;
    if (meta.flags.is_requested && !is_root) || meta.flags.is_solid || requested.contains_key(&v) {
        proof {
            assert(true);
        }
        return ;
    }
    let (parent1, parent2) = match tangle.get_message(&v) {
        Some(m) => (*m.parent1(), *m.parent2()),
        None => {
            proof {
                assert(false);
            }
            return ;
        },
    };
    let ghost ms0 = visited@.map_values(|m: MessageId| m@);
    visited.push(v);
    proof {
        let ms1 = visited@.map_values(|m: MessageId| m@);
        assert(ms1 =~= ms0.push(v@));
        assert forall|x: Seq<u8>| #[trigger] ms1.contains(x) implies ms0.contains(x) || x == v@ by {
            let a = choose|a: int| 0 <= a < ms1.len() && ms1[a] == x;
            if a < ms1.len() - 1 {
                assert(ms0[a] == x);
            }
        }
        assert(ms1[ms1.len() - 1] == v@);
        assert forall|x: Seq<u8>| #[trigger] ms0.contains(x) implies ms1.contains(x) by {
            let a = choose|a: int| 0 <= a < ms0.len() && ms0[a] == x;
            assert(ms1[a] == x);
        }
        assert(walk_id_set(visited@) =~= ms0.to_set().insert(v@));
        assert(!ms0.contains(v@));
        vstd::set_lib::lemma_len_subset(ms0.to_set(), tangle.vmap().dom());
        assert(walk_id_set(visited@).len() == ms0.to_set().len() + 1);
        assert(walk_id_set(visited@) <= tangle.vmap().dom()) by {
            assert forall|x: Seq<u8>| walk_id_set(visited@).contains(x)
                implies tangle.vmap().contains_key(x) by {
                if x != v@ {
                    let a = choose|a: int| 0 <= a < ms0.len() && (#[trigger] ms0[a]) == x;
                    assert((old(visited)@[a])@ == x);
                    assert(walk_visit(tangle, requested@, root@, (old(visited)@[a])@));
                }
            }
        }
        vstd::set_lib::lemma_len_subset(walk_id_set(visited@), tangle.vmap().dom());
        assert forall|a: int, b: int|
            0 <= a < b < visited@.len() implies (#[trigger] visited@[a])@ != (
        #[trigger] visited@[b])@ by {
            if b == visited@.len() - 1 {
                assert((visited@[b])@ == v@);
                assert(ms0[a] == (visited@[a])@);
                assert(ms0.contains((visited@[a])@));
            } else {
                assert(visited@[a] == old(visited)@[a]);
                assert(visited@[b] == old(visited)@[b]);
            }
        }
        assert forall|a: int|
            0 <= a < visited@.len() implies walk_visit(
            tangle,
            requested@,
            root@,
            (#[trigger] visited@[a])@,
        ) by {
            if a < visited@.len() - 1 {
                assert(visited@[a] == old(visited)@[a]);
            }
        }
        let msm = visited@.map_values(|m: MessageId| m@);
        assert(forall|a: int| 0 <= a < msm.len() ==> (#[trigger] msm[a]) == (visited@[a])@);
        assert(msm.no_duplicates());
        msm.unique_seq_to_set();
        assert(forall|a: int| 0 <= a < ms0.len() ==> (#[trigger] ms0[a]) == (old(visited)@[a])@);
        assert(ms0.no_duplicates());
        ms0.unique_seq_to_set();
        assert(distinct_ids(visited@));
        assert(all_visitable(tangle, requested@, root@, visited@));
        assert(missing_justified(tangle, requested@, visited@, missing@)) by {
            assert forall|a: int|
                0 <= a < missing@.len() implies missing_ref(
                tangle,
                requested@,
                (#[trigger] missing@[a])@,
            ) && (exists|b: int|
                0 <= b < visited@.len() && walk_parent_of(
                    tangle,
                    (visited@[b])@,
                    (missing@[a])@,
                )) by {
                assert(missing@[a] == old(missing)@[a]);
                let b0 = choose|b: int|
                    0 <= b < old(visited)@.len() && walk_parent_of(
                        tangle,
                        (old(visited)@[b])@,
                        (old(missing)@[a])@,
                    );
                assert(visited@[b0] == old(visited)@[b0]);
            }
        }
    }
    let ghost visited1 = visited@;
    walk_step(tangle, requested, root, parent1, visited, missing);
    let ghost visited2 = visited@;
    let ghost missing2 = missing@;
    proof {
        let msm = visited@.map_values(|m: MessageId| m@);
        assert(forall|a: int| 0 <= a < msm.len() ==> (#[trigger] msm[a]) == (visited@[a])@);
        assert(msm.no_duplicates());
        msm.unique_seq_to_set();
        let m1 = visited1.map_values(|m: MessageId| m@);
        assert(forall|a: int| 0 <= a < m1.len() ==> (#[trigger] m1[a]) == (visited1[a])@);
        assert(m1.no_duplicates());
        m1.unique_seq_to_set();
        assert(walk_id_set(visited@) <= tangle.vmap().dom()) by {
            assert forall|x: Seq<u8>| walk_id_set(visited@).contains(x)
                implies tangle.vmap().contains_key(x) by {
                let a = choose|a: int| 0 <= a < msm.len() && (#[trigger] msm[a]) == x;
                assert((visited@[a])@ == x);
                assert(walk_visit(tangle, requested@, root@, (visited@[a])@));
            }
        }
        vstd::set_lib::lemma_len_subset(walk_id_set(visited@), tangle.vmap().dom());
    }
    walk_step(tangle, requested, root, parent2, visited, missing);
    let ghost visited3 = visited@;
    let ghost missing3 = missing@;
    let push1 = !tangle.contains(&parent1) && !tangle.is_solid_entry_point(&parent1)
        && !requested.contains_key(&parent1);
    if push1 {
        missing.push(parent1);
    }
    let push2 = !tangle.contains(&parent2) && !tangle.is_solid_entry_point(&parent2)
        && !requested.contains_key(&parent2);
    if push2 {
        missing.push(parent2);
    }
    proof {
        assert(missing@ =~= missing3 + (if push1 {
            seq![parent1]
        } else {
            Seq::<MessageId>::empty()
        }) + (if push2 {
            seq![parent2]
        } else {
            Seq::<MessageId>::empty()
        }));
        assert((visited@[ms0.len() as int])@ == v@);
        assert(walk_parent_of(tangle, v@, parent1@));
        assert(walk_parent_of(tangle, v@, parent2@));
        assert forall|a: int|
            0 <= a < missing@.len() implies missing_ref(
            tangle,
            requested@,
            (#[trigger] missing@[a])@,
        ) && (exists|b: int|
            0 <= b < visited@.len() && walk_parent_of(
                tangle,
                (visited@[b])@,
                (missing@[a])@,
            )) by {
            if a < missing3.len() {
                assert(missing@[a] == missing3[a]);
                assert(missing_ref(tangle, requested@, (missing3[a])@));
            } else {
                assert((missing@[a])@ == parent1@ || (missing@[a])@ == parent2@);
                assert(missing_ref(tangle, requested@, (missing@[a])@));
                assert(walk_parent_of(tangle, (visited@[ms0.len() as int])@, (missing@[a])@));
            }
        }
    }
    proof {
        // sets only grow across the descents and pushes
        assert forall|x: Seq<u8>| walk_id_set(visited2).contains(x) implies walk_id_set(
            visited@,
        ).contains(x) by {
            let m2 = visited2.map_values(|m: MessageId| m@);
            let m3 = visited@.map_values(|m: MessageId| m@);
            let a = choose|a: int| 0 <= a < m2.len() && (#[trigger] m2[a]) == x;
            assert(visited@[a] == visited2[a]);
            assert(m3[a] == x);
            assert(m3.contains(x));
        }
        assert forall|x: Seq<u8>| walk_id_set(missing2).contains(x) implies walk_id_set(
            missing@,
        ).contains(x) by {
            let m2 = missing2.map_values(|m: MessageId| m@);
            let m3 = missing@.map_values(|m: MessageId| m@);
            let a = choose|a: int| 0 <= a < m2.len() && (#[trigger] m2[a]) == x;
            assert(missing@[a] == missing2[a]);
            assert(m3[a] == x);
            assert(m3.contains(x));
        }
        assert forall|x: Seq<u8>| walk_id_set(missing3).contains(x) implies walk_id_set(
            missing@,
        ).contains(x) by {
            let m2 = missing3.map_values(|m: MessageId| m@);
            let m3 = missing@.map_values(|m: MessageId| m@);
            let a = choose|a: int| 0 <= a < m2.len() && (#[trigger] m2[a]) == x;
            assert(missing@[a] == missing3[a]);
            assert(m3[a] == x);
            assert(m3.contains(x));
        }
        // the v entry satisfies the closure clauses
        assert(tangle.vmap()[v@].message.parent1 == parent1@);
        assert(tangle.vmap()[v@].message.parent2 == parent2@);
        assert(walk_visit(tangle, requested@, root@, parent1@) ==> walk_id_set(visited@).contains(
            parent1@,
        ));
        assert(walk_visit(tangle, requested@, root@, parent2@) ==> walk_id_set(visited@).contains(
            parent2@,
        ));
        assert(walk_id_set(visited@).contains(v@)) by {
            let mv = visited@.map_values(|m: MessageId| m@);
            assert(mv[ms0.len() as int] == (visited@[ms0.len() as int])@);
            assert(mv[ms0.len() as int] == v@);
        }
        if missing_ref(tangle, requested@, parent1@) {
            assert(push1);
            assert(walk_id_set(missing@).contains(parent1@)) by {
                let m3 = missing@.map_values(|m: MessageId| m@);
                let a = missing3.len() as int;
                assert(missing@[a] == parent1);
                assert(m3[a] == parent1@);
            }
        }
        if missing_ref(tangle, requested@, parent2@) {
            assert(push2);
            assert(walk_id_set(missing@).contains(parent2@)) by {
                let m3 = missing@.map_values(|m: MessageId| m@);
                let a = missing3.len() as int + (if push1 {
                    1int
                } else {
                    0int
                });
                assert(missing@[a] == parent2);
                assert(m3[a] == parent2@);
            }
        }
    }
}

/// Walks the cone below `root` depth first and collects every blocking
/// parent: the ids whose absence keeps the milestone from solidifying.
/// Returns the missing ids together with the walked region, and the pair
/// is exactly a `solidification_walk`.
pub fn collect_missing(tangle: &Tangle, requested: &RequestedMessages, root: MessageId) -> (r: (
    Vec<MessageId>,
    Ghost<Seq<Seq<u8>>>,
))
    requires
        tangle.inv(),
    ensures
        solidification_walk(
            tangle,
            requested@,
            root@,
            r.1@,
            r.0@.map_values(|m: MessageId| m@),
        ),
{
    let mut visited: Vec<MessageId> = Vec::new();
    let mut missing: Vec<MessageId> = Vec::new();
    walk_step(tangle, requested, &root, root, &mut visited, &mut missing);
    let ghost vis = visited@.map_values(|m: MessageId| m@);
    let ghost mis = missing@.map_values(|m: MessageId| m@);
    proof {
        assert(forall|a: int| 0 <= a < vis.len() ==> (#[trigger] vis[a]) == (visited@[a])@);
        assert(forall|a: int| 0 <= a < mis.len() ==> (#[trigger] mis[a]) == (missing@[a])@);
        assert forall|a: int|
            0 <= a < vis.len() implies ((#[trigger] vis[a]) == root@ || exists|b: int|
            0 <= b < vis.len() && walk_parent_of(tangle, vis[b], vis[a])) by {
            if (visited@[a])@ != root@ {
                let b = choose|b: int|
                    0 <= b < visited@.len() && walk_parent_of(
                        tangle,
                        ((#[trigger] visited@[b])@),
                        (visited@[a])@,
                    );
                assert(vis[b] == (visited@[b])@);
                assert(walk_parent_of(tangle, vis[b], vis[a]));
            }
        }
        assert forall|a: int|
            0 <= a < vis.len() implies ({
            let p1 = tangle.vmap()[#[trigger] vis[a]].message.parent1;
            let p2 = tangle.vmap()[vis[a]].message.parent2;
            &&& (walk_visit(tangle, requested@, root@, p1) ==> vis.contains(p1))
            &&& (walk_visit(tangle, requested@, root@, p2) ==> vis.contains(p2))
            &&& (missing_ref(tangle, requested@, p1) ==> mis.contains(p1))
            &&& (missing_ref(tangle, requested@, p2) ==> mis.contains(p2))
        }) by {
            assert(vis[a] == (visited@[a])@);
            assert(walk_id_set(visited@) =~= vis.to_set());
            assert(walk_id_set(missing@) =~= mis.to_set());
        }
        assert(walk_visit(tangle, requested@, root@, root@) <==> vis.contains(root@)) by {
            if walk_visit(tangle, requested@, root@, root@) {
                assert(walk_id_set(visited@).contains(root@));
                assert(walk_id_set(visited@) =~= vis.to_set());
            }
            if vis.contains(root@) {
                let a = choose|a: int| 0 <= a < vis.len() && (#[trigger] vis[a]) == root@;
                assert((visited@[a])@ == root@);
                assert(walk_visit(tangle, requested@, root@, (visited@[a])@));
            }
        }
        assert forall|m: int|
            0 <= m < mis.len() implies missing_ref(tangle, requested@, #[trigger] mis[m]) && (
        exists|b: int| 0 <= b < vis.len() && walk_parent_of(tangle, vis[b], mis[m])) by {
            assert(mis[m] == (missing@[m])@);
            let b = choose|b: int|
                0 <= b < visited@.len() && walk_parent_of(
                    tangle,
                    ((#[trigger] visited@[b])@),
                    (missing@[m])@,
                );
            assert(vis[b] == (visited@[b])@);
            assert(walk_parent_of(tangle, vis[b], mis[m]));
        }
    }
    (missing, Ghost(vis))
}

/// The queue and position after the solidifier drains its head: while the
/// smallest queued index equals the awaited one, it leaves the queue, and
/// the position advances past it exactly when its milestone is known.
pub open spec fn spec_drain(t: &Tangle, queue: Seq<u32>, next: u32) -> (Seq<u32>, u32)
    decreases queue.len(),
{
    if queue.len() == 0 || queue.last() != next || next == u32::MAX {
        (queue, next)
    } else if t.ms_map().contains_key(next) {
        spec_drain(t, queue.drop_last(), (next + 1) as u32)
    } else {
        (queue.drop_last(), next)
    }
}

impl MilestoneSolidifier {
    /// Attempts to solidify one milestone.  When its message id is unknown
    /// the milestone itself is requested and the position does not advance;
    /// when it is known, the cone below it is walked and exactly the
    /// blocking ancestors the walk discovers are requested, in walk order,
    /// with the milestone's index as hint; the position advances past the
    /// index.
    pub fn trigger_solidification(
        &mut self,
        tangle: &Tangle,
        requested: &RequestedMessages,
        target_index: u32,
    ) -> (actions: Vec<SolidifierAction>)
        requires
            old(self).wf(),
            tangle.inv(),
            target_index < u32::MAX,
        ensures
            final(self).wf(),
            final(self).queue == old(self).queue,
            !tangle.ms_map().contains_key(target_index) ==> final(self).next_index == old(
                self,
            ).next_index && actions@ =~= seq![SolidifierAction::RequestMilestone(target_index)],
            tangle.ms_map().contains_key(target_index) ==> final(self).next_index == target_index
                + 1 && (exists|vis: Seq<Seq<u8>>, mis: Seq<Seq<u8>>|
                #[trigger] solidification_walk(
                    tangle,
                    requested@,
                    tangle.ms_map()[target_index],
                    vis,
                    mis,
                ) && actions_request_all(actions@, mis, target_index)),
    {
        let mut actions: Vec<SolidifierAction> = Vec::new();
        match tangle.get_milestone_message_id(target_index) {
            Some(target_id) => {
                let (missing, vis) = collect_missing(tangle, requested, target_id);
                let ghost mis = missing@.map_values(|m: MessageId| m@);
                let mut k: usize = 0;
                while k < missing.len()
                    invariant
                        k <= missing@.len(),
                        mis == missing@.map_values(|m: MessageId| m@),
                        actions@.len() == k,
                        forall|j: int|
                            0 <= j < k ==> (#[trigger] actions@[j])
                                == SolidifierAction::RequestMessage(missing@[j], target_index),
                    decreases missing@.len() - k,
                {
                    actions.push(SolidifierAction::RequestMessage(missing[k], target_index));
                    k += 1;
                }
                proof {
                    assert(actions_request_all(actions@, mis, target_index)) by {
                        assert(forall|j: int|
                            0 <= j < actions@.len() ==> (#[trigger] actions@[j])
                                == SolidifierAction::RequestMessage(missing@[j], target_index));
                        assert(forall|j: int|
                            0 <= j < mis.len() ==> (#[trigger] mis[j]) == (missing@[j])@);
                    }
                }
                self.next_index = target_index + 1;
                actions
            },
            None => {
                actions.push(SolidifierAction::RequestMilestone(target_index));
                proof {
                    assert(actions@ =~= seq![SolidifierAction::RequestMilestone(target_index)]);
                }
                actions
            },
        }
    }

    /// Processes the queue exactly while its smallest entry is the next
    /// awaited index, so milestones are solidified strictly in increasing
    /// index order; the queue and position end as `spec_drain` defines, and
    /// every emitted action either requests the one still-unknown milestone
    /// at the final position or requests a blocking message below a known
    /// milestone in the drained range.
    pub fn process_queue(&mut self, tangle: &Tangle, requested: &RequestedMessages) -> (actions:
        Vec<SolidifierAction>)
        requires
            old(self).wf(),
            tangle.inv(),
        ensures
            final(self).wf(),
            final(self).next_index >= old(self).next_index,
            (final(self).queue@, final(self).next_index) == spec_drain(
                tangle,
                old(self).queue@,
                old(self).next_index,
            ),
            forall|j: int|
                0 <= j < actions@.len() ==> match (#[trigger] actions@[j]) {
                    SolidifierAction::RequestMilestone(idx) => idx == final(self).next_index
                        && !tangle.ms_map().contains_key(idx),
                    SolidifierAction::RequestMessage(m, h) => tangle.ms_map().contains_key(h)
                        && old(self).next_index <= h < final(self).next_index
                        && !tangle.vmap().contains_key(m@) && !tangle.sep_map().contains_key(m@)
                        && !requested@.contains_key(m@),
                },
    {
        let mut actions: Vec<SolidifierAction> = Vec::new();
        loop
            invariant
                self.wf(),
                tangle.inv(),
                self.next_index >= old(self).next_index,
                spec_drain(tangle, self.queue@, self.next_index) == spec_drain(
                    tangle,
                    old(self).queue@,
                    old(self).next_index,
                ),
                forall|j: int|
                    0 <= j < actions@.len() ==> match (#[trigger] actions@[j]) {
                        SolidifierAction::RequestMilestone(idx) => idx == self.next_index
                            && !tangle.ms_map().contains_key(idx) && (self.queue@.len() == 0
                            || self.queue@.last() != self.next_index),
                        SolidifierAction::RequestMessage(m, h) => tangle.ms_map().contains_key(h)
                            && old(self).next_index <= h < self.next_index
                            && !tangle.vmap().contains_key(m@) && !tangle.sep_map().contains_key(
                            m@,
                        ) && !requested@.contains_key(m@),
                    },
            decreases self.queue@.len(),
        {
            let n = self.queue.len();
            if n == 0 {
                return actions;
            }
            let head = self.queue[n - 1];
            if head != self.next_index || head == u32::MAX {
                return actions;
            }
            let ghost q0 = self.queue@;
            let ghost next0 = self.next_index;
            self.queue.pop();
            proof {
                assert(self.queue@ =~= q0.drop_last());
                assert(forall|a: int| 0 <= a < self.queue@.len() ==> self.queue@[a] == q0[a]);
            }
            let known = tangle.contains_milestone(head);
            let mut step = self.trigger_solidification(tangle, requested, head);
            proof {
                if known {
                    assert(self.next_index == head + 1);
                } else {
                    assert(self.next_index == next0);
                    assert(self.queue@.len() == 0 || self.queue@.last() != self.next_index) by {
                        if self.queue@.len() > 0 {
                            assert(q0[q0.len() - 2] > q0[q0.len() - 1]);
                        }
                    }
                }
                assert(spec_drain(tangle, q0, next0) == spec_drain(
                    tangle,
                    self.queue@,
                    self.next_index,
                ));
            }
            let ghost actions0 = actions@;
            let mut k: usize = 0;
            while k < step.len()
                invariant
                    k <= step@.len(),
                    actions@.len() == actions0.len() + k,
                    forall|j: int| 0 <= j < actions0.len() ==> #[trigger] actions@[j] == actions0[j],
                    forall|j: int|
                        actions0.len() <= j < actions@.len() ==> #[trigger] actions@[j] == step@[j
                            - actions0.len()],
                decreases step@.len() - k,
            {
                actions.push(step[k]);
                k += 1;
            }
            proof {
                if !known {
                    assert(step@ =~= seq![SolidifierAction::RequestMilestone(head)]);
                }
            }
            if !known {
                return actions;
            }
        }
    }
}

/// Every action is a request for the matching entry of the missing list,
/// with the given hint.
pub open spec fn actions_request_all(
    actions: Seq<SolidifierAction>,
    mis: Seq<Seq<u8>>,
    hint: u32,
) -> bool {
    &&& actions.len() == mis.len()
    &&& forall|j: int|
        0 <= j < actions.len() ==> ((#[trigger] actions[j]) matches
            SolidifierAction::RequestMessage(m, h) && m@ == mis[j] && h == hint)
}

} // verus!
