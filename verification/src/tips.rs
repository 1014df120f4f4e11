//! The WURTS tip pool: tips are classified against the latest solid
//! milestone index, kept while they are fresh, and served in pairs for new
//! messages to attach to.

use vstd::prelude::*;
use crate::ids::MessageId;
use crate::tangle::{unique_keys, pairs_to_map, lemma_pairs_to_map, lemma_pairs_to_map_push,
    lemma_pairs_to_map_update, lemma_pairs_to_map_remove, id_list_contains};

verus! {

/// C1: the largest allowed distance of a tip's youngest referenced
/// milestone index from the latest solid one.
pub const YTRSI_DELTA: u32 = 8;

/// C2: the distance of the oldest referenced milestone index beyond which a
/// tip turns semi-lazy.
pub const OTRSI_DELTA: u32 = 13;

/// M: the distance of the oldest referenced milestone index beyond which a
/// tip turns lazy.
pub const BELOW_MAX_DEPTH: u32 = 15;

/// A tip is evicted once more than this many children referenced it.
pub const MAX_NUM_CHILDREN: usize = 2;

/// A tip is evicted once its first child is older than this, in
/// milliseconds.
pub const MAX_AGE_MS: u64 = 3000;

/// A tip is evicted once it was selected more than this many times.
pub const MAX_NUM_SELECTIONS: u8 = 2;

/// How fresh a tip's referenced milestones are.
#[derive(Clone, Copy, Debug, PartialEq, Eq, Structural)]
pub enum Score {
    NonLazy,
    SemiLazy,
    Lazy,
}

/// The distance of an index below the latest solid milestone index; an
/// index at or above it is at distance zero.
pub open spec fn spec_delta(lsmi: u32, index: u32) -> u32 {
    if index >= lsmi {
        0u32
    } else {
        (lsmi - index) as u32
    }
}

/// The classification the tip pool uses: a tip whose youngest referenced
/// milestone is older than C1, or whose oldest is older than M, is lazy;
/// one whose oldest is older than C2 is semi-lazy; the rest are non-lazy.
pub open spec fn spec_tip_score(lsmi: u32, otrsi: u32, ytrsi: u32) -> Score {
    if spec_delta(lsmi, ytrsi) > YTRSI_DELTA {
        Score::Lazy
    } else if spec_delta(lsmi, otrsi) > BELOW_MAX_DEPTH {
        Score::Lazy
    } else if spec_delta(lsmi, otrsi) > OTRSI_DELTA {
        Score::SemiLazy
    } else {
        Score::NonLazy
    }
}

/// Classifies a tip by its referenced milestone indices.
pub fn tip_score(lsmi: u32, otrsi: u32, ytrsi: u32) -> (r: Score)
    ensures
        r == spec_tip_score(lsmi, otrsi, ytrsi),
{
    let dy = if ytrsi >= lsmi {
        0
    } else {
        lsmi - ytrsi
    };
    let do_ = if otrsi >= lsmi {
        0
    } else {
        lsmi - otrsi
    };
    if dy > YTRSI_DELTA {
        Score::Lazy
    } else if do_ > BELOW_MAX_DEPTH {
        Score::Lazy
    } else if do_ > OTRSI_DELTA {
        Score::SemiLazy
    } else {
        Score::NonLazy
    }
}

/// The classification of a stored tip against the tangle: a tip without
/// computed referenced milestone indices counts as lazy.
pub open spec fn score_of(t: &crate::tangle::Tangle, id: Seq<u8>) -> Score {
    match (t.parent_otrsi(id), t.parent_ytrsi(id)) {
        (Some(o), Some(y)) => spec_tip_score(t.latest_solid_milestone_index, o, y),
        _ => Score::Lazy,
    }
}

/// What the pool remembers about one tip.
pub struct TipMetadata {
    pub children: Vec<MessageId>,
    pub time_first_child: Option<u64>,
    pub selection_count: u8,
}

/// Model of a tip's bookkeeping.
pub struct TipMetadataV {
    pub children: Seq<Seq<u8>>,
    pub time_first_child: Option<u64>,
    pub selection_count: u8,
}

impl View for TipMetadata {
    type V = TipMetadataV;

    open spec fn view(&self) -> TipMetadataV {
        TipMetadataV {
            children: self.children@.map_values(|c: MessageId| c@),
            time_first_child: self.time_first_child,
            selection_count: self.selection_count,
        }
    }
}

/// The bookkeeping a fresh tip starts with.
pub open spec fn fresh_tip() -> TipMetadataV {
    TipMetadataV { children: Seq::empty(), time_first_child: None, selection_count: 0 }
}

/// A parent's bookkeeping after one child was recorded: the child joins the
/// children once, and the time of the first child is set exactly once.
pub open spec fn linked(e: TipMetadataV, child: Seq<u8>, now: u64) -> TipMetadataV {
    TipMetadataV {
        children: if e.children.contains(child) {
            e.children
        } else {
            e.children.push(child)
        },
        time_first_child: if e.time_first_child is None {
            Some(now)
        } else {
            e.time_first_child
        },
        selection_count: e.selection_count,
    }
}

/// A tip must leave the pool: too many children, or its first child is
/// older than the allowed age.
pub open spec fn evict_due(e: TipMetadataV, now: u64) -> bool {
    ||| e.children.len() > MAX_NUM_CHILDREN
    ||| (e.time_first_child matches Some(t) && now > t && now - t > MAX_AGE_MS)
}

/// Relies on `rand::random_range`: a uniformly chosen index below the
/// bound; nothing is assumed beyond the range.
#[verifier::external_body]
fn random_index(n: usize) -> (r: usize)
    requires
        n > 0,
    ensures
        r < n,
{
    rand::random_range(0..n)
}

/// Appends an id to a duplicate-free list unless it is already there.
fn add_id(list: &mut Vec<MessageId>, id: MessageId)
    requires
        forall|a: int, b: int|
            0 <= a < b < old(list)@.len() ==> (#[trigger] old(list)@[a])@ != (#[trigger] old(list)@[b])@,
    ensures
        forall|a: int, b: int|
            0 <= a < b < final(list)@.len() ==> (#[trigger] final(list)@[a])@ != (#[trigger] final(list)@[b])@,
        id_set(final(list)@) == id_set(old(list)@).insert(id@),
{
    let present = id_list_contains(list, &id);
    if !present {
        let ghost m0 = list@.map_values(|m: MessageId| m@);
        list.push(id);
        proof {
            let m1 = list@.map_values(|m: MessageId| m@);
            assert(m1 =~= m0.push(id@));
            assert forall|x: Seq<u8>| #[trigger] m1.contains(x) implies m0.contains(x) || x
                == id@ by {
                let a = choose|a: int| 0 <= a < m1.len() && m1[a] == x;
                if a < m1.len() - 1 {
                    assert(m0[a] == x);
                }
            }
            assert(m1[m1.len() - 1] == id@);
            assert forall|x: Seq<u8>| #[trigger] m0.contains(x) implies m1.contains(x) by {
                let a = choose|a: int| 0 <= a < m0.len() && m0[a] == x;
                assert(m1[a] == x);
            }
            assert(id_set(list@) =~= m0.to_set().insert(id@));
            assert forall|a: int, b: int|
                0 <= a < b < list@.len() implies (#[trigger] list@[a])@ != (#[trigger] list@[b])@ by {
                if b == list@.len() - 1 {
                    assert((list@[b])@ == id@);
                    assert(m0[a] == (list@[a])@);
                    assert(m0.contains((list@[a])@));
                } else {
                    assert(list@[a] == old(list)@[a]);
                    assert(list@[b] == old(list)@[b]);
                }
            }
        }
    } else {
        proof {
            let m0 = list@.map_values(|m: MessageId| m@);
            if m0.contains(id@) {
                let a = choose|a: int| 0 <= a < m0.len() && m0[a] == id@;
            }
            assert(id_set(list@) =~= id_set(old(list)@).insert(id@));
        }
    }
}

/// Drops an id from a duplicate-free list if it is there.
fn remove_id(list: &mut Vec<MessageId>, id: &MessageId)
    requires
        forall|a: int, b: int|
            0 <= a < b < old(list)@.len() ==> (#[trigger] old(list)@[a])@ != (#[trigger] old(list)@[b])@,
    ensures
        forall|a: int, b: int|
            0 <= a < b < final(list)@.len() ==> (#[trigger] final(list)@[a])@ != (#[trigger] final(list)@[b])@,
        id_set(final(list)@) == id_set(old(list)@).remove(id@),
{
    let mut i: usize = 0;
    while i < list.len()
        invariant
            i <= list@.len(),
            *list == *old(list),
            forall|a: int| 0 <= a < i ==> (#[trigger] list@[a])@ != id@,
            forall|a: int, b: int|
                0 <= a < b < list@.len() ==> (#[trigger] list@[a])@ != (#[trigger] list@[b])@,
        decreases list@.len() - i,
    {
        if list[i] == *id {
            let ghost l0 = list@;
            list.remove(i);
            proof {
                assert(forall|a: int| 0 <= a < i ==> #[trigger] list@[a] == l0[a]);
                assert(forall|a: int|
                    i <= a < list@.len() ==> #[trigger] list@[a] == l0[a + 1]);
                let m0 = l0.map_values(|m: MessageId| m@);
                let m1 = list@.map_values(|m: MessageId| m@);
                assert forall|x: Seq<u8>| #[trigger] m1.contains(x) implies m0.contains(x) && x
                    != id@ by {
                    let a = choose|a: int| 0 <= a < m1.len() && m1[a] == x;
                    if a < i {
                        assert(m0[a] == x);
                        assert((l0[a])@ != (l0[i as int])@);
                    } else {
                        assert(m0[a + 1] == x);
                        assert((l0[a + 1])@ != (l0[i as int])@);
                    }
                }
                assert forall|x: Seq<u8>| #[trigger] m0.contains(x) && x != id@ implies m1.contains(
                    x,
                ) by {
                    let a = choose|a: int| 0 <= a < m0.len() && m0[a] == x;
                    if a < i {
                        assert(m1[a] == x);
                    } else {
                        assert(a != i);
                        assert(m1[a - 1] == x);
                    }
                }
                assert(id_set(list@) =~= id_set(l0).remove(id@));
                assert forall|a: int, b: int|
                    0 <= a < b < list@.len() implies (#[trigger] list@[a])@ != (
                #[trigger] list@[b])@ by {
                    let a2 = if a < i {
                        a
                    } else {
                        a + 1
                    };
                    let b2 = if b < i {
                        b
                    } else {
                        b + 1
                    };
                    assert(list@[a] == l0[a2] && list@[b] == l0[b2]);
                    assert((l0[a2])@ != (l0[b2])@);
                }
            }
            return ;
        }
        i += 1;
    }
    proof {
        let m0 = list@.map_values(|m: MessageId| m@);
        if m0.contains(id@) {
            let a = choose|a: int| 0 <= a < m0.len() && m0[a] == id@;
        }
        assert(id_set(list@) =~= id_set(old(list)@).remove(id@));
    }
}

/// The ids of a list, as a set.
pub open spec fn id_set(s: Seq<MessageId>) -> Set<Seq<u8>> {
    s.map_values(|m: MessageId| m@).to_set()
}

/// The classified tip pool.
pub struct WurtsTipPool {
    pub tips: Vec<(MessageId, TipMetadata)>,
    pub non_lazy_tips: Vec<MessageId>,
    pub semi_lazy_tips: Vec<MessageId>,
}

impl WurtsTipPool {
    /// The mapped association list behind `tmap`.
    pub open spec fn tseq(&self) -> Seq<(MessageId, TipMetadataV)> {
        self.tips@.map_values(|p: (MessageId, TipMetadata)| (p.0, p.1@))
    }

    /// The pool's tips as a map from id bytes to bookkeeping.
    pub open spec fn tmap(&self) -> Map<Seq<u8>, TipMetadataV> {
        pairs_to_map(self.tseq())
    }

    /// The non-lazy tips, as a set of id bytes.
    pub open spec fn non_lazy_set(&self) -> Set<Seq<u8>> {
        id_set(self.non_lazy_tips@)
    }

    /// The semi-lazy tips, as a set of id bytes.
    pub open spec fn semi_lazy_set(&self) -> Set<Seq<u8>> {
        id_set(self.semi_lazy_tips@)
    }

    /// Tip keys are unique and the classification lists are duplicate-free.
    pub open spec fn wf(&self) -> bool {
        &&& unique_keys(self.tseq())
        &&& forall|a: int, b: int|
            0 <= a < b < self.non_lazy_tips@.len() ==> (#[trigger] self.non_lazy_tips@[a])@ != (
            #[trigger] self.non_lazy_tips@[b])@
        &&& forall|a: int, b: int|
            0 <= a < b < self.semi_lazy_tips@.len() ==> (#[trigger] self.semi_lazy_tips@[a])@ != (
            #[trigger] self.semi_lazy_tips@[b])@
    }

    pub fn new() -> (r: Self)
        ensures
            r.wf(),
            r.tmap() == Map::<Seq<u8>, TipMetadataV>::empty(),
            r.non_lazy_set() == Set::<Seq<u8>>::empty(),
            r.semi_lazy_set() == Set::<Seq<u8>>::empty(),
    {
        let r = WurtsTipPool {
            tips: Vec::new(),
            non_lazy_tips: Vec::new(),
            semi_lazy_tips: Vec::new(),
        };
        proof {
            assert(r.tseq() =~= Seq::<(MessageId, TipMetadataV)>::empty());
            assert(r.non_lazy_tips@.map_values(|m: MessageId| m@) =~= Seq::<Seq<u8>>::empty());
            assert(r.non_lazy_set() =~= Set::<Seq<u8>>::empty());
            assert(r.semi_lazy_tips@.map_values(|m: MessageId| m@) =~= Seq::<Seq<u8>>::empty());
            assert(r.semi_lazy_set() =~= Set::<Seq<u8>>::empty());
        }
        r
    }

    /// The number of non-lazy tips.
    pub fn num_non_lazy(&self) -> (r: usize)
        ensures
            r == self.non_lazy_tips@.len(),
    {
        self.non_lazy_tips.len()
    }

    fn find_tip(&self, id: &MessageId) -> (r: Option<usize>)
        ensures
            match r {
                Some(i) => i < self.tips@.len() && (self.tips@[i as int].0)@ == id@,
                None => forall|i: int|
                    0 <= i < self.tips@.len() ==> ((#[trigger] self.tips@[i]).0)@ != id@,
            },
    {
        let mut i: usize = 0;
        while i < self.tips.len()
            invariant
                i <= self.tips@.len(),
                forall|k: int| 0 <= k < i ==> ((#[trigger] self.tips@[k]).0)@ != id@,
            decreases self.tips@.len() - i,
        {
            if self.tips[i].0 == *id {
                return Some(i);
            }
            i += 1;
        }
        None
    }

    /// Whether an id is in the pool.
    pub fn contains(&self, id: &MessageId) -> (r: bool)
        ensures
            r == self.tmap().contains_key(id@),
    {
        let found = self.find_tip(id);
        proof {
            lemma_pairs_to_map(self.tseq());
            assert(forall|i: int|
                0 <= i < self.tseq().len() ==> (#[trigger] self.tseq()[i]).0 == self.tips@[i].0);
            match found {
                Some(i) => {
                    assert(self.tseq()[i as int].0@ == id@);
                    assert(self.tmap().contains_key(id@));
                },
                None => {
                    assert(!self.tmap().contains_key(id@));
                },
            }
        }
        found.is_some()
    }

    /// Whether an id is classified non-lazy.
    pub fn is_non_lazy(&self, id: &MessageId) -> (r: bool)
        ensures
            r == self.non_lazy_set().contains(id@),
    {
        let r = id_list_contains(&self.non_lazy_tips, id);
        proof {
            let mapped = self.non_lazy_tips@.map_values(|m: MessageId| m@);
            if mapped.contains(id@) {
                let a = choose|a: int| 0 <= a < mapped.len() && mapped[a] == id@;
            }
        }
        r
    }
}


impl WurtsTipPool {
    /// Drops a tip from the pool and both classification lists.
    fn remove_tip(&mut self, id: &MessageId)
        requires
            old(self).wf(),
        ensures
            final(self).wf(),
            final(self).tmap() == old(self).tmap().remove(id@),
            final(self).non_lazy_set() == old(self).non_lazy_set().remove(id@),
            final(self).semi_lazy_set() == old(self).semi_lazy_set().remove(id@),
    {
        let found = self.find_tip(id);
        proof {
            lemma_pairs_to_map(self.tseq());
            assert(forall|i: int|
                0 <= i < self.tseq().len() ==> (#[trigger] self.tseq()[i]).0 == self.tips@[i].0);
        }
        match found {
            Some(i) => {
                let ghost t0 = self.tseq();
                self.tips.remove(i);
                proof {
                    assert(self.tseq() =~= t0.remove(i as int));
                    lemma_pairs_to_map_remove(t0, i as int);
                    assert(t0[i as int].0@ == id@);
                }
            },
            None => {
                proof {
                    assert(!self.tmap().contains_key(id@));
                    assert(self.tmap() =~= self.tmap().remove(id@));
                }
            },
        }
        remove_id(&mut self.non_lazy_tips, id);
        remove_id(&mut self.semi_lazy_tips, id);
    }

    /// Stores a fresh entry for a tip, replacing any previous bookkeeping.
    fn store_tip(&mut self, id: MessageId)
        requires
            old(self).wf(),
        ensures
            final(self).wf(),
            final(self).tmap() == old(self).tmap().insert(id@, fresh_tip()),
            final(self).non_lazy_tips == old(self).non_lazy_tips,
            final(self).semi_lazy_tips == old(self).semi_lazy_tips,
    {
        let found = self.find_tip(&id);
        proof {
            lemma_pairs_to_map(self.tseq());
            assert(forall|i: int|
                0 <= i < self.tseq().len() ==> (#[trigger] self.tseq()[i]).0 == self.tips@[i].0);
        }
        let meta = TipMetadata { children: Vec::new(), time_first_child: None, selection_count: 0 };
        proof {
            assert(meta@.children =~= Seq::<Seq<u8>>::empty());
            assert(meta@ == fresh_tip());
        }
        match found {
            Some(i) => {
                let ghost t0 = self.tseq();
                let mut pair = self.tips.remove(i);
                pair.1 = meta;
                self.tips.insert(i, pair);
                proof {
                    assert(self.tips@ =~= old(self).tips@.update(i as int, pair));
                    assert(self.tseq() =~= t0.update(i as int, (pair.0, fresh_tip())));
                    lemma_pairs_to_map_update(t0, i as int, pair.0, fresh_tip());
                    assert(forall|a: int|
                        0 <= a < self.tseq().len() ==> (#[trigger] self.tseq()[a]).0@
                            == t0[a].0@);
                }
            },
            None => {
                let ghost t0 = self.tseq();
                self.tips.push((id, meta));
                proof {
                    assert(self.tseq() =~= t0.push((id, fresh_tip())));
                    lemma_pairs_to_map_push(t0, id, fresh_tip());
                    assert(unique_keys(self.tseq())) by {
                        assert(forall|a: int|
                            0 <= a < t0.len() ==> (#[trigger] t0[a]).0@ != id@);
                        assert(forall|a: int|
                            0 <= a < self.tseq().len() - 1 ==> self.tseq()[a] == t0[a]);
                    }
                }
            },
        }
    }

    /// Registers a child under a parent that is in the pool, then holds the
    /// parent to the retention rules: the child joins the parent's children
    /// once, the time of the first child is recorded exactly once, and a
    /// parent with more than `MAX_NUM_CHILDREN` children or a first child
    /// older than `MAX_AGE_MS` leaves the pool.  A parent outside the pool
    /// leaves everything unchanged.
    fn add_child_and_check(&mut self, parent: &MessageId, child: &MessageId, now: u64)
        requires
            old(self).wf(),
        ensures
            final(self).wf(),
            !old(self).tmap().contains_key(parent@) ==> *final(self) == *old(self),
            old(self).tmap().contains_key(parent@) ==> ({
                let e = linked(old(self).tmap()[parent@], child@, now);
                if evict_due(e, now) {
                    &&& final(self).tmap() == old(self).tmap().remove(parent@)
                    &&& final(self).non_lazy_set() == old(self).non_lazy_set().remove(parent@)
                    &&& final(self).semi_lazy_set() == old(self).semi_lazy_set().remove(parent@)
                } else {
                    &&& final(self).tmap() == old(self).tmap().insert(parent@, e)
                    &&& final(self).non_lazy_set() == old(self).non_lazy_set()
                    &&& final(self).semi_lazy_set() == old(self).semi_lazy_set()
                }
            }),
    {
        let found = self.find_tip(parent);
        proof {
            lemma_pairs_to_map(self.tseq());
            assert(forall|i: int|
                0 <= i < self.tseq().len() ==> (#[trigger] self.tseq()[i]).0 == self.tips@[i].0
                    && self.tseq()[i].1 == self.tips@[i].1@);
        }
        let i = match found {
            Some(i) => i,
            None => {
                proof {
                    assert(!self.tmap().contains_key(parent@));
                }
                return ;
            },
        };
        proof {
            assert(self.tseq()[i as int].0@ == parent@);
            assert(self.tmap().contains_key(parent@));
            assert(self.tmap()[parent@] == self.tseq()[i as int].1);
        }
        let ghost t0 = self.tseq();
        let mut pair = self.tips.remove(i);
        let child_known = id_list_contains(&pair.1.children, child);
        if !child_known {
            pair.1.children.push(*child);
        }
        if pair.1.time_first_child.is_none() {
            pair.1.time_first_child = Some(now);
        }
        proof {
            assert(pair.1@.children =~= linked(old(self).tmap()[parent@], child@, now).children);
            assert(pair.1@ == linked(old(self).tmap()[parent@], child@, now));
        }
        let num_children = pair.1.children.len();
        let first = match pair.1.time_first_child {
            Some(t) => t,
            None => {
                proof {
                    assert(false);
                }
                return ;
            },
        };
        let overdue = num_children > MAX_NUM_CHILDREN || (now > first && now - first > MAX_AGE_MS);
        self.tips.insert(i, pair);
        proof {
            assert(self.tips@ =~= old(self).tips@.update(i as int, pair));
            assert(self.tseq() =~= t0.update(i as int, (pair.0, pair.1@)));
            lemma_pairs_to_map_update(t0, i as int, pair.0, pair.1@);
            assert(forall|a: int|
                0 <= a < self.tseq().len() ==> (#[trigger] self.tseq()[a]).0@ == t0[a].0@);
            assert(overdue == evict_due(linked(old(self).tmap()[parent@], child@, now), now));
        }
        if overdue {
            self.remove_tip(parent);
            proof {
                assert(final(self).tmap() =~= old(self).tmap().remove(parent@));
            }
        }
    }

    /// Takes a newly solid vertex into the pool, as the retention rules
    /// demand: a lazy one is dropped outright; otherwise it becomes a fresh
    /// tip, joins its classification set, is linked as a child of each
    /// parent present in the pool, and each such parent is held to the
    /// retention rules; if the new tip was itself evicted as an overloaded
    /// parent, it is stored again.
    pub fn insert(
        &mut self,
        tip: MessageId,
        parent1: MessageId,
        parent2: MessageId,
        score: Score,
        now: u64,
    )
        requires
            old(self).wf(),
        ensures
            final(self).wf(),
            score == Score::Lazy ==> *final(self) == *old(self),
            score != Score::Lazy ==> final(self).tmap().contains_key(tip@) && ({
                // the new tip's bookkeeping is fresh unless its parents
                // linked it to itself
                ||| final(self).tmap()[tip@] == fresh_tip()
                ||| tip@ == parent1@
                ||| tip@ == parent2@
            }),
            score == Score::NonLazy ==> final(self).non_lazy_set().contains(tip@),
            score == Score::SemiLazy ==> final(self).semi_lazy_set().contains(tip@),
            // each pool-resident parent was linked and held to retention
            score != Score::Lazy ==> par_outcome(
                old(self).tmap(),
                final(self).tmap(),
                parent1@,
                parent2@,
                tip@,
                now,
            ),
            // nothing else entered the classification sets
            forall|x: Seq<u8>| #[trigger]
                final(self).non_lazy_set().contains(x) ==> old(self).non_lazy_set().contains(x)
                    || x == tip@,
            forall|x: Seq<u8>| #[trigger]
                final(self).semi_lazy_set().contains(x) ==> old(self).semi_lazy_set().contains(x)
                    || x == tip@,
    {
        match score {
            Score::Lazy => {
            },
            Score::NonLazy => {
                self.insert_classified(tip, parent1, parent2, now, true);
            },
            Score::SemiLazy => {
                self.insert_classified(tip, parent1, parent2, now, false);
            },
        }
    }
}

/// Where each parent of a fresh tip ends up: a parent that was in the pool
/// either was evicted under the retention rules, or now lists the tip among
/// its children with its first-child time set.
pub open spec fn par_outcome(
    m0: Map<Seq<u8>, TipMetadataV>,
    m1: Map<Seq<u8>, TipMetadataV>,
    p1: Seq<u8>,
    p2: Seq<u8>,
    tip: Seq<u8>,
    now: u64,
) -> bool {
    forall|p: Seq<u8>|
        (p == p1 || p == p2) && p != tip && #[trigger] m0.contains_key(p) ==> (!m1.contains_key(p)
            || (m1.contains_key(p) && m1[p].children.contains(tip)
                && m1[p].time_first_child is Some))
}


impl WurtsTipPool {
    /// The shared insertion path: store the fresh tip, classify it, link it
    /// under both parents with retention checks, and store it again if the
    /// linking evicted it.
    fn insert_classified(
        &mut self,
        tip: MessageId,
        parent1: MessageId,
        parent2: MessageId,
        now: u64,
        non_lazy: bool,
    )
        requires
            old(self).wf(),
        ensures
            final(self).wf(),
            final(self).tmap().contains_key(tip@) && ({
                ||| final(self).tmap()[tip@] == fresh_tip()
                ||| tip@ == parent1@
                ||| tip@ == parent2@
            }),
            non_lazy ==> final(self).non_lazy_set().contains(tip@),
            !non_lazy ==> final(self).semi_lazy_set().contains(tip@),
            par_outcome(old(self).tmap(), final(self).tmap(), parent1@, parent2@, tip@, now),
            forall|x: Seq<u8>| #[trigger]
                final(self).non_lazy_set().contains(x) ==> old(self).non_lazy_set().contains(x)
                    || x == tip@,
            forall|x: Seq<u8>| #[trigger]
                final(self).semi_lazy_set().contains(x) ==> old(self).semi_lazy_set().contains(x)
                    || x == tip@,
    {
        self.store_tip(tip);
        if non_lazy {
            add_id(&mut self.non_lazy_tips, tip);
        } else {
            add_id(&mut self.semi_lazy_tips, tip);
        }
        let ghost s1 = *self;
        self.add_child_and_check(&parent1, &tip, now);
        let ghost s2 = *self;
        self.add_child_and_check(&parent2, &tip, now);
        let ghost s3 = *self;
        let found = self.find_tip(&tip);
        if found.is_none() {
            proof {
                lemma_pairs_to_map(self.tseq());
                assert(forall|i: int|
                    0 <= i < self.tseq().len() ==> (#[trigger] self.tseq()[i]).0
                        == self.tips@[i].0);
                assert(!self.tmap().contains_key(tip@));
            }
            self.store_tip(tip);
            if non_lazy {
                add_id(&mut self.non_lazy_tips, tip);
            } else {
                add_id(&mut self.semi_lazy_tips, tip);
            }
        } else {
            proof {
                lemma_pairs_to_map(self.tseq());
                assert(forall|i: int|
                    0 <= i < self.tseq().len() ==> (#[trigger] self.tseq()[i]).0
                        == self.tips@[i].0);
                let i = found->Some_0;
                assert(self.tseq()[i as int].0@ == tip@);
                assert(self.tmap().contains_key(tip@));
            }
        }
        proof {
            let m0 = old(self).tmap();
            let mf = final(self).tmap();
            // each pool-resident parent other than the tip was linked or
            // evicted under the retention rules
            assert forall|p: Seq<u8>|
                (p == parent1@ || p == parent2@) && p != tip@ && #[trigger] m0.contains_key(
                    p,
                ) implies (!mf.contains_key(p) || (mf.contains_key(p) && mf[p].children.contains(
                tip@,
            ) && mf[p].time_first_child is Some)) by {
                assert(s1.tmap() == m0.insert(tip@, fresh_tip()));
                assert(s1.tmap().contains_key(p) && s1.tmap()[p] == m0[p]);
                if p == parent1@ {
                    let e1 = linked(s1.tmap()[p], tip@, now);
                    if evict_due(e1, now) {
                        assert(!s2.tmap().contains_key(p));
                        if p == parent2@ {
                            assert(!s3.tmap().contains_key(p));
                        } else {
                            assert(!s3.tmap().contains_key(p));
                        }
                        assert(!mf.contains_key(p));
                    } else {
                        assert(s2.tmap().contains_key(p) && s2.tmap()[p] == e1);
                        assert(e1.children.contains(tip@)) by {
                            if !s1.tmap()[p].children.contains(tip@) {
                                let c = s1.tmap()[p].children;
                                assert(c.push(tip@)[c.len() as int] == tip@);
                            }
                        }
                        if p == parent2@ {
                            let e2 = linked(s2.tmap()[p], tip@, now);
                            assert(e2 == e1);
                            if evict_due(e2, now) {
                                assert(!s3.tmap().contains_key(p));
                                assert(!mf.contains_key(p));
                            } else {
                                assert(s3.tmap()[p] == e2);
                                assert(mf.contains_key(p) && mf[p] == e2);
                            }
                        } else {
                            assert(s3.tmap().contains_key(p) && s3.tmap()[p] == e1);
                            assert(mf.contains_key(p) && mf[p] == e1);
                        }
                    }
                } else {
                    // p is only the second parent
                    assert(s2.tmap().contains_key(p) && s2.tmap()[p] == m0[p]);
                    let e2 = linked(s2.tmap()[p], tip@, now);
                    if evict_due(e2, now) {
                        assert(!s3.tmap().contains_key(p));
                        assert(!mf.contains_key(p));
                    } else {
                        assert(s3.tmap().contains_key(p) && s3.tmap()[p] == e2);
                        assert(e2.children.contains(tip@)) by {
                            if !s2.tmap()[p].children.contains(tip@) {
                                let c = s2.tmap()[p].children;
                                assert(c.push(tip@)[c.len() as int] == tip@);
                            }
                        }
                        assert(mf.contains_key(p) && mf[p] == e2);
                    }
                }
            }
        }
    }

    /// Serves up to two distinct non-lazy tips, sampling uniformly; a
    /// single distinct tip is served twice, and an empty pool serves none.
    /// Each served tip's selection count rises by one, and a tip selected
    /// more than `MAX_NUM_SELECTIONS` times leaves the pool.
    pub fn two_non_lazy_tips(&mut self) -> (r: Option<(MessageId, MessageId)>)
        requires
            old(self).wf(),
        ensures
            final(self).wf(),
            r is Some <==> old(self).non_lazy_tips@.len() > 0,
            match r {
                Some(pair) => old(self).non_lazy_set().contains(pair.0@) && old(self).non_lazy_set().contains(pair.1@) && ({
                    let once = spec_bump_state(pool_state(*old(self)), pair.0@);
                    pool_state(*final(self)) == (if pair.1@ == pair.0@ {
                        once
                    } else {
                        spec_bump_state(once, pair.1@)
                    })
                }),
                None => *final(self) == *old(self),
            },
    {
        let n = self.non_lazy_tips.len();
        if n == 0 {
            return None;
        }
        let idx0 = random_index(n);
        let first = self.non_lazy_tips[idx0];
        proof {
            let mapped = self.non_lazy_tips@.map_values(|m: MessageId| m@);
            assert(mapped[idx0 as int] == first@);
            assert(mapped.contains(first@));
        }
        let mut second = first;
        let mut tries: usize = 0;
        while tries < 10
            invariant
                n == self.non_lazy_tips@.len(),
                n > 0,
                self.wf(),
                *self == *old(self),
                self.non_lazy_set().contains(first@),
                self.non_lazy_set().contains(second@),
            decreases 10 - tries,
        {
            let idx = random_index(n);
            let candidate = self.non_lazy_tips[idx];
            proof {
                let mapped = self.non_lazy_tips@.map_values(|m: MessageId| m@);
                assert(mapped[idx as int] == candidate@);
                assert(mapped.contains(candidate@));
            }
            if !(candidate == first) {
                second = candidate;
                proof {
                    assert(self.non_lazy_set().contains(second@));
                }
                break ;
            }
            tries += 1;
        }
        self.bump_selection(&first);
        if !(second == first) {
            self.bump_selection(&second);
        }
        Some((first, second))
    }

    /// Raises a tip's selection count and evicts it once the count passes
    /// `MAX_NUM_SELECTIONS`; exactly what `spec_bump` defines.
    fn bump_selection(&mut self, id: &MessageId)
        requires
            old(self).wf(),
        ensures
            final(self).wf(),
            pool_state(*final(self)) == spec_bump_state(pool_state(*old(self)), id@),
    {
        let found = self.find_tip(id);
        proof {
            lemma_pairs_to_map(self.tseq());
            assert(forall|i: int|
                0 <= i < self.tseq().len() ==> (#[trigger] self.tseq()[i]).0 == self.tips@[i].0
                    && self.tseq()[i].1 == self.tips@[i].1@);
        }
        let i = match found {
            Some(i) => i,
            None => {
                proof {
                    assert(!self.tmap().contains_key(id@));
                }
                return ;
            },
        };
        proof {
            assert(self.tseq()[i as int].0@ == id@);
            assert(self.tmap().contains_key(id@));
            assert(self.tmap()[id@] == self.tseq()[i as int].1);
        }
        let ghost t0 = self.tseq();
        let mut pair = self.tips.remove(i);
        pair.1.selection_count = if pair.1.selection_count < 255 {
            pair.1.selection_count + 1
        } else {
            pair.1.selection_count
        };
        let over = pair.1.selection_count > MAX_NUM_SELECTIONS;
        self.tips.insert(i, pair);
        proof {
            assert(self.tips@ =~= old(self).tips@.update(i as int, pair));
            assert(self.tseq() =~= t0.update(i as int, (pair.0, pair.1@)));
            lemma_pairs_to_map_update(t0, i as int, pair.0, pair.1@);
            assert(forall|a: int|
                0 <= a < self.tseq().len() ==> (#[trigger] self.tseq()[a]).0@ == t0[a].0@);
        }
        if over {
            self.remove_tip(id);
            proof {
                assert(final(self).tmap() =~= old(self).tmap().remove(id@));
            }
        }
    }
}

/// A selection count raised by one, stopping at the largest value.
pub open spec fn bump_count(e: TipMetadataV) -> TipMetadataV {
    TipMetadataV {
        selection_count: if e.selection_count < 255 {
            (e.selection_count + 1) as u8
        } else {
            e.selection_count
        },
        ..e
    }
}

/// The pool state — tips, non-lazy set, semi-lazy set — after one
/// selection of a tip: its count rises by one, and past
/// `MAX_NUM_SELECTIONS` selections the tip leaves the pool and both sets.
pub open spec fn spec_bump_state(
    s: (Map<Seq<u8>, TipMetadataV>, Set<Seq<u8>>, Set<Seq<u8>>),
    id: Seq<u8>,
) -> (Map<Seq<u8>, TipMetadataV>, Set<Seq<u8>>, Set<Seq<u8>>) {
    if !s.0.contains_key(id) {
        s
    } else {
        let e = bump_count(s.0[id]);
        if e.selection_count > MAX_NUM_SELECTIONS as u8 {
            (s.0.remove(id), s.1.remove(id), s.2.remove(id))
        } else {
            (s.0.insert(id, e), s.1, s.2)
        }
    }
}

/// The observable state of a pool.
pub open spec fn pool_state(p: WurtsTipPool) -> (
    Map<Seq<u8>, TipMetadataV>,
    Set<Seq<u8>>,
    Set<Seq<u8>>,
) {
    (p.tmap(), p.non_lazy_set(), p.semi_lazy_set())
}


impl WurtsTipPool {
    /// Reclassifies every tip against the current latest solid milestone
    /// index, as the periodic rescore does on every new milestone: a tip
    /// whose score turned lazy — or whose referenced milestone indices are
    /// gone — leaves the pool with its bookkeeping; the others stay with
    /// their bookkeeping untouched and move to the classification list of
    /// their score.  No tip is ever added by a rescore.
    pub fn update_scores(&mut self, tangle: &crate::tangle::Tangle)
        requires
            old(self).wf(),
            tangle.inv(),
        ensures
            final(self).wf(),
            forall|k: Seq<u8>| #[trigger]
                final(self).tmap().contains_key(k) ==> old(self).tmap().contains_key(k) && final(self).tmap()[k] == old(self).tmap()[k],
    {
        let lsmi = tangle.get_latest_solid_milestone_index();
        // first pass: read every tip's score
        let mut scored: Vec<(MessageId, Score)> = Vec::new();
        let mut i: usize = 0;
        while i < self.tips.len()
            invariant
                tangle.inv(),
                *self == *old(self),
                i <= self.tips@.len(),
            decreases self.tips@.len() - i,
        {
            let id = self.tips[i].0;
            let score = match (tangle.otrsi(&id), tangle.ytrsi(&id)) {
                (Some(o), Some(y)) => tip_score(lsmi, o, y),
                _ => Score::Lazy,
            };
            scored.push((id, score));
            i += 1;
        }
        // second pass: evict the lazy, reclassify the rest
        let mut r: usize = 0;
        while r < scored.len()
            invariant
                self.wf(),
                tangle.inv(),
                r <= scored@.len(),
                forall|k: Seq<u8>| #[trigger]
                    self.tmap().contains_key(k) ==> old(self).tmap().contains_key(k)
                        && self.tmap()[k] == old(self).tmap()[k],
            decreases scored@.len() - r,
        {
            let (id, score) = scored[r];
            let ghost m_pre = self.tmap();
            match score {
                Score::Lazy => {
                    self.remove_tip(&id);
                    proof {
                        assert forall|k: Seq<u8>| #[trigger]
                            self.tmap().contains_key(k) implies old(self).tmap().contains_key(k)
                            && self.tmap()[k] == old(self).tmap()[k] by {
                            assert(self.tmap() == m_pre.remove(id@));
                            assert(k != id@);
                            assert(m_pre.contains_key(k) && self.tmap()[k] == m_pre[k]);
                        }
                    }
                },
                Score::NonLazy => {
                    add_id(&mut self.non_lazy_tips, id);
                    remove_id(&mut self.semi_lazy_tips, &id);
                },
                Score::SemiLazy => {
                    add_id(&mut self.semi_lazy_tips, id);
                    remove_id(&mut self.non_lazy_tips, &id);
                },
            }
            r += 1;
        }
    }
}

} // verus!
