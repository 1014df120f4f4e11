//! White-flag confirmation: a deterministic walk over the cone below a new
//! milestone, a conflict-tolerant ledger delta, and an inclusion merkle root
//! that must match the milestone's declared one.

use vstd::prelude::*;
use crate::digests::{blake2b256, blake2b256_of};
use crate::ids::{MessageId, OutputId, TransactionId};
use crate::message::SigLockedSingleOutput;
use crate::tangle::{Tangle, TangleVertexV, MessageMetadata, unique_keys, pairs_to_map,
    lemma_pairs_to_map, lemma_pairs_to_map_push, lemma_pairs_to_map_remove};

verus! {

/// The ledger: unspent outputs by output id, and the ids already spent.
pub struct LedgerState {
    pub unspent: Vec<(OutputId, SigLockedSingleOutput)>,
    pub spent: Vec<OutputId>,
}

impl LedgerState {
    /// The unspent outputs as a map.
    pub open spec fn unspent_map(&self) -> Map<(Seq<u8>, u16), SigLockedSingleOutput> {
        pairs_to_map(self.unspent@)
    }

    /// The spent output ids as a set.
    pub open spec fn spent_set(&self) -> Set<(Seq<u8>, u16)> {
        self.spent@.map_values(|o: OutputId| o@).to_set()
    }

    pub open spec fn wf(&self) -> bool {
        unique_keys(self.unspent@)
    }

    pub fn new() -> (r: Self)
        ensures
            r.wf(),
            r.unspent_map() == Map::<(Seq<u8>, u16), SigLockedSingleOutput>::empty(),
            r.spent_set() == Set::<(Seq<u8>, u16)>::empty(),
    {
        let r = LedgerState { unspent: Vec::new(), spent: Vec::new() };
        proof {
            assert(r.spent@.map_values(|o: OutputId| o@) =~= Seq::<(Seq<u8>, u16)>::empty());
            assert(r.spent_set() =~= Set::<(Seq<u8>, u16)>::empty());
        }
        r
    }

    fn find_unspent(&self, id: &OutputId) -> (r: Option<usize>)
        ensures
            match r {
                Some(i) => i < self.unspent@.len() && self.unspent@[i as int].0@ == id@,
                None => forall|i: int|
                    0 <= i < self.unspent@.len() ==> (#[trigger] self.unspent@[i]).0@ != id@,
            },
    {
        let mut i: usize = 0;
        while i < self.unspent.len()
            invariant
                i <= self.unspent@.len(),
                forall|k: int| 0 <= k < i ==> (#[trigger] self.unspent@[k]).0@ != id@,
            decreases self.unspent@.len() - i,
        {
            if self.unspent[i].0 == *id {
                return Some(i);
            }
            i += 1;
        }
        None
    }

    /// Whether an unspent output with this id exists.
    pub fn contains_unspent(&self, id: &OutputId) -> (r: bool)
        ensures
            r == self.unspent_map().contains_key(id@),
    {
        let found = self.find_unspent(id);
        proof {
            lemma_pairs_to_map(self.unspent@);
            match found {
                Some(i) => {
                    assert(self.unspent_map().contains_key(id@));
                },
                None => {
                    assert(!self.unspent_map().contains_key(id@));
                },
            }
        }
        found.is_some()
    }

    /// Whether this output id was already spent.
    pub fn contains_spent(&self, id: &OutputId) -> (r: bool)
        ensures
            r == self.spent_set().contains(id@),
    {
        let ghost mapped = self.spent@.map_values(|o: OutputId| o@);
        let mut i: usize = 0;
        while i < self.spent.len()
            invariant
                i <= self.spent@.len(),
                mapped == self.spent@.map_values(|o: OutputId| o@),
                forall|k: int| 0 <= k < i ==> (#[trigger] mapped[k]) != id@,
            decreases self.spent@.len() - i,
        {
            proof {
                assert(mapped[i as int] == (self.spent@[i as int])@);
            }
            if self.spent[i] == *id {
                proof {
                    assert(mapped.contains(id@));
                }
                return true;
            }
            i += 1;
        }
        proof {
            if mapped.contains(id@) {
                let a = choose|a: int| 0 <= a < mapped.len() && mapped[a] == id@;
            }
            assert(!self.spent_set().contains(id@));
        }
        false
    }

    /// Records a newly created unspent output.
    pub fn insert_unspent(&mut self, id: OutputId, output: SigLockedSingleOutput)
        requires
            old(self).wf(),
            !old(self).unspent_map().contains_key(id@),
        ensures
            final(self).wf(),
            final(self).unspent_map() == old(self).unspent_map().insert(id@, output),
            final(self).spent_set() == old(self).spent_set(),
    {
        proof {
            lemma_pairs_to_map(self.unspent@);
        }
        self.unspent.push((id, output));
        proof {
            lemma_pairs_to_map_push(old(self).unspent@, id, output);
            assert(unique_keys(self.unspent@)) by {
                assert(forall|j: int|
                    0 <= j < old(self).unspent@.len() ==> (#[trigger] old(self).unspent@[j]).0@
                        != id@);
                assert(forall|j: int|
                    0 <= j < self.unspent@.len() - 1 ==> self.unspent@[j] == old(self).unspent@[j]);
            }
        }
    }

    /// Spends an unspent output: it leaves the unspent map and its id joins
    /// the spent set.
    pub fn spend(&mut self, id: &OutputId)
        requires
            old(self).wf(),
            old(self).unspent_map().contains_key(id@),
        ensures
            final(self).wf(),
            final(self).unspent_map() == old(self).unspent_map().remove(id@),
            final(self).spent_set() == old(self).spent_set().insert(id@),
    {
        let found = self.find_unspent(id);
        proof {
            lemma_pairs_to_map(self.unspent@);
        }
        let i = match found {
            Some(i) => i,
            None => {
                proof {
                    assert(false);
                }
                return ;
            },
        };
        self.unspent.remove(i);
        let ghost mid = *self;
        self.spent.push(*id);
        proof {
            assert(mid.unspent@ =~= old(self).unspent@.remove(i as int));
            lemma_pairs_to_map_remove(old(self).unspent@, i as int);
            let m0 = old(self).spent@.map_values(|o: OutputId| o@);
            let m1 = self.spent@.map_values(|o: OutputId| o@);
            assert(m1 =~= m0.push(id@));
            assert forall|x: (Seq<u8>, u16)| #[trigger] m1.contains(x) implies m0.contains(x) || x
                == id@ by {
                let a = choose|a: int| 0 <= a < m1.len() && m1[a] == x;
                if a < m1.len() - 1 {
                    assert(m0[a] == x);
                }
            }
            assert(m1[m1.len() - 1] == id@);
            assert forall|x: (Seq<u8>, u16)| #[trigger] m0.contains(x) implies m1.contains(x) by {
                let a = choose|a: int| 0 <= a < m0.len() && m0[a] == x;
                assert(m1[a] == x);
            }
            assert(self.spent_set() =~= old(self).spent_set().insert(id@));
        }
    }
}

/// The inclusion merkle root over a sequence of 32-byte ids: a single id
/// hashes alone, a longer sequence hashes the roots of its two halves, and
/// the empty sequence hashes no bytes.
pub open spec fn spec_merkle_root(ids: Seq<Seq<u8>>) -> Seq<u8>
    decreases ids.len(),
{
    if ids.len() == 0 {
        blake2b256_of(Seq::empty())
    } else if ids.len() == 1 {
        blake2b256_of(ids[0])
    } else {
        let mid = ids.len() as int / 2;
        blake2b256_of(
            spec_merkle_root(ids.subrange(0, mid)) + spec_merkle_root(
                ids.subrange(mid, ids.len() as int),
            ),
        )
    }
}

fn merkle_root_range(ids: &Vec<MessageId>, lo: usize, hi: usize) -> (r: [u8; 32])
    requires
        lo <= hi <= ids@.len(),
    ensures
        r@ == spec_merkle_root(ids@.map_values(|m: MessageId| m@).subrange(lo as int, hi as int)),
    decreases hi - lo,
{
    let ghost mapped = ids@.map_values(|m: MessageId| m@);
    let ghost sub = mapped.subrange(lo as int, hi as int);
    if hi - lo == 0 {
        let empty: [u8; 0] = [];
        let r = blake2b256(empty.as_slice());
        proof {
            assert(empty@ =~= Seq::<u8>::empty());
        }
        r
    } else if hi - lo == 1 {
        let r = blake2b256(ids[lo].as_bytes());
        proof {
            assert(sub[0] == mapped[lo as int]);
            assert(mapped[lo as int] == (ids@[lo as int])@);
        }
        r
    } else {
        let mid = lo + (hi - lo) / 2;
        let left = merkle_root_range(ids, lo, mid);
        let right = merkle_root_range(ids, mid, hi);
        let mut buf: Vec<u8> = Vec::new();
        crate::codec::push_slice(&mut buf, left.as_slice());
        crate::codec::push_slice(&mut buf, right.as_slice());
        let r = blake2b256(buf.as_slice());
        proof {
            let m = sub.len() as int / 2;
            assert(sub.subrange(0, m) =~= mapped.subrange(lo as int, mid as int));
            assert(sub.subrange(m, sub.len() as int) =~= mapped.subrange(mid as int, hi as int));
            assert(buf@ =~= left@ + right@);
        }
        r
    }
}

/// The inclusion merkle root over a list of message ids.
pub fn merkle_root(ids: &Vec<MessageId>) -> (r: [u8; 32])
    ensures
        r@ == spec_merkle_root(ids@.map_values(|m: MessageId| m@)),
{
    let r = merkle_root_range(ids, 0, ids.len());
    proof {
        assert(ids@.map_values(|m: MessageId| m@).subrange(
            0,
            ids@.len() as int,
        ) =~= ids@.map_values(|m: MessageId| m@));
    }
    r
}


/// A vertex belongs to the unconfirmed cone when it is stored and its cone
/// root index is not yet set.
pub open spec fn eligible(t: &Tangle, id: Seq<u8>) -> bool {
    t.vmap().contains_key(id) && t.vmap()[id].metadata.cone_root_index is None
}

/// The two parent references of a stored vertex.
pub open spec fn parent_of(t: &Tangle, u: Seq<u8>, w: Seq<u8>) -> bool {
    t.vmap().contains_key(u) && (t.vmap()[u].message.parent1 == w || t.vmap()[u].message.parent2
        == w)
}

/// The ids of a list, as a set.
pub open spec fn id_set(s: Seq<MessageId>) -> Set<Seq<u8>> {
    s.map_values(|m: MessageId| m@).to_set()
}

fn cone_visit(
    tangle: &Tangle,
    v: MessageId,
    visited: &mut Vec<MessageId>,
    order: &mut Vec<MessageId>,
    pending: Ghost<Set<Seq<u8>>>,
)
    requires
        tangle.inv(),
        id_set(old(visited)@) == id_set(old(order)@) + pending@,
        forall|a: int, b: int|
            0 <= a < b < old(visited)@.len() ==> (#[trigger] old(visited)@[a])@ != (#[trigger] old(visited)@[b])@,
        forall|a: int|
            0 <= a < old(visited)@.len() ==> eligible(tangle, (#[trigger] old(visited)@[a])@),
        forall|a: int|
            0 <= a < old(order)@.len() ==> !pending@.contains((#[trigger] old(order)@[a])@),
        forall|a: int, b: int|
            0 <= a < b < old(order)@.len() ==> (#[trigger] old(order)@[a])@ != (
            #[trigger] old(order)@[b])@,
        forall|a: int|
            0 <= a < old(order)@.len() ==> ({
                let u = (#[trigger] old(order)@[a])@;
                let p1 = tangle.vmap()[u].message.parent1;
                let p2 = tangle.vmap()[u].message.parent2;
                (!eligible(tangle, p1) || id_set(old(visited)@).contains(p1)) && (!eligible(
                    tangle,
                    p2,
                ) || id_set(old(visited)@).contains(p2))
            }),
    ensures
        id_set(final(visited)@) == id_set(final(order)@) + pending@,
        forall|a: int, b: int|
            0 <= a < b < final(visited)@.len() ==> (#[trigger] final(visited)@[a])@ != (
            #[trigger] final(visited)@[b])@,
        forall|a: int|
            0 <= a < final(visited)@.len() ==> eligible(tangle, (#[trigger] final(visited)@[a])@),
        forall|a: int|
            0 <= a < final(order)@.len() ==> !pending@.contains((#[trigger] final(order)@[a])@),
        forall|a: int, b: int|
            0 <= a < b < final(order)@.len() ==> (#[trigger] final(order)@[a])@ != (
            #[trigger] final(order)@[b])@,
        forall|a: int|
            0 <= a < final(order)@.len() ==> ({
                let u = (#[trigger] final(order)@[a])@;
                let p1 = tangle.vmap()[u].message.parent1;
                let p2 = tangle.vmap()[u].message.parent2;
                (!eligible(tangle, p1) || id_set(final(visited)@).contains(p1)) && (!eligible(
                    tangle,
                    p2,
                ) || id_set(final(visited)@).contains(p2))
            }),
        final(order)@.len() >= old(order)@.len(),
        final(visited)@.len() >= old(visited)@.len(),
        forall|a: int| 0 <= a < old(order)@.len() ==> final(order)@[a] == old(order)@[a],
        forall|a: int| 0 <= a < old(visited)@.len() ==> final(visited)@[a] == old(visited)@[a],
        forall|a: int|
            old(order)@.len() <= a < final(order)@.len() ==> ({
                let w = (#[trigger] final(order)@[a])@;
                w == v@ || exists|b: int|
                    old(order)@.len() <= b < final(order)@.len() && parent_of(
                        tangle,
                        (final(order)@[b])@,
                        w,
                    )
            }),
        eligible(tangle, v@) ==> id_set(final(visited)@).contains(v@),
        !eligible(tangle, v@) ==> *final(visited) == *old(visited) && *final(order) == *old(order),
    decreases tangle.vmap().dom().len() - id_set(old(visited)@).len(),
{
    proof {
        crate::tangle::lemma_pairs_to_map(tangle.vseq());
        let ghost vs = visited@.map_values(|m: MessageId| m@);
        assert(id_set(visited@) <= tangle.vmap().dom()) by {
            assert forall|x: Seq<u8>| id_set(visited@).contains(x) implies tangle.vmap().contains_key(
                x,
            ) by {
                let a = choose|a: int| 0 <= a < vs.len() && (#[trigger] vs[a]) == x;
                assert((visited@[a])@ == x);
                assert(eligible(tangle, (visited@[a])@));
            }
        }
        vstd::set_lib::lemma_len_subset(id_set(visited@), tangle.vmap().dom());
    }
    if crate::tangle::id_list_contains(visited, &v) {
        proof {
            let vs2 = visited@.map_values(|m: MessageId| m@);
            assert(id_set(visited@).contains(v@));
            assert(eligible(tangle, v@)) by {
                let a = choose|a: int| 0 <= a < vs2.len() && (#[trigger] vs2[a]) == v@;
                assert((visited@[a])@ == v@);
            }
        }
        return ;
    }
    let meta = match tangle.get_metadata(&v) {
        Some(m) => m,
        None => {
            return ;
        },
    };
    if meta.cone_root_index.is_some() {
        return ;
    }
    let (parent1, parent2) = match tangle.get_message(&v) {
        Some(m) => (*m.parent1(), *m.parent2()),
        None => {
            proof {
                assert(false);
            }
            return ;
        },
    };
    let ghost ms0 = visited@.map_values(|m: MessageId| m@);
    visited.push(v);
    proof {
        let ms1 = visited@.map_values(|m: MessageId| m@);
        assert(ms1 =~= ms0.push(v@));
        assert forall|x: Seq<u8>| #[trigger] ms1.contains(x) implies ms0.contains(x) || x == v@ by {
            let a = choose|a: int| 0 <= a < ms1.len() && ms1[a] == x;
            if a < ms1.len() - 1 {
                assert(ms0[a] == x);
            }
        }
        assert(ms1[ms1.len() - 1] == v@);
        assert forall|x: Seq<u8>| #[trigger] ms0.contains(x) implies ms1.contains(x) by {
            let a = choose|a: int| 0 <= a < ms0.len() && ms0[a] == x;
            assert(ms1[a] == x);
        }
        assert(id_set(visited@) =~= ms0.to_set().insert(v@));
        assert(!ms0.contains(v@));
        vstd::set_lib::lemma_len_subset(ms0.to_set(), tangle.vmap().dom());
        assert(id_set(visited@).len() == ms0.to_set().len() + 1);
        assert(id_set(visited@) <= tangle.vmap().dom()) by {
            assert forall|x: Seq<u8>| id_set(visited@).contains(x) implies tangle.vmap().contains_key(
                x,
            ) by {
                if x != v@ {
                    let a = choose|a: int| 0 <= a < ms0.len() && (#[trigger] ms0[a]) == x;
                    assert((old(visited)@[a])@ == x);
                    assert(eligible(tangle, (old(visited)@[a])@));
                }
            }
        }
        vstd::set_lib::lemma_len_subset(id_set(visited@), tangle.vmap().dom());
        assert(id_set(visited@) == id_set(order@) + (pending@.insert(v@))) by {
            assert(id_set(visited@) =~= id_set(order@) + (pending@.insert(v@)));
        }
    }
    let ghost pending1 = pending@.insert(v@);
    let ghost order0 = order@;
    proof {
        let ms1 = visited@.map_values(|m: MessageId| m@);
        assert forall|a: int, b: int|
            0 <= a < b < visited@.len() implies (#[trigger] visited@[a])@ != (
        #[trigger] visited@[b])@ by {
            if b == visited@.len() - 1 {
                assert((visited@[b])@ == v@);
                assert(ms0[a] == (visited@[a])@);
                assert(ms0.contains((visited@[a])@));
            } else {
                assert(visited@[a] == old(visited)@[a]);
                assert(visited@[b] == old(visited)@[b]);
            }
        }
        assert forall|a: int|
            0 <= a < visited@.len() implies eligible(tangle, (#[trigger] visited@[a])@) by {
            if a < visited@.len() - 1 {
                assert(visited@[a] == old(visited)@[a]);
            }
        }
        assert forall|a: int|
            0 <= a < order@.len() implies !pending1.contains((#[trigger] order@[a])@) by {
            let os0 = order@.map_values(|m: MessageId| m@);
            assert(os0[a] == (order@[a])@);
            assert(os0.contains((order@[a])@));
            assert(id_set(order@).contains((order@[a])@));
            if (order@[a])@ == v@ {
                assert(id_set(old(visited)@).contains(v@));
            }
        }
        ms0.unique_seq_to_set();
        ms1.unique_seq_to_set();
    }
    cone_visit(tangle, parent1, visited, order, Ghost(pending1));
    let ghost order1 = order@;
    proof {
        let msm = visited@.map_values(|m: MessageId| m@);
        assert(forall|a: int| 0 <= a < msm.len() ==> (#[trigger] msm[a]) == (visited@[a])@);
        assert(msm.no_duplicates());
        msm.unique_seq_to_set();
        assert(forall|a: int| 0 <= a < ms0.len() ==> (#[trigger] ms0[a]) == (old(visited)@[a])@);
        assert(ms0.no_duplicates());
        ms0.unique_seq_to_set();
        assert(id_set(visited@).len() > id_set(old(visited)@).len());
        assert(id_set(visited@) <= tangle.vmap().dom()) by {
            assert forall|x: Seq<u8>| id_set(visited@).contains(x) implies tangle.vmap().contains_key(
                x,
            ) by {
                let a = choose|a: int| 0 <= a < msm.len() && (#[trigger] msm[a]) == x;
                assert((visited@[a])@ == x);
                assert(eligible(tangle, (visited@[a])@));
            }
        }
        vstd::set_lib::lemma_len_subset(id_set(visited@), tangle.vmap().dom());
    }
    let ghost visited1 = visited@;
    cone_visit(tangle, parent2, visited, order, Ghost(pending1));
    let ghost order2 = order@;
    let ghost msv = visited@.map_values(|m: MessageId| m@);
    order.push(v);
    proof {
        let os2 = order2.map_values(|m: MessageId| m@);
        let os3 = order@.map_values(|m: MessageId| m@);
        assert(os3 =~= os2.push(v@));
        assert forall|x: Seq<u8>| #[trigger] os3.contains(x) implies os2.contains(x) || x == v@ by {
            let a = choose|a: int| 0 <= a < os3.len() && os3[a] == x;
            if a < os3.len() - 1 {
                assert(os2[a] == x);
            }
        }
        assert(os3[os3.len() - 1] == v@);
        assert forall|x: Seq<u8>| #[trigger] os2.contains(x) implies os3.contains(x) by {
            let a = choose|a: int| 0 <= a < os2.len() && os2[a] == x;
            assert(os3[a] == x);
        }
        // the visited set balances: v moves from pending into the order
        assert(!id_set(order2).contains(v@)) by {
            if id_set(order2).contains(v@) {
                assert(pending1.contains(v@));
                let a = choose|a: int| 0 <= a < os2.len() && (#[trigger] os2[a]) == v@;
                assert(os2[a] == (order2[a])@);
                assert((order2[a])@ == v@);
                assert(!pending1.contains((order2[a])@));
            }
        }
        assert(id_set(order@) =~= id_set(order2).insert(v@));
        assert(id_set(visited@) =~= id_set(order@) + pending@);
        assert forall|a: int, b: int|
            0 <= a < b < order@.len() implies (#[trigger] order@[a])@ != (#[trigger] order@[b])@ by {
            if b == order@.len() - 1 {
                assert((order@[b])@ == v@);
                assert(os2[a] == (order@[a])@);
                assert(os2.contains((order@[a])@));
            } else {
                assert(order@[a] == order2[a] && order@[b] == order2[b]);
            }
        }
        // the emitted vertex respects the walk's visit condition and its
        // parents are visited
        assert(eligible(tangle, v@));
        assert(tangle.vmap()[v@].message.parent1 == parent1@);
        assert(tangle.vmap()[v@].message.parent2 == parent2@);
        assert(id_set(visited1) <= id_set(visited@)) by {
            assert forall|x: Seq<u8>| id_set(visited1).contains(x) implies id_set(
                visited@,
            ).contains(x) by {
                let m1 = visited1.map_values(|m: MessageId| m@);
                let m2 = visited@.map_values(|m: MessageId| m@);
                let a = choose|a: int| 0 <= a < m1.len() && (#[trigger] m1[a]) == x;
                assert(visited@[a] == visited1[a]);
                assert(m2[a] == x);
                assert(m2.contains(x));
            }
        }
        assert(eligible(tangle, parent1@) ==> id_set(visited@).contains(parent1@));
        assert(eligible(tangle, parent2@) ==> id_set(visited@).contains(parent2@));
        assert forall|a: int|
            0 <= a < order@.len() implies !pending@.contains((#[trigger] order@[a])@) by {
            if a < order@.len() - 1 {
                assert(order@[a] == order2[a]);
            } else {
                assert((order@[a])@ == v@);
                assert(!ms0.contains(v@));
                assert(!id_set(old(visited)@).contains(v@)) by {
                    if id_set(old(visited)@).contains(v@) {
                        let c = choose|c: int| 0 <= c < ms0.len() && (#[trigger] ms0[c]) == v@;
                    }
                }
                assert(!pending@.contains(v@));
            }
        }
        // every newly emitted vertex is the root of this visit or a parent
        // of another newly emitted vertex
        assert forall|a: int|
            order0.len() <= a < order@.len() implies ({
                let w = (#[trigger] order@[a])@;
                w == v@ || exists|b: int|
                    order0.len() <= b < order@.len() && parent_of(tangle, (order@[b])@, w)
            }) by {
            let w = (order@[a])@;
            if a == order@.len() - 1 {
            } else if a < order1.len() {
                assert(order@[a] == order1[a]);
                let w1 = (order1[a])@;
                assert(w1 == w);
                if w == parent1@ {
                    assert(parent_of(tangle, v@, w));
                    assert((order@[order@.len() - 1])@ == v@);
                } else {
                    let b = choose|b: int|
                        order0.len() <= b < order1.len() && parent_of(tangle, (order1[b])@, w);
                    assert(order@[b] == order1[b]);
                }
            } else {
                assert(order@[a] == order2[a]);
                let w2 = (order2[a])@;
                assert(w2 == w);
                if w == parent2@ {
                    assert(parent_of(tangle, v@, w));
                    assert((order@[order@.len() - 1])@ == v@);
                } else {
                    let b = choose|b: int|
                        order1.len() <= b < order2.len() && parent_of(tangle, (order2[b])@, w);
                    assert(order@[b] == order2[b]);
                }
            }
        }
    }
}

/// The deterministic confirmed cone below a root: every stored vertex whose
/// cone root index is unset and that the root reaches through such vertices,
/// parents emitted before children, parent 1 walked before parent 2.
#[verifier::rlimit(50)]
pub fn confirmation_cone(tangle: &Tangle, root: MessageId) -> (order: Vec<MessageId>)
    requires
        tangle.inv(),
    ensures
        // distinct, and each member is stored with no cone root index yet
        forall|a: int, b: int|
            0 <= a < b < order@.len() ==> (#[trigger] order@[a])@ != (#[trigger] order@[b])@,
        forall|a: int| 0 <= a < order@.len() ==> eligible(tangle, (#[trigger] order@[a])@),
        // rooted: every member is the root or a parent of another member
        forall|a: int|
            0 <= a < order@.len() ==> ({
                let w = (#[trigger] order@[a])@;
                w == root@ || exists|b: int|
                    0 <= b < order@.len() && parent_of(tangle, (order@[b])@, w)
            }),
        // closed: each member's parents with unset cone root index are members
        forall|a: int|
            0 <= a < order@.len() ==> ({
                let u = (#[trigger] order@[a])@;
                let p1 = tangle.vmap()[u].message.parent1;
                let p2 = tangle.vmap()[u].message.parent2;
                (!eligible(tangle, p1) || id_set(order@).contains(p1)) && (!eligible(tangle, p2)
                    || id_set(order@).contains(p2))
            }),
        // the root is a member exactly when it awaits confirmation
        eligible(tangle, root@) <==> id_set(order@).contains(root@),
{
    let mut visited: Vec<MessageId> = Vec::new();
    let mut order: Vec<MessageId> = Vec::new();
    proof {
        assert(id_set(visited@) =~= id_set(order@) + Set::<Seq<u8>>::empty());
    }
    cone_visit(tangle, root, &mut visited, &mut order, Ghost(Set::empty()));
    proof {
        assert(id_set(visited@) =~= id_set(order@));
        let os = order@.map_values(|m: MessageId| m@);
        let vs = visited@.map_values(|m: MessageId| m@);
        assert forall|a: int|
            0 <= a < order@.len() implies eligible(tangle, (#[trigger] order@[a])@) by {
            assert(os[a] == (order@[a])@);
            assert(os.contains((order@[a])@));
            assert(id_set(order@).contains((order@[a])@));
            assert(id_set(visited@).contains((order@[a])@));
            let b = choose|b: int| 0 <= b < vs.len() && (#[trigger] vs[b]) == (order@[a])@;
            assert((visited@[b])@ == (order@[a])@);
            assert(eligible(tangle, (visited@[b])@));
        }
        if eligible(tangle, root@) {
            assert(id_set(visited@).contains(root@));
        }
        assert(id_set(order@).contains(root@) ==> eligible(tangle, root@)) by {
            if id_set(order@).contains(root@) {
                let a = choose|a: int| 0 <= a < os.len() && (#[trigger] os[a]) == root@;
                assert((order@[a])@ == root@);
                assert(eligible(tangle, (order@[a])@));
            }
        }
    }
    order
}


// ---------------------------------------------------------------------------
// The white-flag ledger delta.
// ---------------------------------------------------------------------------
/// The running state of a white-flag traversal, at spec level.
pub struct WhiteFlagV {
    /// Outputs created by included transactions, by output id.
    pub created: Map<(Seq<u8>, u16), crate::message::SigLockedSingleOutputV>,
    /// Output ids spent by included transactions.
    pub consumed: Set<(Seq<u8>, u16)>,
    /// The included (non-conflicting) transactions, in traversal order.
    pub included: Seq<Seq<u8>>,
    /// The transactions marked conflicting, in traversal order.
    pub conflicting: Seq<Seq<u8>>,
}

/// An input is available when it is unspent in the ledger or created within
/// the traversal, and spent by neither.
pub open spec fn wf_avail(ledger: &LedgerState, st: WhiteFlagV, input: (Seq<u8>, u16)) -> bool {
    &&& ledger.unspent_map().contains_key(input) || st.created.contains_key(input)
    &&& !ledger.spent_set().contains(input)
    &&& !st.consumed.contains(input)
}

/// All inputs of one transaction are available and mutually distinct.
pub open spec fn wf_inputs_ok(
    ledger: &LedgerState,
    st: WhiteFlagV,
    inputs: Seq<(Seq<u8>, u16)>,
) -> bool {
    forall|i: int|
        0 <= i < inputs.len() ==> wf_avail(ledger, st, #[trigger] inputs[i]) && (forall|j: int|
            0 <= j < i ==> inputs[j] != inputs[i])
}

/// The created-output map after one transaction's first `n` outputs.
pub open spec fn wf_add_outputs(
    m: Map<(Seq<u8>, u16), crate::message::SigLockedSingleOutputV>,
    v: Seq<u8>,
    outs: Seq<crate::message::SigLockedSingleOutputV>,
    n: int,
) -> Map<(Seq<u8>, u16), crate::message::SigLockedSingleOutputV>
    decreases n,
{
    if n <= 0 {
        m
    } else {
        wf_add_outputs(m, v, outs, n - 1).insert((v, (n - 1) as u16), outs[n - 1])
    }
}

/// The consumed set after one transaction's first `n` inputs.
pub open spec fn wf_add_inputs(c: Set<(Seq<u8>, u16)>, inputs: Seq<(Seq<u8>, u16)>, n: int) -> Set<
    (Seq<u8>, u16),
>
    decreases n,
{
    if n <= 0 {
        c
    } else {
        wf_add_inputs(c, inputs, n - 1).insert(inputs[n - 1])
    }
}

/// One white-flag step: a transaction with all inputs available spends them
/// and creates its outputs; one with a missing or doubly spent input is
/// marked conflicting; any other message leaves the state unchanged.
pub open spec fn wf_step(t: &Tangle, ledger: &LedgerState, st: WhiteFlagV, v: Seq<u8>) -> WhiteFlagV {
    if t.vmap().contains_key(v) {
        match t.vmap()[v].message.payload {
            Some(crate::message::PayloadV::Transaction(tx)) => if wf_inputs_ok(
                ledger,
                st,
                tx.inputs,
            ) {
                WhiteFlagV {
                    created: wf_add_outputs(st.created, v, tx.outputs, tx.outputs.len() as int),
                    consumed: wf_add_inputs(st.consumed, tx.inputs, tx.inputs.len() as int),
                    included: st.included.push(v),
                    conflicting: st.conflicting,
                }
            } else {
                WhiteFlagV {
                    created: st.created,
                    consumed: st.consumed,
                    included: st.included,
                    conflicting: st.conflicting.push(v),
                }
            },
            _ => st,
        }
    } else {
        st
    }
}

/// The empty white-flag state.
pub open spec fn wf_empty() -> WhiteFlagV {
    WhiteFlagV {
        created: Map::empty(),
        consumed: Set::empty(),
        included: Seq::empty(),
        conflicting: Seq::empty(),
    }
}

/// The white-flag state after the first `n` vertices of the traversal.
pub open spec fn wf_fold(t: &Tangle, ledger: &LedgerState, s: Seq<Seq<u8>>, n: int) -> WhiteFlagV
    decreases n,
{
    if n <= 0 {
        wf_empty()
    } else {
        wf_step(t, ledger, wf_fold(t, ledger, s, n - 1), s[n - 1])
    }
}

/// The computed ledger delta of one confirmation.
pub struct WhiteFlagDelta {
    pub created: Vec<(OutputId, SigLockedSingleOutput)>,
    pub consumed: Vec<OutputId>,
    pub included: Vec<MessageId>,
    pub conflicting: Vec<MessageId>,
}

impl WhiteFlagDelta {
    pub open spec fn created_map(&self) -> Map<(Seq<u8>, u16), crate::message::SigLockedSingleOutputV> {
        pairs_to_map(
            self.created@.map_values(
                |p: (OutputId, SigLockedSingleOutput)| (p.0, p.1@),
            ),
        )
    }

    pub open spec fn consumed_set(&self) -> Set<(Seq<u8>, u16)> {
        self.consumed@.map_values(|o: OutputId| o@).to_set()
    }

    /// The white-flag state this delta denotes.
    pub open spec fn view_state(&self) -> WhiteFlagV {
        WhiteFlagV {
            created: self.created_map(),
            consumed: self.consumed_set(),
            included: self.included@.map_values(|m: MessageId| m@),
            conflicting: self.conflicting@.map_values(|m: MessageId| m@),
        }
    }
}

/// Copies an output value.
fn copy_output(o: &SigLockedSingleOutput) -> (r: SigLockedSingleOutput)
    ensures
        r@ == o@,
{
    let address = match &o.address {
        crate::message::Address::Wots(b) => crate::message::Address::Wots(
            vstd::slice::slice_to_vec(b.as_slice()),
        ),
        crate::message::Address::Ed25519(b) => crate::message::Address::Ed25519(*b),
    };
    SigLockedSingleOutput { address, amount: o.amount }
}

fn delta_created_contains(d: &WhiteFlagDelta, id: &OutputId) -> (r: bool)
    ensures
        r == d.created_map().contains_key(id@),
{
    let ghost mapped = d.created@.map_values(|p: (OutputId, SigLockedSingleOutput)| (p.0, p.1@));
    proof {
        lemma_pairs_to_map(mapped);
        assert(forall|j: int|
            0 <= j < mapped.len() ==> (#[trigger] mapped[j]).0 == d.created@[j].0);
    }
    let mut i: usize = 0;
    while i < d.created.len()
        invariant
            i <= d.created@.len(),
            mapped == d.created@.map_values(|p: (OutputId, SigLockedSingleOutput)| (p.0, p.1@)),
            forall|k: int| 0 <= k < i ==> (#[trigger] d.created@[k]).0@ != id@,
        decreases d.created@.len() - i,
    {
        if d.created[i].0 == *id {
            proof {
                lemma_pairs_to_map(mapped);
                assert(mapped[i as int].0@ == id@);
                assert(d.created_map().contains_key(id@));
            }
            return true;
        }
        i += 1;
    }
    proof {
        lemma_pairs_to_map(mapped);
        assert(forall|j: int|
            0 <= j < mapped.len() ==> (#[trigger] mapped[j]).0 == d.created@[j].0);
        assert(!d.created_map().contains_key(id@));
    }
    false
}

fn delta_consumed_contains(d: &WhiteFlagDelta, id: &OutputId) -> (r: bool)
    ensures
        r == d.consumed_set().contains(id@),
{
    let ghost mapped = d.consumed@.map_values(|o: OutputId| o@);
    let mut i: usize = 0;
    while i < d.consumed.len()
        invariant
            i <= d.consumed@.len(),
            mapped == d.consumed@.map_values(|o: OutputId| o@),
            forall|k: int| 0 <= k < i ==> (#[trigger] mapped[k]) != id@,
        decreases d.consumed@.len() - i,
    {
        proof {
            assert(mapped[i as int] == (d.consumed@[i as int])@);
        }
        if d.consumed[i] == *id {
            proof {
                assert(mapped.contains(id@));
            }
            return true;
        }
        i += 1;
    }
    proof {
        if mapped.contains(id@) {
            let a = choose|a: int| 0 <= a < mapped.len() && mapped[a] == id@;
        }
        assert(!d.consumed_set().contains(id@));
    }
    false
}


impl LedgerState {
    /// Marks an output id spent without touching the unspent map (for an
    /// output created and consumed within one confirmation).
    pub fn mark_spent(&mut self, id: &OutputId)
        requires
            old(self).wf(),
        ensures
            final(self).wf(),
            final(self).unspent_map() == old(self).unspent_map(),
            final(self).spent_set() == old(self).spent_set().insert(id@),
    {
        self.spent.push(*id);
        proof {
            let m0 = old(self).spent@.map_values(|o: OutputId| o@);
            let m1 = self.spent@.map_values(|o: OutputId| o@);
            assert(m1 =~= m0.push(id@));
            assert forall|x: (Seq<u8>, u16)| #[trigger] m1.contains(x) implies m0.contains(x) || x
                == id@ by {
                let a = choose|a: int| 0 <= a < m1.len() && m1[a] == x;
                if a < m1.len() - 1 {
                    assert(m0[a] == x);
                }
            }
            assert(m1[m1.len() - 1] == id@);
            assert forall|x: (Seq<u8>, u16)| #[trigger] m0.contains(x) implies m1.contains(x) by {
                let a = choose|a: int| 0 <= a < m0.len() && m0[a] == x;
                assert(m1[a] == x);
            }
            assert(self.spent_set() =~= old(self).spent_set().insert(id@));
        }
    }

    /// Stores an unspent output under its id, replacing any previous entry.
    pub fn put_unspent(&mut self, id: OutputId, output: SigLockedSingleOutput)
        requires
            old(self).wf(),
        ensures
            final(self).wf(),
            final(self).unspent_map() == old(self).unspent_map().insert(id@, output),
            final(self).spent_set() == old(self).spent_set(),
    {
        let found = self.find_unspent(&id);
        proof {
            lemma_pairs_to_map(self.unspent@);
        }
        match found {
            Some(i) => {
                self.unspent.remove(i);
                let ghost mid = *self;
                proof {
                    assert(mid.unspent@ =~= old(self).unspent@.remove(i as int));
                    lemma_pairs_to_map_remove(old(self).unspent@, i as int);
                }
                self.unspent.push((id, output));
                proof {
                    lemma_pairs_to_map_push(mid.unspent@, id, output);
                    lemma_pairs_to_map(mid.unspent@);
                    assert(unique_keys(self.unspent@)) by {
                        assert(forall|j: int|
                            0 <= j < mid.unspent@.len() ==> (#[trigger] mid.unspent@[j]).0@ != id@);
                        assert(forall|j: int|
                            0 <= j < self.unspent@.len() - 1 ==> self.unspent@[j]
                                == mid.unspent@[j]);
                    }
                    assert(final(self).unspent_map() =~= old(self).unspent_map().insert(
                        id@,
                        output,
                    ));
                }
            },
            None => {
                self.unspent.push((id, output));
                proof {
                    lemma_pairs_to_map_push(old(self).unspent@, id, output);
                    assert(unique_keys(self.unspent@)) by {
                        assert(forall|j: int|
                            0 <= j < old(self).unspent@.len() ==> (#[trigger] old(self).unspent@[j]).0@ != id@);
                        assert(forall|j: int|
                            0 <= j < self.unspent@.len() - 1 ==> self.unspent@[j] == old(self).unspent@[j]);
                    }
                }
            },
        }
    }
}

fn check_inputs(ledger: &LedgerState, d: &WhiteFlagDelta, tx: &crate::message::TransactionPayload) -> (ok:
    bool)
    ensures
        ok == wf_inputs_ok(ledger, d.view_state(), tx@.inputs),
{
    let ghost ins = tx@.inputs;
    proof {
        assert(forall|a: int|
            0 <= a < tx.inputs@.len() ==> (#[trigger] ins[a]) == (tx.inputs@[a])@);
    }
    let mut i: usize = 0;
    while i < tx.inputs.len()
        invariant
            i <= tx.inputs@.len(),
            ins == tx@.inputs,
            forall|a: int|
                0 <= a < tx.inputs@.len() ==> (#[trigger] ins[a]) == (tx.inputs@[a])@,
            forall|a: int|
                0 <= a < i ==> wf_avail(ledger, d.view_state(), #[trigger] ins[a]) && (forall|b: int|
                    0 <= b < a ==> ins[b] != ins[a]),
        decreases tx.inputs@.len() - i,
    {
        let input = &tx.inputs[i];
        let oid = OutputId::new(TransactionId::new(input.transaction_id), input.output_index);
        proof {
            assert(oid@ == ins[i as int]);
        }
        let avail = (ledger.contains_unspent(&oid) || delta_created_contains(d, &oid))
            && !ledger.contains_spent(&oid) && !delta_consumed_contains(d, &oid);
        if !avail {
            proof {
                assert(!wf_avail(ledger, d.view_state(), ins[i as int]));
            }
            return false;
        }
        let mut j: usize = 0;
        while j < i
            invariant
                j <= i < tx.inputs@.len(),
                ins == tx@.inputs,
                forall|a: int|
                    0 <= a < tx.inputs@.len() ==> (#[trigger] ins[a]) == (tx.inputs@[a])@,
                oid@ == ins[i as int],
                *input == tx.inputs@[i as int],
                forall|b: int| 0 <= b < j ==> ins[b] != ins[i as int],
            decreases i - j,
        {
            let earlier = &tx.inputs[j];
            proof {
                assert(*earlier == tx.inputs@[j as int]);
                assert(ins[j as int] == (earlier.transaction_id@, earlier.output_index));
                assert(ins[i as int] == (input.transaction_id@, input.output_index));
            }
            if crate::ids::bytes32_eq(&earlier.transaction_id, &input.transaction_id)
                && earlier.output_index == input.output_index {
                proof {
                    assert(ins[j as int] == ins[i as int]);
                }
                return false;
            }
            proof {
                assert(ins[j as int] != ins[i as int]);
            }
            j += 1;
        }
        i += 1;
    }
    true
}

/// Computes the white-flag delta of a traversal order, without touching the
/// ledger: exactly the fold of `wf_step` over the order.
pub fn compute_delta(tangle: &Tangle, ledger: &LedgerState, cone: &Vec<MessageId>) -> (d:
    WhiteFlagDelta)
    requires
        tangle.inv(),
        ledger.wf(),
    ensures
        d.view_state() == wf_fold(
            tangle,
            ledger,
            cone@.map_values(|m: MessageId| m@),
            cone@.len() as int,
        ),
{
    let mut d = WhiteFlagDelta {
        created: Vec::new(),
        consumed: Vec::new(),
        included: Vec::new(),
        conflicting: Vec::new(),
    };
    let ghost cs = cone@.map_values(|m: MessageId| m@);
    proof {
        assert(d.created@.map_values(|p: (OutputId, SigLockedSingleOutput)| (p.0, p.1@)) =~= Seq::<
            ((OutputId, crate::message::SigLockedSingleOutputV)),
        >::empty());
        assert(d.consumed@.map_values(|o: OutputId| o@) =~= Seq::<(Seq<u8>, u16)>::empty());
        assert(d.consumed_set() =~= Set::<(Seq<u8>, u16)>::empty());
        assert(d.included@.map_values(|m: MessageId| m@) =~= Seq::<Seq<u8>>::empty());
        assert(d.conflicting@.map_values(|m: MessageId| m@) =~= Seq::<Seq<u8>>::empty());
        assert(d.view_state() == wf_empty()) by {
            assert(d.view_state().created =~= wf_empty().created);
            assert(d.view_state().consumed =~= wf_empty().consumed);
        }
    }
    let mut k: usize = 0;
    while k < cone.len()
        invariant
            tangle.inv(),
            ledger.wf(),
            cs == cone@.map_values(|m: MessageId| m@),
            k <= cone@.len(),
            d.view_state() == wf_fold(tangle, ledger, cs, k as int),
        decreases cone@.len() - k,
    {
        let v = cone[k];
        proof {
            assert(cs[k as int] == v@);
            crate::tangle::lemma_pairs_to_map(tangle.vseq());
        }
        let ghost st0 = d.view_state();
        match tangle.get_message(&v) {
            Some(msg) => {
                match &msg.payload {
                    Some(crate::message::Payload::Transaction(tx)) => {
                        proof {
                            assert(tangle.vmap()[v@].message.payload == Some(
                                crate::message::PayloadV::Transaction(tx@),
                            ));
                        }
                        let ok = check_inputs(ledger, &d, tx);
                        if ok {
                            let ghost consumed0 = d.consumed@;
                            let ghost included0 = d.included@;
                            let ghost conflicting0 = d.conflicting@;
                            let ghost outs = tx@.outputs;
                            proof {
                                assert(forall|a: int|
                                    0 <= a < tx.outputs@.len() ==> (#[trigger] outs[a]) == (
                                    tx.outputs@[a])@);
                            }
                            let mut o: usize = 0;
                            while o < tx.outputs.len()
                                invariant
                                    o <= tx.outputs@.len(),
                                    outs == tx@.outputs,
                                    forall|a: int|
                                        0 <= a < tx.outputs@.len() ==> (#[trigger] outs[a]) == (
                                        tx.outputs@[a])@,
                                    d.created_map() == wf_add_outputs(
                                        st0.created,
                                        v@,
                                        outs,
                                        o as int,
                                    ),
                                    d.consumed@ == consumed0,
                                    d.included@ == included0,
                                    d.conflicting@ == conflicting0,
                                decreases tx.outputs@.len() - o,
                            {
                                let oid = OutputId::new(TransactionId::new(v.bytes), o as u16);
                                let out = copy_output(&tx.outputs[o]);
                                let ghost created_before = d.created@;
                                d.created.push((oid, out));
                                proof {
                                    let m0 = created_before.map_values(
                                        |p: (OutputId, SigLockedSingleOutput)| (p.0, p.1@),
                                    );
                                    let m1 = d.created@.map_values(
                                        |p: (OutputId, SigLockedSingleOutput)| (p.0, p.1@),
                                    );
                                    assert(m1 =~= m0.push((oid, out@)));
                                    lemma_pairs_to_map_push(m0, oid, out@);
                                    assert(oid@ == (v@, o as u16));
                                    assert(out@ == outs[o as int]);
                                }
                                o += 1;
                            }
                            let ghost created1 = d.created@;
                            let ghost ins = tx@.inputs;
                            proof {
                                assert(forall|a: int|
                                    0 <= a < tx.inputs@.len() ==> (#[trigger] ins[a]) == (
                                    tx.inputs@[a])@);
                            }
                            let mut i: usize = 0;
                            while i < tx.inputs.len()
                                invariant
                                    i <= tx.inputs@.len(),
                                    ins == tx@.inputs,
                                    forall|a: int|
                                        0 <= a < tx.inputs@.len() ==> (#[trigger] ins[a]) == (
                                        tx.inputs@[a])@,
                                    d.created@ == created1,
                                    d.consumed_set() == wf_add_inputs(st0.consumed, ins, i as int),
                                    d.included@ == included0,
                                    d.conflicting@ == conflicting0,
                                decreases tx.inputs@.len() - i,
                            {
                                let input = &tx.inputs[i];
                                let oid = OutputId::new(
                                    TransactionId::new(input.transaction_id),
                                    input.output_index,
                                );
                                let ghost consumed_before = d.consumed@;
                                d.consumed.push(oid);
                                proof {
                                    let m0 = consumed_before.map_values(|x: OutputId| x@);
                                    let m1 = d.consumed@.map_values(|x: OutputId| x@);
                                    assert(m1 =~= m0.push(oid@));
                                    assert forall|x: (Seq<u8>, u16)| #[trigger]
                                        m1.contains(x) implies m0.contains(x) || x == oid@ by {
                                        let a = choose|a: int| 0 <= a < m1.len() && m1[a] == x;
                                        if a < m1.len() - 1 {
                                            assert(m0[a] == x);
                                        }
                                    }
                                    assert(m1[m1.len() - 1] == oid@);
                                    assert forall|x: (Seq<u8>, u16)| #[trigger]
                                        m0.contains(x) implies m1.contains(x) by {
                                        let a = choose|a: int| 0 <= a < m0.len() && m0[a] == x;
                                        assert(m1[a] == x);
                                    }
                                    assert(d.consumed_set() =~= m0.to_set().insert(oid@));
                                    assert(oid@ == ins[i as int]);
                                }
                                i += 1;
                            }
                            let ghost included_before = d.included@;
                            d.included.push(v);
                            proof {
                                let m0 = included_before.map_values(|m: MessageId| m@);
                                let m1 = d.included@.map_values(|m: MessageId| m@);
                                assert(m1 =~= m0.push(v@));
                                assert(d.view_state() == wf_fold(tangle, ledger, cs, k + 1)) by {
                                    assert(wf_inputs_ok(ledger, st0, tx@.inputs));
                                    assert(d.view_state().created =~= wf_fold(
                                        tangle,
                                        ledger,
                                        cs,
                                        k + 1,
                                    ).created);
                                    assert(d.view_state().consumed =~= wf_fold(
                                        tangle,
                                        ledger,
                                        cs,
                                        k + 1,
                                    ).consumed);
                                    assert(d.view_state().included =~= wf_fold(
                                        tangle,
                                        ledger,
                                        cs,
                                        k + 1,
                                    ).included);
                                    assert(d.view_state().conflicting =~= wf_fold(
                                        tangle,
                                        ledger,
                                        cs,
                                        k + 1,
                                    ).conflicting);
                                }
                            }
                        } else {
                            let ghost conflicting_before = d.conflicting@;
                            d.conflicting.push(v);
                            proof {
                                let m0 = conflicting_before.map_values(|m: MessageId| m@);
                                let m1 = d.conflicting@.map_values(|m: MessageId| m@);
                                assert(m1 =~= m0.push(v@));
                                assert(d.view_state() == wf_fold(tangle, ledger, cs, k + 1)) by {
                                    assert(!wf_inputs_ok(ledger, st0, tx@.inputs));
                                    assert(d.view_state().created =~= wf_fold(
                                        tangle,
                                        ledger,
                                        cs,
                                        k + 1,
                                    ).created);
                                    assert(d.view_state().consumed =~= wf_fold(
                                        tangle,
                                        ledger,
                                        cs,
                                        k + 1,
                                    ).consumed);
                                    assert(d.view_state().included =~= wf_fold(
                                        tangle,
                                        ledger,
                                        cs,
                                        k + 1,
                                    ).included);
                                }
                            }
                        }
                    },
                    _ => {
                        proof {
                            assert(wf_step(tangle, ledger, st0, v@) == st0);
                        }
                    },
                }
            },
            None => {
                proof {
                    assert(wf_step(tangle, ledger, st0, v@) == st0);
                }
            },
        }
        k += 1;
    }
    d
}


/// Confirmation failed because the computed inclusion merkle root differs
/// from the milestone's declared one; this is fatal for the milestone.
#[derive(Clone, Copy, Debug, PartialEq, Eq, Structural)]
pub enum ConfirmError {
    MerkleMismatch,
}

/// What one confirmation did.
pub struct Confirmation {
    /// The confirmed milestone's index.
    pub index: u32,
    /// The confirmed cone, in traversal order.
    pub cone: Vec<MessageId>,
    /// The included (non-conflicting) transactions, in traversal order.
    pub included: Vec<MessageId>,
    /// The transactions marked conflicting.
    pub conflicting: Vec<MessageId>,
}

/// The milestone payload a stored message carries.
pub open spec fn milestone_of(t: &Tangle, id: Seq<u8>) -> crate::message::MilestonePayloadV {
    t.vmap()[id].message.payload->Some_0->Milestone_0
}

/// The unspent map after the consumed ids of a delta were removed.
pub open spec fn apply_consumed(
    m: Map<(Seq<u8>, u16), SigLockedSingleOutput>,
    s: Seq<OutputId>,
    n: int,
) -> Map<(Seq<u8>, u16), SigLockedSingleOutput>
    decreases n,
{
    if n <= 0 {
        m
    } else {
        apply_consumed(m, s, n - 1).remove(s[n - 1]@)
    }
}

/// The spent set after the consumed ids of a delta were added.
pub open spec fn apply_spent(st: Set<(Seq<u8>, u16)>, s: Seq<OutputId>, n: int) -> Set<
    (Seq<u8>, u16),
>
    decreases n,
{
    if n <= 0 {
        st
    } else {
        apply_spent(st, s, n - 1).insert(s[n - 1]@)
    }
}

/// The unspent map after a delta's created outputs were stored, those spent
/// within the same confirmation excepted.
pub open spec fn apply_created(
    m: Map<(Seq<u8>, u16), SigLockedSingleOutput>,
    s: Seq<(OutputId, SigLockedSingleOutput)>,
    consumed: Set<(Seq<u8>, u16)>,
    n: int,
) -> Map<(Seq<u8>, u16), SigLockedSingleOutput>
    decreases n,
{
    if n <= 0 {
        m
    } else if consumed.contains(s[n - 1].0@) {
        apply_created(m, s, consumed, n - 1)
    } else {
        apply_created(m, s, consumed, n - 1).insert(s[n - 1].0@, s[n - 1].1)
    }
}

proof fn lemma_apply_spent(st0: Set<(Seq<u8>, u16)>, s: Seq<OutputId>, n: int)
    requires
        0 <= n <= s.len(),
    ensures
        forall|x: (Seq<u8>, u16)|
            apply_spent(st0, s, n).contains(x) <==> st0.contains(x) || (exists|i: int|
                0 <= i < n && (#[trigger] s[i])@ == x),
    decreases n,
{
    if n > 0 {
        lemma_apply_spent(st0, s, n - 1);
        assert forall|x: (Seq<u8>, u16)|
            apply_spent(st0, s, n).contains(x) implies st0.contains(x) || (exists|i: int|
            0 <= i < n && (#[trigger] s[i])@ == x) by {
            if !st0.contains(x) {
                if x == (s[n - 1])@ {
                    assert((s[n - 1])@ == x);
                } else {
                    let i = choose|i: int| 0 <= i < n - 1 && (#[trigger] s[i])@ == x;
                    assert((s[i])@ == x);
                }
            }
        }
        assert forall|x: (Seq<u8>, u16)|
            st0.contains(x) || (exists|i: int| 0 <= i < n && (#[trigger] s[i])@ == x)
            implies apply_spent(st0, s, n).contains(x) by {
            if !st0.contains(x) {
                let i = choose|i: int| 0 <= i < n && (#[trigger] s[i])@ == x;
                if i < n - 1 {
                    assert(exists|j: int| 0 <= j < n - 1 && (#[trigger] s[j])@ == x);
                }
            }
        }
    }
}

proof fn lemma_apply_consumed(
    m: Map<(Seq<u8>, u16), SigLockedSingleOutput>,
    s: Seq<OutputId>,
    n: int,
)
    requires
        0 <= n <= s.len(),
    ensures
        forall|k: (Seq<u8>, u16)|
            apply_consumed(m, s, n).contains_key(k) <==> m.contains_key(k) && !(exists|i: int|
                0 <= i < n && (#[trigger] s[i])@ == k),
        forall|k: (Seq<u8>, u16)| #[trigger]
            apply_consumed(m, s, n).contains_key(k) ==> apply_consumed(m, s, n)[k] == m[k],
    decreases n,
{
    if n > 0 {
        lemma_apply_consumed(m, s, n - 1);
        assert forall|k: (Seq<u8>, u16)|
            apply_consumed(m, s, n).contains_key(k) implies m.contains_key(k) && !(exists|i: int|
            0 <= i < n && (#[trigger] s[i])@ == k) by {
            assert(k != (s[n - 1])@);
            assert(apply_consumed(m, s, n - 1).contains_key(k));
            if exists|i: int| 0 <= i < n && (#[trigger] s[i])@ == k {
                let i = choose|i: int| 0 <= i < n && (#[trigger] s[i])@ == k;
                assert(i < n - 1);
                assert(exists|j: int| 0 <= j < n - 1 && (#[trigger] s[j])@ == k);
            }
        }
        assert forall|k: (Seq<u8>, u16)|
            m.contains_key(k) && !(exists|i: int| 0 <= i < n && (#[trigger] s[i])@ == k)
            implies apply_consumed(m, s, n).contains_key(k) by {
            if exists|j: int| 0 <= j < n - 1 && (#[trigger] s[j])@ == k {
                let j = choose|j: int| 0 <= j < n - 1 && (#[trigger] s[j])@ == k;
                assert((s[j])@ == k);
            }
            if k == (s[n - 1])@ {
                assert((s[n - 1])@ == k);
            }
        }
        assert forall|k: (Seq<u8>, u16)| #[trigger]
            apply_consumed(m, s, n).contains_key(k) implies apply_consumed(m, s, n)[k] == m[k] by {
            assert(k != (s[n - 1])@);
            assert(apply_consumed(m, s, n - 1).contains_key(k));
        }
    }
}

proof fn lemma_apply_created(
    m: Map<(Seq<u8>, u16), SigLockedSingleOutput>,
    s: Seq<(OutputId, SigLockedSingleOutput)>,
    sm: Seq<(OutputId, crate::message::SigLockedSingleOutputV)>,
    consumed: Set<(Seq<u8>, u16)>,
    n: int,
)
    requires
        0 <= n <= s.len(),
        sm == s.map_values(|p: (OutputId, SigLockedSingleOutput)| (p.0, p.1@)),
    ensures
        forall|k: (Seq<u8>, u16)|
            apply_created(m, s, consumed, n).contains_key(k) <==> m.contains_key(k) || (exists|i: int|
                0 <= i < n && (#[trigger] s[i]).0@ == k && !consumed.contains(k)),
        forall|k: (Seq<u8>, u16)| #[trigger]
            apply_created(m, s, consumed, n).contains_key(k) && !(exists|i: int|
                0 <= i < n && (#[trigger] s[i]).0@ == k) ==> apply_created(m, s, consumed, n)[k]
                == m[k] && m.contains_key(k),
        forall|k: (Seq<u8>, u16)| #[trigger]
            pairs_to_map(sm.subrange(0, n)).contains_key(k) && !consumed.contains(k)
                ==> apply_created(m, s, consumed, n).contains_key(k) && apply_created(
                m,
                s,
                consumed,
                n,
            )[k]@ == pairs_to_map(sm.subrange(0, n))[k],
    decreases n,
{
    if n > 0 {
        lemma_apply_created(m, s, sm, consumed, n - 1);
        let prev = sm.subrange(0, n - 1);
        let cur = sm.subrange(0, n);
        assert(cur.drop_last() =~= prev);
        assert(cur.last() == sm[n - 1]);
        assert(sm[n - 1] == (s[n - 1].0, s[n - 1].1@));
        assert(pairs_to_map(cur) == pairs_to_map(prev).insert(s[n - 1].0@, s[n - 1].1@));
        assert forall|k: (Seq<u8>, u16)|
            apply_created(m, s, consumed, n).contains_key(k) implies m.contains_key(k) || (exists|i: int|
            0 <= i < n && (#[trigger] s[i]).0@ == k && !consumed.contains(k)) by {
            if !m.contains_key(k) {
                if k == s[n - 1].0@ && !consumed.contains(k) {
                    assert(s[n - 1].0@ == k);
                } else {
                    assert(apply_created(m, s, consumed, n - 1).contains_key(k));
                    let i = choose|i: int|
                        0 <= i < n - 1 && (#[trigger] s[i]).0@ == k && !consumed.contains(k);
                    assert((s[i]).0@ == k);
                }
            }
        }
        assert forall|k: (Seq<u8>, u16)|
            m.contains_key(k) || (exists|i: int|
                0 <= i < n && (#[trigger] s[i]).0@ == k && !consumed.contains(k))
            implies apply_created(m, s, consumed, n).contains_key(k) by {
            if !m.contains_key(k) {
                let i = choose|i: int|
                    0 <= i < n && (#[trigger] s[i]).0@ == k && !consumed.contains(k);
                if i < n - 1 {
                    assert(exists|j: int|
                        0 <= j < n - 1 && (#[trigger] s[j]).0@ == k && !consumed.contains(k));
                }
            }
        }
        assert forall|k: (Seq<u8>, u16)| #[trigger]
            apply_created(m, s, consumed, n).contains_key(k) && !(exists|i: int|
                0 <= i < n && (#[trigger] s[i]).0@ == k) implies apply_created(m, s, consumed, n)[k]
            == m[k] && m.contains_key(k) by {
            if k == s[n - 1].0@ {
                assert((s[n - 1]).0@ == k);
            }
            assert(k != s[n - 1].0@);
            if exists|j: int| 0 <= j < n - 1 && (#[trigger] s[j]).0@ == k {
                let j = choose|j: int| 0 <= j < n - 1 && (#[trigger] s[j]).0@ == k;
                assert((s[j]).0@ == k);
            }
            assert(m.contains_key(k));
            assert(apply_created(m, s, consumed, n - 1).contains_key(k));
            assert(apply_created(m, s, consumed, n - 1)[k] == m[k]);
        }
        lemma_pairs_to_map(prev);
        lemma_pairs_to_map(cur);
        assert forall|k: (Seq<u8>, u16)| #[trigger]
            pairs_to_map(cur).contains_key(k) && !consumed.contains(k) implies apply_created(
            m,
            s,
            consumed,
            n,
        ).contains_key(k) && apply_created(m, s, consumed, n)[k]@ == pairs_to_map(cur)[k] by {
            if k == s[n - 1].0@ {
            } else {
                assert(pairs_to_map(prev).contains_key(k));
                assert(pairs_to_map(prev)[k] == pairs_to_map(cur)[k]);
                if exists|i: int| 0 <= i < n - 1 && (#[trigger] s[i]).0@ == k {
                } else {
                    let a = choose|a: int| 0 <= a < prev.len() && (#[trigger] prev[a]).0@ == k;
                    assert(prev[a] == sm[a]);
                    assert(sm[a].0 == s[a].0);
                    assert(s[a].0@ == k);
                }
            }
        }
    } else {
        assert(sm.subrange(0, 0) =~= Seq::<(OutputId, crate::message::SigLockedSingleOutputV)>::empty());
    }
}


/// Stamps every vertex of the cone with the milestone's index as cone root
/// index; nothing else changes.
fn stamp_cone(tangle: &mut Tangle, cone: &Vec<MessageId>, index: u32)
    requires
        old(tangle).inv(),
        forall|x: int, y: int|
            0 <= x < y < cone@.len() ==> (#[trigger] cone@[x])@ != (#[trigger] cone@[y])@,
        forall|x: int| 0 <= x < cone@.len() ==> eligible(old(tangle), (#[trigger] cone@[x])@),
    ensures
        final(tangle).inv(),
        final(tangle).vmap().dom() == old(tangle).vmap().dom(),
        forall|b: int|
            0 <= b < cone@.len() ==> final(tangle).vmap()[(#[trigger] cone@[b])@]
                == (TangleVertexV {
                message: old(tangle).vmap()[(cone@[b])@].message,
                metadata: MessageMetadata {
                    cone_root_index: Some(index),
                    ..old(tangle).vmap()[(cone@[b])@].metadata
                },
            }),
        forall|k: Seq<u8>|
            #[trigger] old(tangle).vmap().contains_key(k) && !(exists|b: int|
                0 <= b < cone@.len() && (#[trigger] cone@[b])@ == k) ==> final(tangle).vmap()[k]
                == old(tangle).vmap()[k],
        final(tangle).cmap() == old(tangle).cmap(),
        final(tangle).sep_map() == old(tangle).sep_map(),
        final(tangle).ms_map() == old(tangle).ms_map(),
        final(tangle).latest_solid_milestone_index == old(tangle).latest_solid_milestone_index,
        final(tangle).latest_milestone_index == old(tangle).latest_milestone_index,
        final(tangle).pruning_index == old(tangle).pruning_index,
        final(tangle).solid_milestone_log == old(tangle).solid_milestone_log,
{
    let mut a: usize = 0;
    while a < cone.len()
        invariant
            tangle.inv(),
            a <= cone@.len(),
            forall|x: int, y: int|
                0 <= x < y < cone@.len() ==> (#[trigger] cone@[x])@ != (#[trigger] cone@[y])@,
            forall|x: int| 0 <= x < cone@.len() ==> eligible(old(tangle), (#[trigger] cone@[x])@),
            tangle.vmap().dom() == old(tangle).vmap().dom(),
            forall|b: int|
                0 <= b < a ==> tangle.vmap()[(#[trigger] cone@[b])@] == (TangleVertexV {
                    message: old(tangle).vmap()[(cone@[b])@].message,
                    metadata: MessageMetadata {
                        cone_root_index: Some(index),
                        ..old(tangle).vmap()[(cone@[b])@].metadata
                    },
                }),
            forall|k: Seq<u8>|
                #[trigger] old(tangle).vmap().contains_key(k) && !(exists|b: int|
                    0 <= b < a && (#[trigger] cone@[b])@ == k) ==> tangle.vmap()[k] == old(
                    tangle,
                ).vmap()[k],
            tangle.cmap() == old(tangle).cmap(),
            tangle.sep_map() == old(tangle).sep_map(),
            tangle.ms_map() == old(tangle).ms_map(),
            tangle.latest_solid_milestone_index == old(tangle).latest_solid_milestone_index,
            tangle.latest_milestone_index == old(tangle).latest_milestone_index,
            tangle.pruning_index == old(tangle).pruning_index,
            tangle.solid_milestone_log == old(tangle).solid_milestone_log,
        decreases cone@.len() - a,
    {
        let v = cone[a];
        proof {
            assert(eligible(old(tangle), v@));
            assert(!(exists|b: int| 0 <= b < a && (#[trigger] cone@[b])@ == v@));
            assert(tangle.vmap()[v@] == old(tangle).vmap()[v@]);
            assert(tangle.vmap().contains_key(v@)) by {
                assert(old(tangle).vmap().contains_key(v@));
            }
        }
        tangle.set_cone_root_index(&v, index);
        proof {
            assert forall|k: Seq<u8>|
                #[trigger] old(tangle).vmap().contains_key(k) && !(exists|b: int|
                    0 <= b < a + 1 && (#[trigger] cone@[b])@ == k) implies tangle.vmap()[k] == old(
                tangle,
            ).vmap()[k] by {
                if k != v@ {
                    assert(!(exists|b: int| 0 <= b < a && (#[trigger] cone@[b])@ == k));
                }
            }
            assert forall|b: int|
                0 <= b < a + 1 implies tangle.vmap()[(#[trigger] cone@[b])@] == (TangleVertexV {
                message: old(tangle).vmap()[(cone@[b])@].message,
                metadata: MessageMetadata {
                    cone_root_index: Some(index),
                    ..old(tangle).vmap()[(cone@[b])@].metadata
                },
            }) by {
                if b < a {
                    assert((cone@[b])@ != v@);
                }
            }
        }
        a += 1;
    }
}

/// Applies a computed delta to the ledger: spends the consumed ids, then
/// stores the created outputs that were not consumed.
fn apply_delta(
    ledger: &mut LedgerState,
    created: Vec<(OutputId, SigLockedSingleOutput)>,
    consumed: &Vec<OutputId>,
)
    requires
        old(ledger).wf(),
    ensures
        final(ledger).wf(),
        final(ledger).unspent_map() == apply_created(
            apply_consumed(old(ledger).unspent_map(), consumed@, consumed@.len() as int),
            created@,
            consumed@.map_values(|o: OutputId| o@).to_set(),
            created@.len() as int,
        ),
        final(ledger).spent_set() == apply_spent(
            old(ledger).spent_set(),
            consumed@,
            consumed@.len() as int,
        ),
{
    let ghost unspent0 = ledger.unspent_map();
    let ghost spent0 = ledger.spent_set();
    let ghost consumed_seq = consumed@;
    let mut c: usize = 0;
    while c < consumed.len()
        invariant
            ledger.wf(),
            c <= consumed@.len(),
            consumed@ == consumed_seq,
            ledger.unspent_map() == apply_consumed(unspent0, consumed_seq, c as int),
            ledger.spent_set() == apply_spent(spent0, consumed_seq, c as int),
        decreases consumed@.len() - c,
    {
        let oid = consumed[c];
        if ledger.contains_unspent(&oid) {
            ledger.spend(&oid);
        } else {
            ledger.mark_spent(&oid);
            proof {
                assert(ledger.unspent_map() =~= ledger.unspent_map().remove(oid@));
            }
        }
        c += 1;
    }
    let ghost unspent1 = ledger.unspent_map();
    let ghost created_seq = created@;
    let ghost conset = consumed@.map_values(|o: OutputId| o@).to_set();
    let clen = created.len();
    let mut rest = created;
    let mut e: usize = 0;
    proof {
        assert(created_seq.len() == clen);
        assert(rest@ =~= created_seq.subrange(0, created_seq.len() as int));
    }
    while rest.len() > 0
        invariant
            ledger.wf(),
            e <= created_seq.len() <= usize::MAX,
            e + rest@.len() == created_seq.len(),
            rest@ == created_seq.subrange(e as int, created_seq.len() as int),
            consumed@ == consumed_seq,
            conset == consumed@.map_values(|o: OutputId| o@).to_set(),
            ledger.unspent_map() == apply_created(unspent1, created_seq, conset, e as int),
            ledger.spent_set() == apply_spent(spent0, consumed_seq, consumed_seq.len() as int),
        decreases rest@.len(),
    {
        let pair = rest.remove(0);
        proof {
            assert(pair == created_seq[e as int]);
            assert(rest@ =~= created_seq.subrange(e + 1, created_seq.len() as int));
        }
        let oid = pair.0;
        let mut is_consumed = false;
        let mut ci: usize = 0;
        let ghost conmapped = consumed@.map_values(|o: OutputId| o@);
        while ci < consumed.len()
            invariant
                ci <= consumed@.len(),
                consumed@ == consumed_seq,
                conmapped == consumed@.map_values(|o: OutputId| o@),
                is_consumed ==> conmapped.contains(oid@),
                !is_consumed ==> forall|b: int| 0 <= b < ci ==> (#[trigger] conmapped[b]) != oid@,
            decreases consumed@.len() - ci,
        {
            proof {
                assert(conmapped[ci as int] == (consumed@[ci as int])@);
            }
            if consumed[ci] == oid {
                is_consumed = true;
                proof {
                    assert(conmapped.contains(oid@));
                }
            }
            ci += 1;
        }
        proof {
            if !is_consumed {
                if conmapped.contains(oid@) {
                    let b = choose|b: int| 0 <= b < conmapped.len() && conmapped[b] == oid@;
                }
                assert(!conset.contains(oid@));
            } else {
                assert(conset.contains(oid@));
            }
        }
        if !is_consumed {
            ledger.put_unspent(oid, pair.1);
        }
        e += 1;
    }
}

/// Confirms a milestone under the white-flag rule: walks the unconfirmed
/// cone below it, computes the ledger delta with conflicting transactions
/// skipped, checks the inclusion merkle root against the declared one, and
/// only then — atomically — stamps the whole cone with the milestone's
/// index, applies the delta, and publishes the new latest solid milestone
/// index.
#[verifier::rlimit(100)]
pub fn confirm(tangle: &mut Tangle, ledger: &mut LedgerState, milestone_id: MessageId) -> (r:
    Result<Confirmation, ConfirmError>)
    requires
        old(tangle).inv(),
        old(ledger).wf(),
        old(tangle).vmap().contains_key(milestone_id@),
        old(tangle).vmap()[milestone_id@].message.payload is Some,
        old(tangle).vmap()[milestone_id@].message.payload->Some_0 is Milestone,
        milestone_of(old(tangle), milestone_id@).index > old(tangle).latest_solid_milestone_index,
    ensures
        final(tangle).inv(),
        final(ledger).wf(),
        match r {
            Err(e) => e == ConfirmError::MerkleMismatch && *final(tangle) == *old(tangle) && *final(ledger) == *old(ledger) && (exists|cs: Seq<Seq<u8>>|
                spec_merkle_root(
                    #[trigger] wf_fold(old(tangle), old(ledger), cs, cs.len() as int).included,
                ) != milestone_of(old(tangle), milestone_id@).inclusion_merkle_proof),
            Ok(c) => ({
                let cs = c.cone@.map_values(|m: MessageId| m@);
                let st = wf_fold(old(tangle), old(ledger), cs, cs.len() as int);
                let index = milestone_of(old(tangle), milestone_id@).index;
                &&& c.index == index
                &&& c.included@.map_values(|m: MessageId| m@) == st.included
                &&& c.conflicting@.map_values(|m: MessageId| m@) == st.conflicting
                &&& spec_merkle_root(st.included) == milestone_of(
                    old(tangle),
                    milestone_id@,
                ).inclusion_merkle_proof
                &&& (forall|a: int, b: int|
                    0 <= a < b < c.cone@.len() ==> (#[trigger] c.cone@[a])@ != (
                    #[trigger] c.cone@[b])@)
                &&& (forall|a: int|
                    0 <= a < c.cone@.len() ==> eligible(old(tangle), (#[trigger] c.cone@[a])@))
                &&& (forall|a: int|
                    0 <= a < c.cone@.len() ==> ({
                        let w = (#[trigger] c.cone@[a])@;
                        w == milestone_id@ || exists|b: int|
                            0 <= b < c.cone@.len() && parent_of(old(tangle), (c.cone@[b])@, w)
                    }))
                &&& (forall|a: int|
                    0 <= a < c.cone@.len() ==> ({
                        let u = (#[trigger] c.cone@[a])@;
                        let p1 = old(tangle).vmap()[u].message.parent1;
                        let p2 = old(tangle).vmap()[u].message.parent2;
                        (!eligible(old(tangle), p1) || id_set(c.cone@).contains(p1)) && (!eligible(
                            old(tangle),
                            p2,
                        ) || id_set(c.cone@).contains(p2))
                    }))
                &&& final(tangle).vmap().dom() == old(tangle).vmap().dom()
                &&& (forall|b: int|
                    0 <= b < c.cone@.len() ==> final(tangle).vmap()[(#[trigger] c.cone@[b])@]
                        == (TangleVertexV {
                        message: old(tangle).vmap()[(c.cone@[b])@].message,
                        metadata: MessageMetadata {
                            cone_root_index: Some(index),
                            ..old(tangle).vmap()[(c.cone@[b])@].metadata
                        },
                    }))
                &&& (forall|k: Seq<u8>|
                    #[trigger] old(tangle).vmap().contains_key(k) && !id_set(c.cone@).contains(k)
                        ==> final(tangle).vmap()[k] == old(tangle).vmap()[k])
                &&& final(ledger).spent_set() == old(ledger).spent_set() + st.consumed
                &&& (forall|k: (Seq<u8>, u16)|
                    #[trigger] final(ledger).unspent_map().contains_key(k) <==> ((old(ledger).unspent_map().contains_key(k) || st.created.contains_key(k))
                        && !st.consumed.contains(k)))
                &&& (forall|k: (Seq<u8>, u16)|
                    #[trigger] final(ledger).unspent_map().contains_key(k)
                        && !st.created.contains_key(k) ==> final(ledger).unspent_map()[k] == old(ledger).unspent_map()[k])
                &&& (forall|k: (Seq<u8>, u16)|
                    #[trigger] st.created.contains_key(k) && !st.consumed.contains(k) ==> final(ledger).unspent_map().contains_key(k) && final(ledger).unspent_map()[k]@
                        == st.created[k])
                &&& final(tangle).latest_solid_milestone_index == index
                &&& final(tangle).solid_milestone_log@ == old(tangle).solid_milestone_log@.push(
                    index,
                )
                &&& final(tangle).cmap() == old(tangle).cmap()
                &&& final(tangle).sep_map() == old(tangle).sep_map()
                &&& final(tangle).ms_map() == old(tangle).ms_map()
            }),
        },
{
    let (index, declared) = match tangle.get_message(&milestone_id) {
        Some(msg) => match &msg.payload {
            Some(crate::message::Payload::Milestone(mp)) => (mp.index, mp.inclusion_merkle_proof),
            _ => {
                proof {
                    assert(false);
                }
                return Err(ConfirmError::MerkleMismatch);
            },
        },
        None => {
            proof {
                assert(false);
            }
            return Err(ConfirmError::MerkleMismatch);
        },
    };
    let cone = confirmation_cone(tangle, milestone_id);
    let mut delta = compute_delta(tangle, ledger, &cone);
    let computed = merkle_root(&delta.included);
    if !crate::ids::bytes32_eq(&computed, &declared) {
        proof {
            let cs = cone@.map_values(|m: MessageId| m@);
            assert(spec_merkle_root(
                wf_fold(tangle, ledger, cs, cs.len() as int).included,
            ) != declared@);
        }
        return Err(ConfirmError::MerkleMismatch);
    }
    let ghost cs = cone@.map_values(|m: MessageId| m@);
    let ghost st = wf_fold(tangle, ledger, cs, cs.len() as int);
    let ghost dv = delta.view_state();
    proof {
        assert(dv == st);
    }
    let ghost unspent0 = ledger.unspent_map();
    let ghost spent0 = ledger.spent_set();
    let ghost consumed_seq = delta.consumed@;
    let ghost created_seq = delta.created@;
    stamp_cone(tangle, &cone, index);
    let ghost unspent1 = apply_consumed(unspent0, consumed_seq, consumed_seq.len() as int);
    apply_delta(ledger, delta.created, &delta.consumed);
    // publish the new latest solid milestone index
    tangle.update_latest_solid_milestone_index(index);
    proof {
        let cmapped = created_seq.map_values(|p: (OutputId, SigLockedSingleOutput)| (p.0, p.1@));
        let consmapped = consumed_seq.map_values(|o: OutputId| o@);
        lemma_apply_spent(spent0, consumed_seq, consumed_seq.len() as int);
        lemma_apply_consumed(unspent0, consumed_seq, consumed_seq.len() as int);
        lemma_apply_created(unspent1, created_seq, cmapped, st.consumed, created_seq.len() as int);
        lemma_pairs_to_map(cmapped);
        assert(forall|i: int|
            0 <= i < cmapped.len() ==> (#[trigger] cmapped[i]).0 == created_seq[i].0
                && cmapped[i].1 == created_seq[i].1@);
        assert(forall|i: int|
            0 <= i < consmapped.len() ==> (#[trigger] consmapped[i]) == (consumed_seq[i])@);
        // the consumed set is exactly the ids of the consumed list
        assert forall|x: (Seq<u8>, u16)| #[trigger]
            st.consumed.contains(x) implies (exists|i: int|
            0 <= i < consumed_seq.len() && (#[trigger] consumed_seq[i])@ == x) by {
            let i = choose|i: int| 0 <= i < consmapped.len() && (#[trigger] consmapped[i]) == x;
            assert((consumed_seq[i])@ == x);
        }
        assert forall|x: (Seq<u8>, u16)|
            (exists|i: int| 0 <= i < consumed_seq.len() && (#[trigger] consumed_seq[i])@ == x)
            implies st.consumed.contains(x) by {
            let i = choose|i: int|
                0 <= i < consumed_seq.len() && (#[trigger] consumed_seq[i])@ == x;
            assert(consmapped[i] == x);
            assert(consmapped.contains(x));
        }
        // the spent set grew by exactly the consumed ids
        assert(ledger.spent_set() =~= spent0 + st.consumed);
        // key membership of the created map matches occurrences in the list
        assert forall|k: (Seq<u8>, u16)| #[trigger]
            st.created.contains_key(k) implies (exists|i: int|
            0 <= i < created_seq.len() && (#[trigger] created_seq[i]).0@ == k) by {
            let i = choose|i: int| 0 <= i < cmapped.len() && (#[trigger] cmapped[i]).0@ == k;
            assert(created_seq[i].0@ == k);
        }
        assert forall|k: (Seq<u8>, u16)|
            (exists|i: int| 0 <= i < created_seq.len() && (#[trigger] created_seq[i]).0@ == k)
            implies st.created.contains_key(k) by {
            let i = choose|i: int|
                0 <= i < created_seq.len() && (#[trigger] created_seq[i]).0@ == k;
            assert(cmapped[i].0@ == k);
        }
        assert(cmapped.subrange(0, cmapped.len() as int) =~= cmapped);
        assert(pairs_to_map(cmapped.subrange(0, cmapped.len() as int)) == st.created);
        // the cone-membership form used by the loop matches the set form
        assert forall|k: Seq<u8>| #[trigger]
            id_set(cone@).contains(k) implies (exists|b: int|
            0 <= b < cone@.len() && (#[trigger] cone@[b])@ == k) by {
            let ms = cone@.map_values(|m: MessageId| m@);
            let b = choose|b: int| 0 <= b < ms.len() && (#[trigger] ms[b]) == k;
            assert((cone@[b])@ == k);
        }
        assert forall|k: Seq<u8>|
            (exists|b: int| 0 <= b < cone@.len() && (#[trigger] cone@[b])@ == k) implies id_set(
            cone@,
        ).contains(k) by {
            let ms = cone@.map_values(|m: MessageId| m@);
            let b = choose|b: int| 0 <= b < cone@.len() && (#[trigger] cone@[b])@ == k;
            assert(ms[b] == k);
            assert(ms.contains(k));
        }
    }
    let confirmation = Confirmation {
        index,
        cone,
        included: delta.included,
        conflicting: delta.conflicting,
    };
    Ok(confirmation)
}

} // verus!
