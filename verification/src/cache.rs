//! A small first-in-first-out cache of message checksums, used to drop
//! duplicate broadcasts before any further work.

use vstd::prelude::*;

verus! {

/// No value occurs twice in the sequence.
pub open spec fn unique_seq(s: Seq<u64>) -> bool {
    forall|i: int, j: int| 0 <= i < j < s.len() ==> s[i] != s[j]
}

/// A bounded set of checksums that evicts its oldest entry when full.
pub struct TinyHashCache {
    pub max_capacity: usize,
    pub entries: Vec<u64>,
}

impl View for TinyHashCache {
    type V = Seq<u64>;

    open spec fn view(&self) -> Seq<u64> {
        self.entries@
    }
}

impl TinyHashCache {
    /// All entries are distinct and the capacity is respected.
    pub open spec fn wf(&self) -> bool {
        &&& unique_seq(self.entries@)
        &&& self.entries@.len() <= self.max_capacity
        &&& self.max_capacity >= 1
    }

    pub open spec fn capacity(&self) -> usize {
        self.max_capacity
    }

    pub fn new(max_capacity: usize) -> (r: Self)
        requires
            max_capacity >= 1,
        ensures
            r.wf(),
            r@ == Seq::<u64>::empty(),
            r.capacity() == max_capacity,
    {
        let r = TinyHashCache { max_capacity, entries: Vec::new() };
        proof {
            assert(r@ =~= Seq::<u64>::empty());
        }
        r
    }

    /// Whether the checksum is in the cache.
    pub fn contains(&self, hash: &u64) -> (r: bool)
        ensures
            r == self@.contains(*hash),
    {
        let mut i: usize = 0;
        while i < self.entries.len()
            invariant
                i <= self@.len(),
                forall|k: int| 0 <= k < i ==> self@[k] != *hash,
            decreases self@.len() - i,
        {
            if self.entries[i] == *hash {
                return true;
            }
            i += 1;
        }
        false
    }

    /// Inserts a checksum: returns false and changes nothing when it is
    /// already present; otherwise appends it, evicting the oldest entry
    /// first when the cache is full.
    pub fn insert(&mut self, hash: u64) -> (r: bool)
        requires
            old(self).wf(),
        ensures
            final(self).wf(),
            final(self).capacity() == old(self).capacity(),
            r == !old(self)@.contains(hash),
            !r ==> final(self)@ == old(self)@,
            r ==> final(self)@ == (if old(self)@.len() == old(self).capacity() {
                old(self)@.drop_first()
            } else {
                old(self)@
            }).push(hash),
    {
        if self.contains(&hash) {
            return false;
        }
        let ghost before = self.entries@;
        if self.entries.len() >= self.max_capacity {
            self.entries.remove(0);
            proof {
                assert(self.entries@ =~= before.drop_first());
            }
        }
        let ghost kept = self.entries@;
        self.entries.push(hash);
        proof {
            assert forall|k: int| 0 <= k < kept.len() implies kept[k] != hash by {
                if kept.len() == before.len() {
                    if kept[k] == hash {
                        assert(before[k] == hash);
                        assert(before.contains(hash));
                    }
                } else {
                    if kept[k] == hash {
                        assert(before[k + 1] == hash);
                        assert(before.contains(hash));
                    }
                }
            }
            assert(unique_seq(self.entries@));
        }
        true
    }

    /// The number of cached checksums.
    pub fn len(&self) -> (r: usize)
        ensures
            r == self@.len(),
    {
        self.entries.len()
    }
}

} // verus!
