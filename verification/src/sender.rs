//! Outbound fan-out: each peer has one bounded queue per packet kind, with
//! one consumer — the peer's sender task.  A full queue pushes back: the
//! caller chooses to drop the new entry (requests) or the oldest one
//! (heartbeats).

use vstd::prelude::*;

verus! {

/// A bounded first-in-first-out queue of encoded packets.
pub struct OutboundQueue {
    pub bound: usize,
    pub entries: Vec<Vec<u8>>,
}

impl OutboundQueue {
    /// The queue never exceeds its bound, which is at least one.
    pub open spec fn wf(&self) -> bool {
        &&& self.entries@.len() <= self.bound
        &&& self.bound >= 1
    }

    /// The queued payloads, oldest first.
    pub open spec fn view_entries(&self) -> Seq<Seq<u8>> {
        self.entries@.map_values(|e: Vec<u8>| e@)
    }

    pub fn new(bound: usize) -> (r: Self)
        requires
            bound >= 1,
        ensures
            r.wf(),
            r.bound == bound,
            r.view_entries() == Seq::<Seq<u8>>::empty(),
    {
        let r = OutboundQueue { bound, entries: Vec::new() };
        proof {
            assert(r.view_entries() =~= Seq::<Seq<u8>>::empty());
        }
        r
    }

    /// The number of queued payloads.
    pub fn len(&self) -> (r: usize)
        ensures
            r == self.view_entries().len(),
    {
        self.entries.len()
    }

    /// Enqueues unless the queue is full; a full queue drops the new
    /// payload and reports the backpressure, as requests want.
    pub fn push_drop_new(&mut self, payload: Vec<u8>) -> (accepted: bool)
        requires
            old(self).wf(),
        ensures
            final(self).wf(),
            final(self).bound == old(self).bound,
            accepted == (old(self).view_entries().len() < old(self).bound),
            accepted ==> final(self).view_entries() == old(self).view_entries().push(payload@),
            !accepted ==> *final(self) == *old(self),
    {
        if self.entries.len() < self.bound {
            self.entries.push(payload);
            proof {
                assert(self.view_entries() =~= old(self).view_entries().push(payload@));
            }
            true
        } else {
            false
        }
    }

    /// Enqueues, evicting the oldest payload when the queue is full, as
    /// heartbeats want: the freshest report wins.
    pub fn push_drop_oldest(&mut self, payload: Vec<u8>)
        requires
            old(self).wf(),
        ensures
            final(self).wf(),
            final(self).bound == old(self).bound,
            final(self).view_entries() == (if old(self).view_entries().len() < old(self).bound {
                old(self).view_entries()
            } else {
                old(self).view_entries().drop_first()
            }).push(payload@),
    {
        if self.entries.len() >= self.bound {
            self.entries.remove(0);
            proof {
                assert(self.view_entries() =~= old(self).view_entries().drop_first());
            }
        }
        let ghost kept = self.view_entries();
        self.entries.push(payload);
        proof {
            assert(self.view_entries() =~= kept.push(payload@));
        }
    }

    /// Takes the oldest payload; the sender task drains the queue with it.
    pub fn pop_front(&mut self) -> (r: Option<Vec<u8>>)
        requires
            old(self).wf(),
        ensures
            final(self).wf(),
            final(self).bound == old(self).bound,
            old(self).view_entries().len() == 0 <==> r is None,
            r is Some ==> (r->Some_0)@ == old(self).view_entries()[0]
                && final(self).view_entries() == old(self).view_entries().drop_first(),
            r is None ==> *final(self) == *old(self),
    {
        if self.entries.len() == 0 {
            return None;
        }
        let front = self.entries.remove(0);
        proof {
            assert(self.view_entries() =~= old(self).view_entries().drop_first());
        }
        Some(front)
    }
}

} // verus!
