//! The requesters: outstanding message and milestone requests, round-robin
//! dispatch over the handshaked peers, and timed retries.

use vstd::prelude::*;
use crate::ids::{MessageId, MilestoneIndex};
use crate::peer::{Peer, PeerId};
use crate::tangle::{unique_keys, pairs_to_map, lemma_pairs_to_map, lemma_pairs_to_map_push,
    lemma_pairs_to_map_update};

verus! {

/// How long a dispatched request may stay unanswered before it is retried,
/// in seconds.
pub const RETRY_INTERVAL_SECS: u64 = 5;

/// The outstanding message requests: id to (milestone index hint, instant of
/// the last dispatch).
pub struct RequestedMessages {
    pub entries: Vec<(MessageId, (u32, u64))>,
}

impl View for RequestedMessages {
    type V = Map<Seq<u8>, (u32, u64)>;

    open spec fn view(&self) -> Map<Seq<u8>, (u32, u64)> {
        pairs_to_map(self.entries@)
    }
}

impl RequestedMessages {
    pub open spec fn wf(&self) -> bool {
        unique_keys(self.entries@)
    }

    pub fn new() -> (r: Self)
        ensures
            r.wf(),
            r@ == Map::<Seq<u8>, (u32, u64)>::empty(),
    {
        RequestedMessages { entries: Vec::new() }
    }

    fn find(&self, id: &MessageId) -> (r: Option<usize>)
        ensures
            match r {
                Some(i) => i < self.entries@.len() && self.entries@[i as int].0@ == id@,
                None => forall|i: int|
                    0 <= i < self.entries@.len() ==> (#[trigger] self.entries@[i]).0@ != id@,
            },
    {
        let mut i: usize = 0;
        while i < self.entries.len()
            invariant
                i <= self.entries@.len(),
                forall|k: int| 0 <= k < i ==> (#[trigger] self.entries@[k]).0@ != id@,
            decreases self.entries@.len() - i,
        {
            if self.entries[i].0 == *id {
                return Some(i);
            }
            i += 1;
        }
        None
    }

    /// Whether a request for the id is outstanding.
    pub fn contains_key(&self, id: &MessageId) -> (r: bool)
        ensures
            r == self@.contains_key(id@),
    {
        let found = self.find(id);
        proof {
            lemma_pairs_to_map(self.entries@);
            match found {
                Some(i) => {
                    assert(self@.contains_key(id@));
                },
                None => {
                    assert(!self@.contains_key(id@));
                },
            }
        }
        found.is_some()
    }

    /// Records a dispatched request.
    pub fn insert(&mut self, id: MessageId, index: u32, now: u64)
        requires
            old(self).wf(),
            !old(self)@.contains_key(id@),
        ensures
            final(self).wf(),
            final(self)@ == old(self)@.insert(id@, (index, now)),
    {
        proof {
            lemma_pairs_to_map(self.entries@);
        }
        self.entries.push((id, (index, now)));
        proof {
            lemma_pairs_to_map_push(old(self).entries@, id, (index, now));
            assert(unique_keys(self.entries@)) by {
                assert(forall|j: int|
                    0 <= j < old(self).entries@.len() ==> (#[trigger] old(self).entries@[j]).0@
                        != id@);
                assert(forall|j: int|
                    0 <= j < self.entries@.len() - 1 ==> self.entries@[j] == old(self).entries@[j]);
            }
        }
    }

    /// Drops the entry for an id that arrived.
    pub fn remove(&mut self, id: &MessageId) -> (r: Option<(u32, u64)>)
        requires
            old(self).wf(),
        ensures
            final(self).wf(),
            final(self)@ == old(self)@.remove(id@),
            match r {
                Some(e) => old(self)@.contains_key(id@) && old(self)@[id@] == e,
                None => !old(self)@.contains_key(id@),
            },
    {
        let found = self.find(id);
        proof {
            lemma_pairs_to_map(self.entries@);
        }
        match found {
            Some(i) => {
                let entry = self.entries.remove(i);
                proof {
                    assert(old(self)@.contains_key(id@));
                    assert(old(self)@[id@] == old(self).entries@[i as int].1);
                    assert(unique_keys(self.entries@)) by {
                        assert(forall|a: int, b: int|
                            0 <= a < b < self.entries@.len() ==> exists|a2: int, b2: int|
                                0 <= a2 < b2 < old(self).entries@.len() && old(self).entries@[a2]
                                    == #[trigger] self.entries@[a] && old(self).entries@[b2]
                                    == #[trigger] self.entries@[b]) by {
                            assert(forall|a: int|
                                0 <= a < i ==> #[trigger] self.entries@[a] == old(self).entries@[a]);
                            assert(forall|a: int|
                                i <= a < self.entries@.len() ==> #[trigger] self.entries@[a] == old(
                                    self,
                                ).entries@[a + 1]);
                        }
                    }
                    lemma_pairs_to_map(self.entries@);
                    assert forall|k: Seq<u8>| #[trigger]
                        self@.contains_key(k) == old(self)@.remove(id@).contains_key(k) && (
                        self@.contains_key(k) ==> self@[k] == old(self)@.remove(id@)[k]) by {
                        if self@.contains_key(k) {
                            let a = choose|a: int|
                                0 <= a < self.entries@.len() && (#[trigger] self.entries@[a]).0@
                                    == k;
                            if a < i {
                                assert(old(self).entries@[a].0@ == k);
                                assert(old(self)@[k] == old(self).entries@[a].1);
                                assert(self@[k] == self.entries@[a].1);
                                assert(self.entries@[a] == old(self).entries@[a]);
                                assert(k != id@);
                            } else {
                                assert(self.entries@[a] == old(self).entries@[a + 1]);
                                assert(old(self).entries@[a + 1].0@ == k);
                                assert(old(self)@[k] == old(self).entries@[a + 1].1);
                                assert(self@[k] == self.entries@[a].1);
                                assert(k != id@);
                            }
                        }
                        if old(self)@.remove(id@).contains_key(k) {
                            assert(k != id@);
                            assert(old(self)@.contains_key(k));
                            let a = choose|a: int|
                                0 <= a < old(self).entries@.len() && (#[trigger] old(
                                    self,
                                ).entries@[a]).0@ == k;
                            assert(a != i);
                            if a < i {
                                assert(self.entries@[a].0@ == k);
                            } else {
                                assert(self.entries@[a - 1] == old(self).entries@[a]);
                                assert(self.entries@[a - 1].0@ == k);
                            }
                            assert(self@.contains_key(k));
                        }
                    }
                    assert(self@ =~= old(self)@.remove(id@));
                }
                Some(entry.1)
            },
            None => {
                proof {
                    assert(!old(self)@.contains_key(id@));
                    assert(self@ =~= old(self)@.remove(id@));
                }
                None
            },
        }
    }

    /// The number of outstanding requests.
    pub fn len(&self) -> (r: usize)
        ensures
            r == self.entries@.len(),
    {
        self.entries.len()
    }
}

/// The position `k` steps past `start` on a ring of `len` places.
pub open spec fn circ(len: int, start: int, k: int) -> int {
    if start + k < len {
        start + k
    } else {
        start + k - len
    }
}

/// The first handshaked peer, scanning the peer list circularly from
/// `start + k`, that surely covers the hint; the result is the offset of
/// that peer from `start`.
pub open spec fn scan_has_data(peers: Seq<Peer>, start: int, k: int, hint: u32) -> Option<int>
    decreases peers.len() - k,
{
    if k < 0 || k >= peers.len() {
        None
    } else {
        let p = peers[circ(peers.len() as int, start, k)];
        if p.handshaked && p.spec_has_data(hint) {
            Some(k)
        } else {
            scan_has_data(peers, start, k + 1, hint)
        }
    }
}

/// As `scan_has_data`, with the relaxed window.
pub open spec fn scan_maybe_has_data(peers: Seq<Peer>, start: int, k: int, hint: u32) -> Option<
    int,
>
    decreases peers.len() - k,
{
    if k < 0 || k >= peers.len() {
        None
    } else {
        let p = peers[circ(peers.len() as int, start, k)];
        if p.handshaked && p.spec_maybe_has_data(hint) {
            Some(k)
        } else {
            scan_maybe_has_data(peers, start, k + 1, hint)
        }
    }
}

/// The peer a request for `hint` is dispatched to, starting the round robin
/// at `start`: the first pass accepts only peers whose advertised window
/// surely covers the hint, the second pass relaxes to peers that may cover
/// it.
pub open spec fn spec_pick_peer(peers: Seq<Peer>, start: int, hint: u32) -> Option<int> {
    match scan_has_data(peers, start, 0, hint) {
        Some(k) => Some(circ(peers.len() as int, start, k)),
        None => match scan_maybe_has_data(peers, start, 0, hint) {
            Some(k) => Some(circ(peers.len() as int, start, k)),
            None => None,
        },
    }
}

/// Some handshaked peer may cover the hint.
pub open spec fn peer_available(peers: Seq<Peer>, hint: u32) -> bool {
    exists|i: int|
        0 <= i < peers.len() && (#[trigger] peers[i]).handshaked && peers[i].spec_maybe_has_data(
            hint,
        )
}

proof fn lemma_scan_maybe_none(peers: Seq<Peer>, start: int, k: int, hint: u32)
    requires
        0 <= start < peers.len(),
        0 <= k <= peers.len(),
    ensures
        scan_maybe_has_data(peers, start, k, hint) is None <==> forall|m: int|
            k <= m < peers.len() ==> !((#[trigger] peers[circ(
                peers.len() as int,
                start,
                m,
            )]).handshaked && peers[circ(peers.len() as int, start, m)].spec_maybe_has_data(hint)),
    decreases peers.len() - k,
{
    if k < peers.len() {
        lemma_scan_maybe_none(peers, start, k + 1, hint);
    }
}

/// The two-pass round robin finds a peer exactly when some handshaked peer
/// may cover the hint: the scan walks the whole ring.
pub proof fn lemma_pick_peer_available(peers: Seq<Peer>, start: int, hint: u32)
    requires
        0 <= start < peers.len(),
    ensures
        spec_pick_peer(peers, start, hint) is Some <==> peer_available(peers, hint),
        spec_pick_peer(peers, start, hint) matches Some(i) ==> 0 <= i < peers.len()
            && peers[i].handshaked && peers[i].spec_maybe_has_data(hint),
{
    let len = peers.len() as int;
    lemma_scan_maybe_none(peers, start, 0, hint);
    if spec_pick_peer(peers, start, hint) is None {
        assert forall|i: int|
            0 <= i < len implies !((#[trigger] peers[i]).handshaked
            && peers[i].spec_maybe_has_data(hint)) by {
            let m = if i >= start {
                i - start
            } else {
                i + len - start
            };
            assert(0 <= m < len);
            assert(circ(len, start, m) == i);
        }
    } else {
        match scan_has_data(peers, start, 0, hint) {
            Some(k) => {
                lemma_scan_has_some(peers, start, 0, hint);
            },
            None => {
                lemma_scan_maybe_some(peers, start, 0, hint);
            },
        }
    }
}

proof fn lemma_scan_has_some(peers: Seq<Peer>, start: int, k: int, hint: u32)
    requires
        0 <= start < peers.len(),
        0 <= k <= peers.len(),
    ensures
        scan_has_data(peers, start, k, hint) matches Some(o) ==> k <= o < peers.len() && peers[
            circ(peers.len() as int, start, o)
        ].handshaked && peers[circ(peers.len() as int, start, o)].spec_has_data(hint),
    decreases peers.len() - k,
{
    if k < peers.len() {
        lemma_scan_has_some(peers, start, k + 1, hint);
    }
}

proof fn lemma_scan_maybe_some(peers: Seq<Peer>, start: int, k: int, hint: u32)
    requires
        0 <= start < peers.len(),
        0 <= k <= peers.len(),
    ensures
        scan_maybe_has_data(peers, start, k, hint) matches Some(o) ==> k <= o < peers.len()
            && peers[circ(peers.len() as int, start, o)].handshaked && peers[circ(
            peers.len() as int,
            start,
            o,
        )].spec_maybe_has_data(hint),
    decreases peers.len() - k,
{
    if k < peers.len() {
        lemma_scan_maybe_some(peers, start, k + 1, hint);
    }
}

fn scan_has_data_exec(peers: &Vec<Peer>, start: usize, k: usize, hint: u32) -> (r: Option<usize>)
    requires
        peers@.len() > 0,
        start < peers@.len(),
        k <= peers@.len(),
    ensures
        match r {
            Some(o) => scan_has_data(peers@, start as int, k as int, hint) == Some(o as int)
                && o < peers@.len(),
            None => scan_has_data(peers@, start as int, k as int, hint) is None,
        },
    decreases peers@.len() - k,
{
    if k >= peers.len() {
        return None;
    }
    let idx = if k < peers.len() - start {
        start + k
    } else {
        k - (peers.len() - start)
    };
    let p = &peers[idx];
    if p.handshaked && p.has_data(hint) {
        Some(k)
    } else {
        scan_has_data_exec(peers, start, k + 1, hint)
    }
}

fn scan_maybe_has_data_exec(peers: &Vec<Peer>, start: usize, k: usize, hint: u32) -> (r: Option<
    usize,
>)
    requires
        peers@.len() > 0,
        start < peers@.len(),
        k <= peers@.len(),
    ensures
        match r {
            Some(o) => scan_maybe_has_data(peers@, start as int, k as int, hint) == Some(o as int)
                && o < peers@.len(),
            None => scan_maybe_has_data(peers@, start as int, k as int, hint) is None,
        },
    decreases peers@.len() - k,
{
    if k >= peers.len() {
        return None;
    }
    let idx = if k < peers.len() - start {
        start + k
    } else {
        k - (peers.len() - start)
    };
    let p = &peers[idx];
    if p.handshaked && p.maybe_has_data(hint) {
        Some(k)
    } else {
        scan_maybe_has_data_exec(peers, start, k + 1, hint)
    }
}

/// Picks the peer to dispatch to, advancing the round-robin counter past
/// the chosen peer.
pub fn pick_peer(peers: &Vec<Peer>, counter: &mut usize, hint: u32) -> (r: Option<PeerId>)
    ensures
        peers@.len() == 0 ==> r is None && *final(counter) == *old(counter),
        peers@.len() > 0 ==> match spec_pick_peer(
            peers@,
            (*old(counter) as int) % (peers@.len() as int),
            hint,
        ) {
            Some(i) => r == Some(peers@[i].epid) && (*final(counter) as int) == (i + 1) % (
            peers@.len() as int) && peers@[i].handshaked && peers@[i].spec_maybe_has_data(hint),
            None => r is None && *final(counter) == *old(counter),
        },
        r is Some <==> peers@.len() > 0 && peer_available(peers@, hint),
        r matches Some(pid) ==> exists|p: int|
            0 <= p < peers@.len() && (#[trigger] peers@[p]).handshaked
                && peers@[p].spec_maybe_has_data(hint) && peers@[p].epid == pid,
{
    if peers.len() == 0 {
        return None;
    }
    let start = *counter % peers.len();
    proof {
        lemma_pick_peer_available(peers@, start as int, hint);
    }
    match scan_has_data_exec(peers, start, 0, hint) {
        Some(k) => {
            let idx = if k < peers.len() - start {
                start + k
            } else {
                k - (peers.len() - start)
            };
            proof {
                assert(idx as int == circ(peers@.len() as int, start as int, k as int));
            }
            *counter = (idx + 1) % peers.len();
            Some(peers[idx].epid)
        },
        None => match scan_maybe_has_data_exec(peers, start, 0, hint) {
            Some(k) => {
                let idx = if k < peers.len() - start {
                    start + k
                } else {
                    k - (peers.len() - start)
                };
                proof {
                    assert(idx as int == circ(peers@.len() as int, start as int, k as int));
                }
                *counter = (idx + 1) % peers.len();
                Some(peers[idx].epid)
            },
            None => None,
        },
    }
}

/// What one request must amount to: an id whose request is already
/// outstanding causes no new send and no change; otherwise the round robin
/// picks a peer, and only a successful pick is recorded.
pub open spec fn spec_process_request(
    m: Map<Seq<u8>, (u32, u64)>,
    peers: Seq<Peer>,
    counter: int,
    id: Seq<u8>,
    index_hint: u32,
    now: u64,
) -> (Option<PeerId>, Map<Seq<u8>, (u32, u64)>) {
    if m.contains_key(id) || peers.len() == 0 {
        (None, m)
    } else {
        match spec_pick_peer(peers, counter % (peers.len() as int), index_hint) {
            Some(i) => (Some(peers[i].epid), m.insert(id, (index_hint, now))),
            None => (None, m),
        }
    }
}

/// Handles one request for a message, returning the peer the request was
/// sent to, exactly as `spec_process_request` defines.
pub fn process_request(
    requested: &mut RequestedMessages,
    peers: &Vec<Peer>,
    counter: &mut usize,
    id: MessageId,
    index_hint: u32,
    now: u64,
) -> (sent_to: Option<PeerId>)
    requires
        old(requested).wf(),
    ensures
        final(requested).wf(),
        (sent_to, final(requested)@) == spec_process_request(
            old(requested)@,
            peers@,
            *old(counter) as int,
            id@,
            index_hint,
            now,
        ),
        sent_to is None ==> *final(counter) == *old(counter),
{
    if requested.contains_key(&id) {
        return None;
    }
    match pick_peer(peers, counter, index_hint) {
        Some(pid) => {
            requested.insert(id, index_hint, now);
            Some(pid)
        },
        None => None,
    }
}

/// Request idempotence: when a request for an id was just dispatched and
/// recorded, a second request for the same id — at whatever time and with
/// whatever round-robin position — sends nothing and changes nothing, so
/// two requests within the retry interval make exactly one send.
pub proof fn lemma_request_idempotent(
    m: Map<Seq<u8>, (u32, u64)>,
    peers: Seq<Peer>,
    c1: int,
    c2: int,
    id: Seq<u8>,
    index_hint: u32,
    t1: u64,
    t2: u64,
)
    requires
        spec_process_request(m, peers, c1, id, index_hint, t1).0 is Some,
    ensures
        ({
            let m1 = spec_process_request(m, peers, c1, id, index_hint, t1).1;
            spec_process_request(m1, peers, c2, id, index_hint, t2) == (
                None::<PeerId>,
                m1,
            )
        }),
{
}

/// The outstanding milestone requests: index to instant of last dispatch.
pub struct RequestedMilestones {
    pub entries: Vec<(MilestoneIndex, u64)>,
}

impl View for RequestedMilestones {
    type V = Map<u32, u64>;

    open spec fn view(&self) -> Map<u32, u64> {
        pairs_to_map(self.entries@)
    }
}

impl RequestedMilestones {
    pub open spec fn wf(&self) -> bool {
        unique_keys(self.entries@)
    }

    pub fn new() -> (r: Self)
        ensures
            r.wf(),
            r@ == Map::<u32, u64>::empty(),
    {
        RequestedMilestones { entries: Vec::new() }
    }

    /// Whether a request for the index is outstanding.
    pub fn contains_key(&self, index: u32) -> (r: bool)
        ensures
            r == self@.contains_key(index),
    {
        let mut i: usize = 0;
        proof {
            lemma_pairs_to_map(self.entries@);
        }
        while i < self.entries.len()
            invariant
                i <= self.entries@.len(),
                forall|k: int| 0 <= k < i ==> (#[trigger] self.entries@[k]).0@ != index,
            decreases self.entries@.len() - i,
        {
            if self.entries[i].0.0 == index {
                proof {
                    lemma_pairs_to_map(self.entries@);
                    assert(self.entries@[i as int].0@ == index);
                    assert(self@.contains_key(index));
                }
                return true;
            }
            i += 1;
        }
        proof {
            lemma_pairs_to_map(self.entries@);
            assert(!self@.contains_key(index));
        }
        false
    }

    /// Records a dispatched milestone request.
    pub fn insert(&mut self, index: u32, now: u64)
        requires
            old(self).wf(),
            !old(self)@.contains_key(index),
        ensures
            final(self).wf(),
            final(self)@ == old(self)@.insert(index, now),
    {
        proof {
            lemma_pairs_to_map(self.entries@);
        }
        self.entries.push((MilestoneIndex(index), now));
        proof {
            lemma_pairs_to_map_push(old(self).entries@, MilestoneIndex(index), now);
            assert(unique_keys(self.entries@)) by {
                assert(forall|j: int|
                    0 <= j < old(self).entries@.len() ==> (#[trigger] old(self).entries@[j]).0@
                        != index);
                assert(forall|j: int|
                    0 <= j < self.entries@.len() - 1 ==> self.entries@[j] == old(self).entries@[j]);
            }
        }
    }
}


/// How long a dispatched request may stay unanswered before it is retried,
/// in milliseconds.
pub const RETRY_INTERVAL_MS: u64 = 5000;

/// Whether an entry dispatched at `instant` is due for a retry at `now`.
pub open spec fn retry_due(instant: u64, now: u64) -> bool {
    now > instant && now - instant > RETRY_INTERVAL_MS
}

/// Some entry of the send list names this id.
pub open spec fn sent_has(sent: Seq<(MessageId, PeerId)>, k: Seq<u8>) -> bool {
    exists|j: int| 0 <= j < sent.len() && ((#[trigger] sent[j]).0)@ == k
}

/// The peer is a handshaked member of the list that may cover the hint.
pub open spec fn good_target(peers: Seq<Peer>, hint: u32, pid: PeerId) -> bool {
    exists|p: int|
        0 <= p < peers.len() && (#[trigger] peers[p]).handshaked && peers[p].spec_maybe_has_data(
            hint,
        ) && peers[p].epid == pid
}

/// Clause of the retry loop: every handled entry that was due with a peer
/// available has its instant reset and a send recorded.
pub open spec fn retried_updated(
    oe: Seq<(MessageId, (u32, u64))>,
    cur: Seq<(MessageId, (u32, u64))>,
    sent: Seq<(MessageId, PeerId)>,
    peers: Seq<Peer>,
    now: u64,
    i: int,
) -> bool {
    forall|a: int|
        0 <= a < i && retry_due((#[trigger] oe[a]).1.1, now) && peer_available(peers, oe[a].1.0)
            ==> cur[a].1 == (oe[a].1.0, now) && sent_has(sent, oe[a].0@)
}

/// Clause of the retry loop: every handled entry that was not due, or had
/// no peer available, is untouched and unsent.
pub open spec fn retried_untouched(
    oe: Seq<(MessageId, (u32, u64))>,
    cur: Seq<(MessageId, (u32, u64))>,
    sent: Seq<(MessageId, PeerId)>,
    peers: Seq<Peer>,
    now: u64,
    i: int,
) -> bool {
    forall|a: int|
        0 <= a < i && !(retry_due((#[trigger] oe[a]).1.1, now) && peer_available(
            peers,
            oe[a].1.0,
        )) ==> cur[a] == oe[a] && !sent_has(sent, oe[a].0@)
}

/// Clause of the retry loop: every send names a due handled entry and a
/// handshaked peer that may cover its hint.
pub open spec fn sends_justified(
    oe: Seq<(MessageId, (u32, u64))>,
    sent: Seq<(MessageId, PeerId)>,
    peers: Seq<Peer>,
    now: u64,
    i: int,
) -> bool {
    forall|j: int|
        0 <= j < sent.len() ==> (exists|a: int|
            0 <= a < i && ((#[trigger] sent[j]).0)@ == (oe[a]).0@ && retry_due(oe[a].1.1, now)
                && good_target(peers, oe[a].1.0, sent[j].1))
}

/// Redispatches every outstanding request older than the retry interval:
/// exactly the due entries for whose hint a handshaked peer is available
/// are sent again, each to such a peer, and their dispatch instants reset
/// to `now`; every other entry is untouched, and no entry appears, leaves
/// or changes its hint.
pub fn retry_requests(
    requested: &mut RequestedMessages,
    peers: &Vec<Peer>,
    counter: &mut usize,
    now: u64,
) -> (sent: Vec<(MessageId, PeerId)>)
    requires
        old(requested).wf(),
    ensures
        final(requested).wf(),
        final(requested)@.dom() == old(requested)@.dom(),
        forall|k: Seq<u8>| #[trigger]
            old(requested)@.contains_key(k) && retry_due(old(requested)@[k].1, now)
                && peer_available(peers@, old(requested)@[k].0) ==> final(requested)@[k] == (
            old(requested)@[k].0, now) && sent_has(sent@, k),
        forall|k: Seq<u8>| #[trigger]
            old(requested)@.contains_key(k) && !(retry_due(old(requested)@[k].1, now)
                && peer_available(peers@, old(requested)@[k].0)) ==> final(requested)@[k] == old(
                requested,
            )@[k] && !sent_has(sent@, k),
        forall|j: int|
            0 <= j < sent@.len() ==> old(requested)@.contains_key(((#[trigger] sent@[j]).0)@)
                && retry_due(old(requested)@[(sent@[j].0)@].1, now) && good_target(
                peers@,
                old(requested)@[(sent@[j].0)@].0,
                sent@[j].1,
            ),
        forall|j1: int, j2: int|
            0 <= j1 < j2 < sent@.len() ==> ((#[trigger] sent@[j1]).0)@ != ((
            #[trigger] sent@[j2]).0)@,
{
    let mut sent: Vec<(MessageId, PeerId)> = Vec::new();
    let mut i: usize = 0;
    proof {
        lemma_pairs_to_map(requested.entries@);
    }
    while i < requested.entries.len()
        invariant
            requested.wf(),
            old(requested).wf(),
            i <= requested.entries@.len(),
            requested.entries@.len() == old(requested).entries@.len(),
            forall|a: int|
                0 <= a < requested.entries@.len() ==> (#[trigger] requested.entries@[a]).0 == old(
                    requested,
                ).entries@[a].0,
            forall|a: int|
                i <= a < requested.entries@.len() ==> (#[trigger] requested.entries@[a]) == old(
                    requested,
                ).entries@[a],
            retried_updated(
                old(requested).entries@,
                requested.entries@,
                sent@,
                peers@,
                now,
                i as int,
            ),
            retried_untouched(
                old(requested).entries@,
                requested.entries@,
                sent@,
                peers@,
                now,
                i as int,
            ),
            sends_justified(old(requested).entries@, sent@, peers@, now, i as int),
            forall|j1: int, j2: int|
                0 <= j1 < j2 < sent@.len() ==> ((#[trigger] sent@[j1]).0)@ != ((
                #[trigger] sent@[j2]).0)@,
        decreases requested.entries@.len() - i,
    {
        let entry = requested.entries[i];
        let id = entry.0;
        let hint = entry.1.0;
        let instant = entry.1.1;
        let ghost before = requested.entries@;
        let ghost sent0 = sent@;
        let mut did_send = false;
        if now > instant && now - instant > RETRY_INTERVAL_MS {
            let picked = pick_peer(peers, counter, hint);
            match picked {
                Some(peer) => {
                    let mut pair = requested.entries.remove(i);
                    pair.1.1 = now;
                    requested.entries.insert(i, pair);
                    sent.push((id, peer));
                    did_send = true;
                    proof {
                        assert(requested.entries@ =~= before.update(i as int, pair));
                    }
                },
                None => {
                    proof {
                        assert(old(requested).entries@[i as int].1.0 == hint);
                        assert(!peer_available(peers@, old(requested).entries@[i as int].1.0));
                    }
                },
            }
        } else {
            proof {
                assert(!retry_due(old(requested).entries@[i as int].1.1, now));
            }
        }
        proof {
            let oe = old(requested).entries@;
            assert(retried_updated(oe, before, sent0, peers@, now, i as int));
            assert(retried_untouched(oe, before, sent0, peers@, now, i as int));
            assert(sends_justified(oe, sent0, peers@, now, i as int));
            assert(forall|a: int|
                0 <= a < requested.entries@.len() && a != i ==> (#[trigger] requested.entries@[a])
                    == before[a]);
            if did_send {
                assert(sent@ =~= sent0.push((id, peer_of(sent@))));
                assert((sent@[sent@.len() - 1]).0@ == oe[i as int].0@);
                assert(retry_due(oe[i as int].1.1, now));
                assert(peer_available(peers@, oe[i as int].1.0));
                assert(good_target(peers@, oe[i as int].1.0, sent@[sent@.len() - 1].1));
                assert(requested.entries@[i as int].1 == (oe[i as int].1.0, now));
                assert(sent_has(sent@, oe[i as int].0@)) by {
                    assert((sent@[sent@.len() - 1]).0@ == oe[i as int].0@);
                }
            } else {
                assert(sent@ == sent0);
                assert(requested.entries@ == before);
                assert(!(retry_due(oe[i as int].1.1, now) && peer_available(
                    peers@,
                    oe[i as int].1.0,
                )));
                assert(!sent_has(sent0, oe[i as int].0@)) by {
                    if sent_has(sent0, oe[i as int].0@) {
                        let j = choose|j: int|
                            0 <= j < sent0.len() && ((#[trigger] sent0[j]).0)@ == oe[i as int].0@;
                        let aw = choose|a: int|
                            0 <= a < i && ((#[trigger] sent0[j]).0)@ == (oe[a]).0@ && retry_due(
                                oe[a].1.1,
                                now,
                            ) && good_target(peers@, oe[a].1.0, sent0[j].1);
                        assert(oe[aw].0@ != oe[i as int].0@);
                    }
                }
                assert(requested.entries@[i as int] == oe[i as int]);
            }
            // ids already handled keep their send status
            assert forall|a: int| 0 <= a < i implies (sent_has(sent@, (#[trigger] oe[a]).0@)
                <==> sent_has(sent0, oe[a].0@)) by {
                if sent_has(sent@, oe[a].0@) && !sent_has(sent0, oe[a].0@) {
                    let j = choose|j: int|
                        0 <= j < sent@.len() && ((#[trigger] sent@[j]).0)@ == oe[a].0@;
                    assert(j == sent@.len() - 1 && did_send);
                    assert(oe[a].0@ != oe[i as int].0@);
                }
                if sent_has(sent0, oe[a].0@) {
                    let j = choose|j: int|
                        0 <= j < sent0.len() && ((#[trigger] sent0[j]).0)@ == oe[a].0@;
                    assert(sent@[j] == sent0[j]);
                    assert(sent_has(sent@, oe[a].0@));
                }
            }
            assert(retried_updated(oe, requested.entries@, sent@, peers@, now, i + 1)) by {
                assert forall|a: int|
                    0 <= a < i + 1 && retry_due((#[trigger] oe[a]).1.1, now) && peer_available(
                        peers@,
                        oe[a].1.0,
                    ) implies requested.entries@[a].1 == (oe[a].1.0, now) && sent_has(
                    sent@,
                    oe[a].0@,
                ) by {
                    if a < i {
                        assert(requested.entries@[a] == before[a]);
                        assert(before[a].1 == (oe[a].1.0, now));
                        assert(sent_has(sent0, oe[a].0@));
                        assert(sent_has(sent@, oe[a].0@));
                    } else {
                        assert(did_send);
                    }
                }
            }
            assert(retried_untouched(oe, requested.entries@, sent@, peers@, now, i + 1)) by {
                assert forall|a: int|
                    0 <= a < i + 1 && !(retry_due((#[trigger] oe[a]).1.1, now) && peer_available(
                        peers@,
                        oe[a].1.0,
                    )) implies requested.entries@[a] == oe[a] && !sent_has(sent@, oe[a].0@) by {
                    if a < i {
                        assert(requested.entries@[a] == before[a]);
                        assert(before[a] == oe[a]);
                        assert(!sent_has(sent0, oe[a].0@));
                        assert(!sent_has(sent@, oe[a].0@));
                    } else {
                        assert(!did_send);
                    }
                }
            }
            assert(sends_justified(oe, sent@, peers@, now, i + 1)) by {
                assert forall|j: int|
                    0 <= j < sent@.len() implies (exists|a: int|
                    0 <= a < i + 1 && ((#[trigger] sent@[j]).0)@ == (oe[a]).0@ && retry_due(
                        oe[a].1.1,
                        now,
                    ) && good_target(peers@, oe[a].1.0, sent@[j].1)) by {
                    if did_send && j == sent@.len() - 1 {
                        assert(((sent@[j]).0)@ == (oe[i as int]).0@);
                    } else {
                        assert(sent@[j] == sent0[j]);
                        let aw = choose|a: int|
                            0 <= a < i && ((#[trigger] sent0[j]).0)@ == (oe[a]).0@ && retry_due(
                                oe[a].1.1,
                                now,
                            ) && good_target(peers@, oe[a].1.0, sent0[j].1);
                        assert(((sent@[j]).0)@ == (oe[aw]).0@);
                    }
                }
            }
            assert forall|j1: int, j2: int|
                0 <= j1 < j2 < sent@.len() implies ((#[trigger] sent@[j1]).0)@ != ((
            #[trigger] sent@[j2]).0)@ by {
                if did_send && j2 == sent@.len() - 1 {
                    let aw = choose|a: int|
                        0 <= a < i && ((#[trigger] sent0[j1]).0)@ == (oe[a]).0@ && retry_due(
                            oe[a].1.1,
                            now,
                        ) && good_target(peers@, oe[a].1.0, sent0[j1].1);
                    assert(oe[aw].0@ != oe[i as int].0@);
                    assert((sent@[j1]).0@ == oe[aw].0@);
                    assert((sent@[j2]).0@ == oe[i as int].0@);
                } else {
                    assert(sent@[j1] == sent0[j1] && sent@[j2] == sent0[j2]);
                }
            }
        }
        i += 1;
    }
    proof {
        lemma_pairs_to_map(requested.entries@);
        lemma_pairs_to_map(old(requested).entries@);
        assert forall|k: Seq<u8>| #[trigger]
            final(requested)@.contains_key(k) == old(requested)@.contains_key(k) by {
            if old(requested)@.contains_key(k) {
                let a = choose|a: int|
                    0 <= a < old(requested).entries@.len() && (#[trigger] old(
                        requested,
                    ).entries@[a]).0@ == k;
                assert(requested.entries@[a].0@ == k);
            }
            if final(requested)@.contains_key(k) {
                let a = choose|a: int|
                    0 <= a < requested.entries@.len() && (#[trigger] requested.entries@[a]).0@
                        == k;
                assert(old(requested).entries@[a].0@ == k);
            }
        }
        assert(final(requested)@.dom() =~= old(requested)@.dom());
        assert forall|k: Seq<u8>| #[trigger] old(requested)@.contains_key(k) implies ({
            &&& (retry_due(old(requested)@[k].1, now) && peer_available(peers@, old(requested)@[k].0)
                ==> final(requested)@[k] == (old(requested)@[k].0, now) && sent_has(sent@, k))
            &&& (!(retry_due(old(requested)@[k].1, now) && peer_available(
                peers@,
                old(requested)@[k].0,
            )) ==> final(requested)@[k] == old(requested)@[k] && !sent_has(sent@, k))
        }) by {
            let a = choose|a: int|
                0 <= a < old(requested).entries@.len() && (#[trigger] old(
                    requested,
                ).entries@[a]).0@ == k;
            assert(requested.entries@[a].0@ == k);
            assert(final(requested)@[k] == requested.entries@[a].1);
            assert(old(requested)@[k] == old(requested).entries@[a].1);
        }
        assert forall|j: int|
            0 <= j < sent@.len() implies old(requested)@.contains_key(((#[trigger] sent@[j]).0)@)
            && retry_due(old(requested)@[(sent@[j].0)@].1, now) && good_target(
            peers@,
            old(requested)@[(sent@[j].0)@].0,
            sent@[j].1,
        ) by {
            let a = choose|a: int|
                0 <= a < requested.entries@.len() && ((#[trigger] sent@[j]).0)@ == (old(
                    requested,
                ).entries@[a]).0@ && retry_due(old(requested).entries@[a].1.1, now) && good_target(
                    peers@,
                    old(requested).entries@[a].1.0,
                    sent@[j].1,
                );
            assert(old(requested)@.contains_key((sent@[j].0)@)) by {
                assert((old(requested).entries@[a]).0@ == (sent@[j].0)@);
            }
            assert(old(requested)@[(sent@[j].0)@] == old(requested).entries@[a].1);
        }
    }
    sent
}

/// The second member of the last send; a helper for stating the push.
pub open spec fn peer_of(sent: Seq<(MessageId, PeerId)>) -> PeerId
    recommends
        sent.len() > 0,
{
    sent[sent.len() - 1].1
}

/// Handles one request for a milestone by index: an outstanding index
/// causes no new send; otherwise the round robin picks a peer, and only a
/// successful pick is recorded.
pub fn process_milestone_request(
    requested: &mut RequestedMilestones,
    peers: &Vec<Peer>,
    counter: &mut usize,
    index: u32,
    now: u64,
) -> (sent_to: Option<PeerId>)
    requires
        old(requested).wf(),
    ensures
        final(requested).wf(),
        old(requested)@.contains_key(index) ==> sent_to is None && final(requested)@ == old(requested)@ && *final(counter) == *old(counter),
        !old(requested)@.contains_key(index) ==> {
            if peers@.len() == 0 {
                sent_to is None && final(requested)@ == old(requested)@ && *final(counter) == *old(counter)
            } else {
                match spec_pick_peer(peers@, (*old(counter) as int) % (peers@.len() as int), index) {
                    Some(i) => sent_to == Some(peers@[i].epid) && final(requested)@ == old(requested)@.insert(index, now),
                    None => sent_to is None && final(requested)@ == old(requested)@ && *final(counter) == *old(counter),
                }
            }
        },
{
    if requested.contains_key(index) {
        return None;
    }
    match pick_peer(peers, counter, index) {
        Some(pid) => {
            requested.insert(index, now);
            Some(pid)
        },
        None => None,
    }
}

} // verus!
