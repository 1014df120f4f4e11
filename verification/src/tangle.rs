//! The in-memory tangle: a DAG of messages keyed by message id, with
//! per-vertex metadata, child edges, solid entry points and the milestone
//! index.
//!
//! The store's invariant carries the structural laws of the tangle: a solid
//! vertex has both parents stored-and-solid or known solid entry points;
//! every stored vertex is registered as a child of both parents; a vertex's
//! oldest referenced milestone index never exceeds its youngest; a milestone
//! vertex carries its own index as both.

use vstd::prelude::*;
use crate::ids::{MessageId, MilestoneIndex};
use crate::message::Message;

verus! {

/// No key occurs twice in the association list.
pub open spec fn unique_keys<K: View, V>(s: Seq<(K, V)>) -> bool {
    forall|i: int, j: int| 0 <= i < j < s.len() ==> (#[trigger] s[i]).0@ != (#[trigger] s[j]).0@
}

/// The finite map an association list denotes.
pub open spec fn pairs_to_map<K: View, V>(s: Seq<(K, V)>) -> Map<K::V, V>
    decreases s.len(),
{
    if s.len() == 0 {
        Map::empty()
    } else {
        pairs_to_map(s.drop_last()).insert(s.last().0@, s.last().1)
    }
}

/// Membership and lookup in the denoted map follow the list.
pub proof fn lemma_pairs_to_map<K: View, V>(s: Seq<(K, V)>)
    ensures
        pairs_to_map(s).dom().finite(),
        forall|k: <K as View>::V|
            pairs_to_map(s).contains_key(k) <==> (exists|i: int|
                0 <= i < s.len() && (#[trigger] s[i]).0@ == k),
        unique_keys(s) ==> forall|i: int|
            0 <= i < s.len() ==> pairs_to_map(s)[(#[trigger] s[i]).0@] == s[i].1,
    decreases s.len(),
{
    if s.len() > 0 {
        lemma_pairs_to_map(s.drop_last());
        assert forall|k: <K as View>::V| pairs_to_map(s).contains_key(k) implies (exists|i: int|
            0 <= i < s.len() && (#[trigger] s[i]).0@ == k) by {
            if s.last().0@ == k {
                assert(s[s.len() - 1].0@ == k);
            } else {
                assert(pairs_to_map(s.drop_last()).contains_key(k));
                let i = choose|i: int| 0 <= i < s.drop_last().len() && (#[trigger] s.drop_last()[i]).0@
                    == k;
                assert(s.drop_last()[i] == s[i]);
                assert(s[i].0@ == k);
            }
        }
        assert forall|k: <K as View>::V|
            (exists|i: int| 0 <= i < s.len() && (#[trigger] s[i]).0@ == k) implies pairs_to_map(
            s,
        ).contains_key(k) by {
            let i = choose|i: int| 0 <= i < s.len() && (#[trigger] s[i]).0@ == k;
            if i < s.len() - 1 {
                assert(s.drop_last()[i] == s[i]);
                assert(s.drop_last()[i].0@ == k);
                assert(pairs_to_map(s.drop_last()).contains_key(k));
            } else {
                assert(s.last().0@ == k);
            }
        }
        if unique_keys(s) {
            assert(unique_keys(s.drop_last()));
            assert forall|i: int| 0 <= i < s.len() implies pairs_to_map(s)[(#[trigger] s[i]).0@]
                == s[i].1 by {
                if i < s.len() - 1 {
                    assert(s[i].0@ != s.last().0@);
                    assert(s.drop_last()[i] == s[i]);
                }
            }
        }
    }
}

/// Appending a fresh pair inserts it into the denoted map.
pub proof fn lemma_pairs_to_map_push<K: View, V>(s: Seq<(K, V)>, k: K, v: V)
    ensures
        pairs_to_map(s.push((k, v))) == pairs_to_map(s).insert(k@, v),
{
    assert(s.push((k, v)).drop_last() =~= s);
    assert(s.push((k, v)).last() == (k, v));
}

/// Replacing the value at one index updates the denoted map at that key.
pub proof fn lemma_pairs_to_map_update<K: View, V>(s: Seq<(K, V)>, i: int, k: K, v: V)
    requires
        unique_keys(s),
        0 <= i < s.len(),
        k@ == s[i].0@,
    ensures
        pairs_to_map(s.update(i, (k, v))) == pairs_to_map(s).insert(s[i].0@, v),
    decreases s.len(),
{
    let s2 = s.update(i, (k, v));
    if i == s.len() - 1 {
        assert(s2.drop_last() =~= s.drop_last());
        assert(pairs_to_map(s2) == pairs_to_map(s.drop_last()).insert(k@, v));
        assert(pairs_to_map(s).insert(s[i].0@, v) == pairs_to_map(s.drop_last()).insert(
            s.last().0@,
            s.last().1,
        ).insert(k@, v));
        assert(pairs_to_map(s.drop_last()).insert(k@, v) =~= pairs_to_map(s.drop_last()).insert(
            s.last().0@,
            s.last().1,
        ).insert(k@, v));
    } else {
        assert(unique_keys(s.drop_last()));
        assert(s.drop_last()[i] == s[i]);
        assert(s2.drop_last() =~= s.drop_last().update(i, (k, v)));
        lemma_pairs_to_map_update(s.drop_last(), i, k, v);
        assert(s2.last() == s.last());
        assert(s[i].0@ != s.last().0@);
        assert(pairs_to_map(s2) == pairs_to_map(s.drop_last()).insert(s[i].0@, v).insert(
            s.last().0@,
            s.last().1,
        ));
        assert(pairs_to_map(s.drop_last()).insert(s[i].0@, v).insert(s.last().0@, s.last().1)
            =~= pairs_to_map(s.drop_last()).insert(s.last().0@, s.last().1).insert(s[i].0@, v));
    }
}


/// Removing the entry at one index removes its key from the denoted map.
pub proof fn lemma_pairs_to_map_remove<K: View, V>(s: Seq<(K, V)>, i: int)
    requires
        unique_keys(s),
        0 <= i < s.len(),
    ensures
        unique_keys(s.remove(i)),
        pairs_to_map(s.remove(i)) == pairs_to_map(s).remove(s[i].0@),
{
    let s2 = s.remove(i);
    lemma_pairs_to_map(s);
    lemma_pairs_to_map(s2);
    assert(unique_keys(s2)) by {
        assert(forall|a: int| 0 <= a < i ==> #[trigger] s2[a] == s[a]);
        assert(forall|a: int| i <= a < s2.len() ==> #[trigger] s2[a] == s[a + 1]);
    }
    assert forall|k: <K as View>::V|
        #[trigger] pairs_to_map(s2).contains_key(k) == pairs_to_map(s).remove(
            s[i].0@,
        ).contains_key(k) && (pairs_to_map(s2).contains_key(k) ==> pairs_to_map(s2)[k]
        == pairs_to_map(s).remove(s[i].0@)[k]) by {
        if pairs_to_map(s2).contains_key(k) {
            let a = choose|a: int| 0 <= a < s2.len() && (#[trigger] s2[a]).0@ == k;
            if a < i {
                assert(s2[a] == s[a]);
                assert(s[a].0@ == k);
                assert(k != s[i].0@);
                assert(pairs_to_map(s)[k] == s[a].1);
                assert(pairs_to_map(s2)[k] == s2[a].1);
            } else {
                assert(s2[a] == s[a + 1]);
                assert(s[a + 1].0@ == k);
                assert(k != s[i].0@);
                assert(pairs_to_map(s)[k] == s[a + 1].1);
                assert(pairs_to_map(s2)[k] == s2[a].1);
            }
        }
        if pairs_to_map(s).remove(s[i].0@).contains_key(k) {
            let a = choose|a: int| 0 <= a < s.len() && (#[trigger] s[a]).0@ == k;
            assert(a != i);
            if a < i {
                assert(s2[a] == s[a]);
                assert(s2[a].0@ == k);
            } else {
                assert(s2[a - 1] == s[a]);
                assert(s2[a - 1].0@ == k);
            }
            assert(pairs_to_map(s2).contains_key(k));
        }
    }
    assert(pairs_to_map(s2) =~= pairs_to_map(s).remove(s[i].0@));
}

/// The status flags of one vertex.
#[derive(Clone, Copy, Debug, PartialEq, Eq, Structural)]
pub struct Flags {
    pub is_requested: bool,
    pub is_solid: bool,
    pub is_valid: bool,
    pub is_milestone: bool,
}

/// Mutable per-vertex bookkeeping.
#[derive(Clone, Copy, Debug, PartialEq, Eq, Structural)]
pub struct MessageMetadata {
    pub arrival_timestamp: u64,
    pub flags: Flags,
    /// Oldest referenced solid milestone index reachable from the vertex.
    pub otrsi: Option<u32>,
    /// Youngest referenced solid milestone index reachable from the vertex.
    pub ytrsi: Option<u32>,
    /// The index of the milestone whose confirmation included the vertex.
    pub cone_root_index: Option<u32>,
}

/// The metadata a vertex starts with when it arrives.
pub open spec fn spec_arrived(arrival_timestamp: u64, requested: bool) -> MessageMetadata {
    MessageMetadata {
        arrival_timestamp,
        flags: Flags { is_requested: requested, is_solid: false, is_valid: false, is_milestone: false },
        otrsi: None,
        ytrsi: None,
        cone_root_index: None,
    }
}

impl MessageMetadata {
    /// The metadata a vertex starts with when it arrives.
    pub fn arrived(arrival_timestamp: u64, requested: bool) -> (r: Self)
        ensures
            r == spec_arrived(arrival_timestamp, requested),
    {
        MessageMetadata {
            arrival_timestamp,
            flags: Flags {
                is_requested: requested,
                is_solid: false,
                is_valid: false,
                is_milestone: false,
            },
            otrsi: None,
            ytrsi: None,
            cone_root_index: None,
        }
    }
}

/// One stored vertex: the immutable message and its metadata.
pub struct TangleVertex {
    pub message: Message,
    pub metadata: MessageMetadata,
}

/// Model of a vertex: the message model and the metadata.
pub struct TangleVertexV {
    pub message: crate::message::MessageV,
    pub metadata: MessageMetadata,
}

impl View for TangleVertex {
    type V = TangleVertexV;

    open spec fn view(&self) -> TangleVertexV {
        TangleVertexV { message: self.message@, metadata: self.metadata }
    }
}

/// The concurrent DAG store.  All structure lives in plain vectors with
/// unique keys; the views below present them as finite maps.
pub struct Tangle {
    pub vertices: Vec<(MessageId, TangleVertex)>,
    pub children: Vec<(MessageId, Vec<MessageId>)>,
    pub solid_entry_points: Vec<(MessageId, u32)>,
    pub milestones: Vec<(MilestoneIndex, MessageId)>,
    pub latest_solid_milestone_index: u32,
    pub latest_milestone_index: u32,
    pub pruning_index: u32,
    /// The indices published as `LatestSolidMilestoneChanged`, in order.
    pub solid_milestone_log: Ghost<Seq<u32>>,
}

impl Tangle {
    /// The stored vertices as a map from id bytes to vertex model.
    pub open spec fn vmap(&self) -> Map<Seq<u8>, TangleVertexV> {
        pairs_to_map(self.vertices@.map_values(|p: (MessageId, TangleVertex)| (p.0, p.1@)))
    }

    /// The child sets as a map from id bytes to the ids of known children.
    pub open spec fn cmap(&self) -> Map<Seq<u8>, Seq<Seq<u8>>> {
        pairs_to_map(
            self.children@.map_values(
                |p: (MessageId, Vec<MessageId>)| (p.0, p.1@.map_values(|c: MessageId| c@)),
            ),
        )
    }

    /// The solid entry points as a map from id bytes to milestone index.
    pub open spec fn sep_map(&self) -> Map<Seq<u8>, u32> {
        pairs_to_map(self.solid_entry_points@)
    }

    /// The milestone index as a map from index to message id bytes.
    pub open spec fn ms_map(&self) -> Map<u32, Seq<u8>> {
        pairs_to_map(self.milestones@.map_values(|p: (MilestoneIndex, MessageId)| (p.0, p.1@)))
    }

    /// A parent reference counts as solid when it is a solid entry point or
    /// a stored, solid vertex.
    pub open spec fn parent_solid(&self, p: Seq<u8>) -> bool {
        self.sep_map().contains_key(p) || (self.vmap().contains_key(p) && self.vmap()[
            p
        ].metadata.flags.is_solid)
    }

    /// The oldest referenced milestone index a solid parent contributes.
    pub open spec fn parent_otrsi(&self, p: Seq<u8>) -> Option<u32> {
        if self.sep_map().contains_key(p) {
            Some(self.sep_map()[p])
        } else if self.vmap().contains_key(p) {
            self.vmap()[p].metadata.otrsi
        } else {
            None
        }
    }

    /// The youngest referenced milestone index a solid parent contributes.
    pub open spec fn parent_ytrsi(&self, p: Seq<u8>) -> Option<u32> {
        if self.sep_map().contains_key(p) {
            Some(self.sep_map()[p])
        } else if self.vmap().contains_key(p) {
            self.vmap()[p].metadata.ytrsi
        } else {
            None
        }
    }

    /// The structural invariant of the store.
    pub open spec fn inv(&self) -> bool {
        // representation: association lists have unique keys
        &&& unique_keys(self.vertices@.map_values(|p: (MessageId, TangleVertex)| (p.0, p.1@)))
        &&& unique_keys(
            self.children@.map_values(
                |p: (MessageId, Vec<MessageId>)| (p.0, p.1@.map_values(|c: MessageId| c@)),
            ),
        )
        &&& unique_keys(self.solid_entry_points@)
        &&& unique_keys(self.milestones@.map_values(|p: (MilestoneIndex, MessageId)| (p.0, p.1@)))
        // a solid vertex has both parents stored-and-solid or solid entry points
        &&& forall|id: Seq<u8>|
            #[trigger] self.vmap().contains_key(id) && self.vmap()[id].metadata.flags.is_solid
                ==> self.parent_solid(self.vmap()[id].message.parent1) && self.parent_solid(
                self.vmap()[id].message.parent2,
            )
        // every stored vertex is a child of both of its parents
        &&& forall|id: Seq<u8>| #[trigger]
            self.vmap().contains_key(id) ==> self.cmap().contains_key(
                self.vmap()[id].message.parent1,
            ) && self.cmap()[self.vmap()[id].message.parent1].contains(id) && self.cmap().contains_key(
                self.vmap()[id].message.parent2,
            ) && self.cmap()[self.vmap()[id].message.parent2].contains(id)
        // a defined pair of referenced milestone indices is ordered
        &&& forall|id: Seq<u8>| #[trigger]
            self.vmap().contains_key(id) ==> match (self.vmap()[id].metadata.otrsi, self.vmap()[
                id
            ].metadata.ytrsi) {
                (Some(o), Some(y)) => o <= y,
                (None, None) => true,
                _ => false,
            }
        // a solid vertex has its referenced milestone indices computed
        &&& forall|id: Seq<u8>| #[trigger]
            self.vmap().contains_key(id) && self.vmap()[id].metadata.flags.is_solid ==> self.vmap()[
                id
            ].metadata.otrsi is Some
        // a milestone-flagged vertex carries one defined index as both
        &&& forall|id: Seq<u8>| #[trigger]
            self.vmap().contains_key(id) && self.vmap()[id].metadata.flags.is_milestone
                ==> self.vmap()[id].metadata.otrsi is Some && self.vmap()[id].metadata.otrsi
                == self.vmap()[id].metadata.ytrsi
        // a registered milestone is stored, flagged, and carries its own
        // index as both referenced milestone indices
        &&& forall|idx: u32| #[trigger]
            self.ms_map().contains_key(idx) ==> self.vmap().contains_key(self.ms_map()[idx])
                && self.vmap()[self.ms_map()[idx]].metadata.flags.is_milestone && self.vmap()[
                self.ms_map()[idx]
            ].metadata.otrsi == Some(idx) && self.vmap()[self.ms_map()[idx]].metadata.ytrsi == Some(
                idx,
            )
        // the published solid-milestone indices increase strictly and never
        // exceed the current latest solid milestone index
        &&& forall|i: int, j: int|
            0 <= i < j < self.solid_milestone_log@.len() ==> self.solid_milestone_log@[i]
                < self.solid_milestone_log@[j]
        &&& forall|i: int|
            0 <= i < self.solid_milestone_log@.len() ==> #[trigger] self.solid_milestone_log@[i]
                <= self.latest_solid_milestone_index
    }

    /// An empty tangle, loaded with the snapshot's latest solid milestone
    /// index.
    pub fn new(snapshot_index: u32) -> (r: Self)
        ensures
            r.inv(),
            r.vmap() == Map::<Seq<u8>, TangleVertexV>::empty(),
            r.sep_map() == Map::<Seq<u8>, u32>::empty(),
            r.ms_map() == Map::<u32, Seq<u8>>::empty(),
            r.latest_solid_milestone_index == snapshot_index,
            r.latest_milestone_index == snapshot_index,
            r.pruning_index == 0,
            r.solid_milestone_log@ == Seq::<u32>::empty(),
    {
        let r = Tangle {
            vertices: Vec::new(),
            children: Vec::new(),
            solid_entry_points: Vec::new(),
            milestones: Vec::new(),
            latest_solid_milestone_index: snapshot_index,
            latest_milestone_index: snapshot_index,
            pruning_index: 0,
            solid_milestone_log: Ghost(Seq::empty()),
        };
        proof {
            assert(r.vertices@.map_values(|p: (MessageId, TangleVertex)| (p.0, p.1@)) =~= Seq::<
                (MessageId, TangleVertexV),
            >::empty());
            assert(r.children@.map_values(
                |p: (MessageId, Vec<MessageId>)| (p.0, p.1@.map_values(|c: MessageId| c@)),
            ) =~= Seq::<(MessageId, Seq<Seq<u8>>)>::empty());
            assert(r.milestones@.map_values(|p: (MilestoneIndex, MessageId)| (p.0, p.1@)) =~= Seq::<
                (MilestoneIndex, Seq<u8>),
            >::empty());
        }
        r
    }

    /// The index of the id's entry in the vertex list, if stored.
    fn find_vertex(&self, id: &MessageId) -> (r: Option<usize>)
        ensures
            match r {
                Some(i) => i < self.vertices@.len() && self.vertices@[i as int].0@ == id@,
                None => forall|i: int|
                    0 <= i < self.vertices@.len() ==> (#[trigger] self.vertices@[i]).0@ != id@,
            },
    {
        let mut i: usize = 0;
        while i < self.vertices.len()
            invariant
                i <= self.vertices@.len(),
                forall|k: int| 0 <= k < i ==> (#[trigger] self.vertices@[k]).0@ != id@,
            decreases self.vertices@.len() - i,
        {
            if self.vertices[i].0 == *id {
                return Some(i);
            }
            i += 1;
        }
        None
    }

    /// Whether a message with this id is stored.
    pub fn contains(&self, id: &MessageId) -> (r: bool)
        ensures
            r == self.vmap().contains_key(id@),
    {
        let r = self.find_vertex(id);
        proof {
            let ms = self.vertices@.map_values(|p: (MessageId, TangleVertex)| (p.0, p.1@));
            lemma_pairs_to_map(ms);
            assert(forall|i: int|
                0 <= i < ms.len() ==> (#[trigger] ms[i]).0 == self.vertices@[i].0 && ms[i].1
                    == self.vertices@[i].1@);
            match r {
                Some(i) => {
                    assert(ms[i as int].0@ == id@);
                    assert(pairs_to_map(ms).contains_key(id@));
                },
                None => {
                    assert(!pairs_to_map(ms).contains_key(id@));
                },
            }
        }
        match r {
            Some(_) => true,
            None => false,
        }
    }

    /// The stored metadata of a vertex.
    pub fn get_metadata(&self, id: &MessageId) -> (r: Option<MessageMetadata>)
        requires
            self.inv(),
        ensures
            match r {
                Some(m) => self.vmap().contains_key(id@) && self.vmap()[id@].metadata == m,
                None => !self.vmap().contains_key(id@),
            },
    {
        let r = self.find_vertex(id);
        proof {
            let ms = self.vertices@.map_values(|p: (MessageId, TangleVertex)| (p.0, p.1@));
            lemma_pairs_to_map(ms);
            assert(forall|i: int|
                0 <= i < ms.len() ==> (#[trigger] ms[i]).0 == self.vertices@[i].0 && ms[i].1
                    == self.vertices@[i].1@);
            match r {
                Some(i) => {
                    assert(ms[i as int].0@ == id@);
                    assert(pairs_to_map(ms).contains_key(id@));
                    assert(pairs_to_map(ms)[id@] == ms[i as int].1);
                },
                None => {
                    assert(!pairs_to_map(ms).contains_key(id@));
                },
            }
        }
        match r {
            Some(i) => Some(self.vertices[i].1.metadata),
            None => None,
        }
    }

    /// A borrow of the stored message.
    pub fn get_message(&self, id: &MessageId) -> (r: Option<&Message>)
        requires
            self.inv(),
        ensures
            match r {
                Some(m) => self.vmap().contains_key(id@) && self.vmap()[id@].message == m@,
                None => !self.vmap().contains_key(id@),
            },
    {
        let r = self.find_vertex(id);
        proof {
            let ms = self.vertices@.map_values(|p: (MessageId, TangleVertex)| (p.0, p.1@));
            lemma_pairs_to_map(ms);
            assert(forall|i: int|
                0 <= i < ms.len() ==> (#[trigger] ms[i]).0 == self.vertices@[i].0 && ms[i].1
                    == self.vertices@[i].1@);
            match r {
                Some(i) => {
                    assert(ms[i as int].0@ == id@);
                    assert(pairs_to_map(ms).contains_key(id@));
                    assert(pairs_to_map(ms)[id@] == ms[i as int].1);
                },
                None => {
                    assert(!pairs_to_map(ms).contains_key(id@));
                },
            }
        }
        match r {
            Some(i) => Some(&self.vertices[i].1.message),
            None => None,
        }
    }

    /// The number of stored vertices.
    pub fn len(&self) -> (r: usize)
        ensures
            r == self.vertices@.len(),
    {
        self.vertices.len()
    }
}


/// Whether an id occurs in a list of ids.
pub(crate) fn id_list_contains(list: &Vec<MessageId>, x: &MessageId) -> (r: bool)
    ensures
        r == list@.map_values(|c: MessageId| c@).contains(x@),
{
    let ghost mapped = list@.map_values(|c: MessageId| c@);
    proof {
        assert(forall|m: int| 0 <= m < list@.len() ==> (#[trigger] mapped[m]) == (list@[m])@);
    }
    let mut k: usize = 0;
    while k < list.len()
        invariant
            k <= list@.len(),
            mapped == list@.map_values(|c: MessageId| c@),
            forall|m: int| 0 <= m < list@.len() ==> (#[trigger] mapped[m]) == (list@[m])@,
            forall|m: int| 0 <= m < k ==> (#[trigger] mapped[m]) != x@,
        decreases list@.len() - k,
    {
        if list[k] == *x {
            proof {
                assert(mapped[k as int] == x@);
            }
            return true;
        }
        k += 1;
    }
    false
}

impl Tangle {
    /// The known children of a reference, empty when none are recorded.
    pub open spec fn child_ids(&self, p: Seq<u8>) -> Seq<Seq<u8>> {
        if self.cmap().contains_key(p) {
            self.cmap()[p]
        } else {
            Seq::empty()
        }
    }

    /// The mapped association list behind `vmap`.
    pub open spec fn vseq(&self) -> Seq<(MessageId, TangleVertexV)> {
        self.vertices@.map_values(|p: (MessageId, TangleVertex)| (p.0, p.1@))
    }

    /// The mapped association list behind `cmap`.
    pub open spec fn cseq(&self) -> Seq<(MessageId, Seq<Seq<u8>>)> {
        self.children@.map_values(
            |p: (MessageId, Vec<MessageId>)| (p.0, p.1@.map_values(|c: MessageId| c@)),
        )
    }

    /// The index of the id's entry in the children list, if present.
    fn find_children(&self, id: &MessageId) -> (r: Option<usize>)
        ensures
            match r {
                Some(i) => i < self.children@.len() && self.children@[i as int].0@ == id@,
                None => forall|i: int|
                    0 <= i < self.children@.len() ==> (#[trigger] self.children@[i]).0@ != id@,
            },
    {
        let mut i: usize = 0;
        while i < self.children.len()
            invariant
                i <= self.children@.len(),
                forall|k: int| 0 <= k < i ==> (#[trigger] self.children@[k]).0@ != id@,
            decreases self.children@.len() - i,
        {
            if self.children[i].0 == *id {
                return Some(i);
            }
            i += 1;
        }
        None
    }

    /// Records `child` as a child of `parent`; a duplicate record changes
    /// nothing.
    fn add_child(&mut self, parent: &MessageId, child: &MessageId)
        requires
            unique_keys(old(self).cseq()),
        ensures
            unique_keys(final(self).cseq()),
            final(self).vertices == old(self).vertices,
            final(self).solid_entry_points == old(self).solid_entry_points,
            final(self).milestones == old(self).milestones,
            final(self).latest_solid_milestone_index == old(self).latest_solid_milestone_index,
            final(self).latest_milestone_index == old(self).latest_milestone_index,
            final(self).pruning_index == old(self).pruning_index,
            final(self).solid_milestone_log == old(self).solid_milestone_log,
            final(self).child_ids(parent@).contains(child@),
            forall|p: Seq<u8>|
                p != parent@ ==> (final(self).cmap().contains_key(p) == old(self).cmap().contains_key(
                    p,
                )) && (old(self).cmap().contains_key(p) ==> final(self).cmap()[p] == old(self).cmap()[
                    p
                ]),
            forall|c: Seq<u8>| #[trigger]
                final(self).child_ids(parent@).contains(c) ==> old(self).child_ids(
                    parent@,
                ).contains(c) || c == child@,
            forall|c: Seq<u8>| #[trigger]
                old(self).child_ids(parent@).contains(c) ==> final(self).child_ids(
                    parent@,
                ).contains(c),
    {
        proof {
            lemma_pairs_to_map(old(self).cseq());
        }
        let found = self.find_children(parent);
        match found {
            Some(i) => {
                proof {
                    assert(self.cseq()[i as int].0 == self.children@[i as int].0);
                    assert(self.cmap().contains_key(parent@));
                    assert(self.cmap()[parent@] == self.cseq()[i as int].1);
                }
                let mut entry = self.children.remove(i);
                let ghost entry0 = entry;
                let present = id_list_contains(&entry.1, child);
                if !present {
                    entry.1.push(*child);
                }
                let ghost newlist = entry.1@.map_values(|c: MessageId| c@);
                self.children.insert(i, entry);
                proof {
                    assert(self.children@ =~= old(self).children@.update(i as int, entry));
                    assert(self.cseq() =~= old(self).cseq().update(
                        i as int,
                        (old(self).children@[i as int].0, newlist),
                    ));
                    lemma_pairs_to_map_update(
                        old(self).cseq(),
                        i as int,
                        old(self).children@[i as int].0,
                        newlist,
                    );
                    lemma_pairs_to_map(self.cseq());
                    let oldlist = old(self).cmap()[parent@];
                    if present {
                        let m = choose|m: int|
                            0 <= m < entry0.1@.len() && (#[trigger] entry0.1@[m])@ == child@;
                        assert(newlist[m] == child@);
                        assert(newlist.contains(child@));
                        assert(newlist =~= oldlist);
                    } else {
                        assert(newlist =~= oldlist.push(child@));
                        assert(newlist[newlist.len() - 1] == child@);
                        assert(newlist.contains(child@));
                        assert(forall|c: Seq<u8>| #[trigger]
                            newlist.contains(c) ==> oldlist.contains(c) || c == child@) by {
                            assert(forall|m: int|
                                0 <= m < newlist.len() - 1 ==> #[trigger] newlist[m] == oldlist[m]);
                        }
                        assert(forall|c: Seq<u8>| #[trigger]
                            oldlist.contains(c) ==> newlist.contains(c)) by {
                            assert(forall|m: int|
                                0 <= m < oldlist.len() ==> #[trigger] oldlist[m] == newlist[m]);
                        }
                    }
                }
            },
            None => {
                let mut list: Vec<MessageId> = Vec::new();
                list.push(*child);
                let ghost newlist = list@.map_values(|c: MessageId| c@);
                self.children.push((*parent, list));
                proof {
                    assert(self.cseq() =~= old(self).cseq().push((*parent, newlist)));
                    lemma_pairs_to_map_push(old(self).cseq(), *parent, newlist);
                    lemma_pairs_to_map(self.cseq());
                    assert(newlist[0] == child@);
                    assert(newlist.contains(child@));
                    assert(!old(self).cmap().contains_key(parent@));
                    assert forall|c: Seq<u8>| #[trigger]
                        final(self).child_ids(parent@).contains(c) implies old(self).child_ids(
                        parent@,
                    ).contains(c) || c == child@ by {
                        let m = choose|m: int|
                            0 <= m < newlist.len() && #[trigger] newlist[m] == c;
                        assert(m == 0);
                    }
                }
            },
        }
    }
}

impl Tangle {
    /// Inserts a message with fresh metadata and registers it as a child of
    /// both parents.  Insertion is idempotent: a second insert of the same
    /// id changes nothing and reports false.
    pub fn insert(&mut self, message: Message, id: MessageId, arrival_timestamp: u64, requested: bool) -> (r: bool)
        requires
            old(self).inv(),
        ensures
            final(self).inv(),
            r == !old(self).vmap().contains_key(id@),
            !r ==> *final(self) == *old(self),
            r ==> final(self).vmap() == old(self).vmap().insert(
                id@,
                TangleVertexV {
                    message: message@,
                    metadata: spec_arrived(arrival_timestamp, requested),
                },
            ),
            r ==> final(self).child_ids(message@.parent1).contains(id@) && final(self).child_ids(
                message@.parent2,
            ).contains(id@),
            forall|p: Seq<u8>, c: Seq<u8>| #[trigger]
                final(self).child_ids(p).contains(c) ==> old(self).child_ids(p).contains(c) || (c
                    == id@ && (p == message@.parent1 || p == message@.parent2)),
            forall|p: Seq<u8>, c: Seq<u8>| #[trigger]
                old(self).child_ids(p).contains(c) ==> final(self).child_ids(p).contains(c),
            final(self).sep_map() == old(self).sep_map(),
            final(self).ms_map() == old(self).ms_map(),
            final(self).latest_solid_milestone_index == old(self).latest_solid_milestone_index,
            final(self).latest_milestone_index == old(self).latest_milestone_index,
            final(self).pruning_index == old(self).pruning_index,
            final(self).solid_milestone_log == old(self).solid_milestone_log,
    {
        let found = self.find_vertex(&id);
        proof {
            lemma_pairs_to_map(self.vseq());
            assert(forall|i: int|
                0 <= i < self.vseq().len() ==> (#[trigger] self.vseq()[i]).0 == self.vertices@[i].0
                    && self.vseq()[i].1 == self.vertices@[i].1@);
        }
        if found.is_some() {
            proof {
                let i = found->Some_0;
                assert(self.vseq()[i as int].0@ == id@);
                assert(self.vmap().contains_key(id@));
            }
            return false;
        }
        proof {
            assert(!self.vmap().contains_key(id@));
        }
        let parent1 = *message.parent1();
        let parent2 = *message.parent2();
        let ghost mid = *self;
        self.add_child(&parent1, &id);
        let ghost mid1 = *self;
        self.add_child(&parent2, &id);
        let ghost mid2 = *self;
        let metadata = MessageMetadata::arrived(arrival_timestamp, requested);
        let vertex = TangleVertex { message, metadata };
        let ghost vv = vertex@;
        self.vertices.push((id, vertex));
        proof {
            let oldt = *old(self);
            let newt = *self;
            // the vertex map gained exactly the new entry
            assert(newt.vseq() =~= oldt.vseq().push((id, vv)));
            lemma_pairs_to_map_push(oldt.vseq(), id, vv);
            assert(newt.vmap() == oldt.vmap().insert(id@, vv));
            assert(unique_keys(newt.vseq())) by {
                assert(forall|j: int|
                    0 <= j < oldt.vseq().len() ==> (#[trigger] oldt.vseq()[j]).0@ != id@);
                assert(forall|j: int|
                    0 <= j < newt.vseq().len() - 1 ==> newt.vseq()[j] == oldt.vseq()[j]);
            }
            // children: both edges present, all old edges kept
            assert(newt.cmap() == mid2.cmap());
            assert(newt.child_ids(parent1@).contains(id@)) by {
                if parent2@ == parent1@ {
                    assert(mid2.child_ids(parent1@).contains(id@));
                } else {
                    assert(mid1.child_ids(parent1@) == mid2.child_ids(parent1@));
                }
            }
            assert(newt.child_ids(parent2@).contains(id@));
            assert forall|p: Seq<u8>, c: Seq<u8>| #[trigger]
                newt.child_ids(p).contains(c) implies oldt.child_ids(p).contains(c) || (c == id@
                && (p == parent1@ || p == parent2@)) by {
                if p == parent2@ {
                    if mid1.child_ids(p).contains(c) {
                        if p == parent1@ {
                        } else {
                            assert(mid.child_ids(p) == mid1.child_ids(p));
                        }
                    }
                } else if p == parent1@ {
                    assert(mid1.child_ids(p) == mid2.child_ids(p));
                } else {
                    assert(mid.child_ids(p) == mid1.child_ids(p));
                    assert(mid1.child_ids(p) == mid2.child_ids(p));
                }
            }
            assert forall|p: Seq<u8>, c: Seq<u8>| #[trigger]
                oldt.child_ids(p).contains(c) implies newt.child_ids(p).contains(c) by {
                if p == parent1@ {
                    if p == parent2@ {
                    } else {
                        assert(mid1.child_ids(p) == mid2.child_ids(p));
                    }
                } else {
                    assert(mid.child_ids(p) == mid1.child_ids(p));
                    if p != parent2@ {
                        assert(mid1.child_ids(p) == mid2.child_ids(p));
                    }
                }
            }
            // solidity of parent references is unchanged for old vertices
            assert forall|p: Seq<u8>| oldt.parent_solid(p) implies newt.parent_solid(p) by {
                if oldt.vmap().contains_key(p) {
                    assert(p != id@);
                    assert(newt.vmap()[p] == oldt.vmap()[p]);
                }
            }
            // the invariant clauses, one by one
            assert forall|x: Seq<u8>|
                #[trigger] newt.vmap().contains_key(x) && newt.vmap()[x].metadata.flags.is_solid
                implies newt.parent_solid(newt.vmap()[x].message.parent1) && newt.parent_solid(
                newt.vmap()[x].message.parent2,
            ) by {
                if x != id@ {
                    assert(oldt.vmap().contains_key(x) && newt.vmap()[x] == oldt.vmap()[x]);
                }
            }
            assert forall|x: Seq<u8>| #[trigger] newt.vmap().contains_key(x) implies newt.cmap().contains_key(
                newt.vmap()[x].message.parent1,
            ) && newt.cmap()[newt.vmap()[x].message.parent1].contains(x) && newt.cmap().contains_key(
                newt.vmap()[x].message.parent2,
            ) && newt.cmap()[newt.vmap()[x].message.parent2].contains(x) by {
                if x == id@ {
                    assert(newt.child_ids(parent1@).contains(id@));
                    assert(newt.child_ids(parent2@).contains(id@));
                    assert(newt.cmap().contains_key(parent1@));
                    assert(newt.cmap().contains_key(parent2@));
                } else {
                    assert(oldt.vmap().contains_key(x) && newt.vmap()[x] == oldt.vmap()[x]);
                    let q1 = oldt.vmap()[x].message.parent1;
                    let q2 = oldt.vmap()[x].message.parent2;
                    assert(oldt.child_ids(q1).contains(x));
                    assert(oldt.child_ids(q2).contains(x));
                    assert(newt.child_ids(q1).contains(x));
                    assert(newt.child_ids(q2).contains(x));
                    assert(newt.cmap().contains_key(q1));
                    assert(newt.cmap().contains_key(q2));
                }
            }
            assert forall|x: Seq<u8>| #[trigger]
                newt.vmap().contains_key(x) && x != id@ implies newt.vmap()[x] == oldt.vmap()[x]
                && oldt.vmap().contains_key(x) by {}
            assert forall|idx: u32| #[trigger] newt.ms_map().contains_key(idx) implies newt.vmap().contains_key(
                newt.ms_map()[idx],
            ) && newt.vmap()[newt.ms_map()[idx]].metadata.flags.is_milestone && newt.vmap()[
                newt.ms_map()[idx]
            ].metadata.otrsi == Some(idx) && newt.vmap()[newt.ms_map()[idx]].metadata.ytrsi == Some(
                idx,
            ) by {
                assert(oldt.ms_map().contains_key(idx));
                let mi = oldt.ms_map()[idx];
                assert(oldt.vmap().contains_key(mi));
                assert(mi != id@);
            }
            assert(newt.inv());
        }
        true
    }
}

/// The smaller of two indices.
pub open spec fn min_u32(a: u32, b: u32) -> u32 {
    if a <= b {
        a
    } else {
        b
    }
}

/// The larger of two indices.
pub open spec fn max_u32(a: u32, b: u32) -> u32 {
    if a <= b {
        b
    } else {
        a
    }
}

impl Tangle {
    /// Replaces the metadata of the vertex at one index of the vertex list.
    fn update_metadata_at(&mut self, i: usize, m: MessageMetadata)
        requires
            unique_keys(old(self).vseq()),
            i < old(self).vertices@.len(),
        ensures
            unique_keys(final(self).vseq()),
            final(self).vertices@.len() == old(self).vertices@.len(),
            final(self).vmap() == old(self).vmap().insert(
                old(self).vertices@[i as int].0@,
                TangleVertexV {
                    message: old(self).vertices@[i as int].1@.message,
                    metadata: m,
                },
            ),
            final(self).children == old(self).children,
            final(self).solid_entry_points == old(self).solid_entry_points,
            final(self).milestones == old(self).milestones,
            final(self).latest_solid_milestone_index == old(self).latest_solid_milestone_index,
            final(self).latest_milestone_index == old(self).latest_milestone_index,
            final(self).pruning_index == old(self).pruning_index,
            final(self).solid_milestone_log == old(self).solid_milestone_log,
    {
        let mut pair = self.vertices.remove(i);
        let key = pair.0;
        pair.1.metadata = m;
        let ghost vv = pair.1@;
        self.vertices.insert(i, pair);
        proof {
            assert(self.vertices@ =~= old(self).vertices@.update(i as int, pair));
            assert(self.vseq() =~= old(self).vseq().update(i as int, (key, vv)));
            lemma_pairs_to_map_update(old(self).vseq(), i as int, key, vv);
            assert(forall|j: int|
                0 <= j < self.vseq().len() ==> (#[trigger] self.vseq()[j]).0@ == old(self).vseq()[
                    j
                ].0@);
        }
    }

    /// The index of the id's entry in the solid entry point list, if any.
    fn find_sep(&self, id: &MessageId) -> (r: Option<usize>)
        ensures
            match r {
                Some(i) => i < self.solid_entry_points@.len()
                    && self.solid_entry_points@[i as int].0@ == id@,
                None => forall|i: int|
                    0 <= i < self.solid_entry_points@.len() ==> (#[trigger] self.solid_entry_points@[
                        i
                    ]).0@ != id@,
            },
    {
        let mut i: usize = 0;
        while i < self.solid_entry_points.len()
            invariant
                i <= self.solid_entry_points@.len(),
                forall|k: int|
                    0 <= k < i ==> (#[trigger] self.solid_entry_points@[k]).0@ != id@,
            decreases self.solid_entry_points@.len() - i,
        {
            if self.solid_entry_points[i].0 == *id {
                return Some(i);
            }
            i += 1;
        }
        None
    }

    /// Whether the id is one of the snapshot's solid entry points.
    pub fn is_solid_entry_point(&self, id: &MessageId) -> (r: bool)
        ensures
            r == self.sep_map().contains_key(id@),
    {
        let r = self.find_sep(id);
        proof {
            lemma_pairs_to_map(self.solid_entry_points@);
        }
        r.is_some()
    }

    /// Registers a solid entry point with its milestone index.
    pub fn add_solid_entry_point(&mut self, id: MessageId, index: u32)
        requires
            old(self).inv(),
            !old(self).sep_map().contains_key(id@),
        ensures
            final(self).inv(),
            final(self).sep_map() == old(self).sep_map().insert(id@, index),
            final(self).vmap() == old(self).vmap(),
            final(self).cmap() == old(self).cmap(),
            final(self).ms_map() == old(self).ms_map(),
            final(self).latest_solid_milestone_index == old(self).latest_solid_milestone_index,
            final(self).latest_milestone_index == old(self).latest_milestone_index,
            final(self).pruning_index == old(self).pruning_index,
            final(self).solid_milestone_log == old(self).solid_milestone_log,
    {
        proof {
            lemma_pairs_to_map(self.solid_entry_points@);
        }
        self.solid_entry_points.push((id, index));
        proof {
            lemma_pairs_to_map_push(old(self).solid_entry_points@, id, index);
            assert(unique_keys(self.solid_entry_points@)) by {
                assert(forall|j: int|
                    0 <= j < old(self).solid_entry_points@.len() ==> (#[trigger] old(
                        self,
                    ).solid_entry_points@[j]).0@ != id@);
                assert(forall|j: int|
                    0 <= j < self.solid_entry_points@.len() - 1 ==> self.solid_entry_points@[j]
                        == old(self).solid_entry_points@[j]);
            }
            let oldt = *old(self);
            let newt = *self;
            assert forall|p: Seq<u8>| oldt.parent_solid(p) implies newt.parent_solid(p) by {}
            assert(newt.inv());
        }
    }

    /// The oldest referenced milestone index a reference contributes: the
    /// entry point's own index, or the stored vertex's value.
    pub fn otrsi(&self, id: &MessageId) -> (r: Option<u32>)
        requires
            self.inv(),
        ensures
            r == self.parent_otrsi(id@),
    {
        let sep = self.find_sep(id);
        proof {
            lemma_pairs_to_map(self.solid_entry_points@);
        }
        match sep {
            Some(i) => Some(self.solid_entry_points[i].1),
            None => match self.get_metadata(id) {
                Some(m) => m.otrsi,
                None => None,
            },
        }
    }

    /// The youngest referenced milestone index a reference contributes.
    pub fn ytrsi(&self, id: &MessageId) -> (r: Option<u32>)
        requires
            self.inv(),
        ensures
            r == self.parent_ytrsi(id@),
    {
        let sep = self.find_sep(id);
        proof {
            lemma_pairs_to_map(self.solid_entry_points@);
        }
        match sep {
            Some(i) => Some(self.solid_entry_points[i].1),
            None => match self.get_metadata(id) {
                Some(m) => m.ytrsi,
                None => None,
            },
        }
    }

    /// Whether the reference counts as solid: a solid entry point or a
    /// stored, solid message.
    pub fn is_solid_message(&self, id: &MessageId) -> (r: bool)
        requires
            self.inv(),
        ensures
            r == self.parent_solid(id@),
    {
        if self.is_solid_entry_point(id) {
            return true;
        }
        match self.get_metadata(id) {
            Some(m) => m.flags.is_solid,
            None => false,
        }
    }
}

impl Tangle {
    /// The metadata the vertex carries after it turns solid: both referenced
    /// milestone indices are computed from the parents, unless the vertex is
    /// a milestone and keeps its own index.
    pub open spec fn solidified_metadata(&self, id: Seq<u8>) -> MessageMetadata {
        let v = self.vmap()[id];
        let p1 = v.message.parent1;
        let p2 = v.message.parent2;
        MessageMetadata {
            arrival_timestamp: v.metadata.arrival_timestamp,
            flags: Flags {
                is_requested: v.metadata.flags.is_requested,
                is_solid: true,
                is_valid: v.metadata.flags.is_valid,
                is_milestone: v.metadata.flags.is_milestone,
            },
            otrsi: if v.metadata.flags.is_milestone {
                v.metadata.otrsi
            } else {
                Some(min_u32(self.parent_otrsi(p1)->Some_0, self.parent_otrsi(p2)->Some_0))
            },
            ytrsi: if v.metadata.flags.is_milestone {
                v.metadata.ytrsi
            } else {
                Some(max_u32(self.parent_ytrsi(p1)->Some_0, self.parent_ytrsi(p2)->Some_0))
            },
            cone_root_index: v.metadata.cone_root_index,
        }
    }

    /// Marks a stored vertex solid once both parents are solid, computing
    /// its referenced milestone indices from the parents.
    pub fn mark_solid(&mut self, id: &MessageId)
        requires
            old(self).inv(),
            old(self).vmap().contains_key(id@),
            !old(self).vmap()[id@].metadata.flags.is_solid,
            old(self).parent_solid(old(self).vmap()[id@].message.parent1),
            old(self).parent_solid(old(self).vmap()[id@].message.parent2),
        ensures
            final(self).inv(),
            final(self).vmap() == old(self).vmap().insert(
                id@,
                TangleVertexV {
                    message: old(self).vmap()[id@].message,
                    metadata: old(self).solidified_metadata(id@),
                },
            ),
            final(self).cmap() == old(self).cmap(),
            final(self).sep_map() == old(self).sep_map(),
            final(self).ms_map() == old(self).ms_map(),
            final(self).latest_solid_milestone_index == old(self).latest_solid_milestone_index,
            final(self).latest_milestone_index == old(self).latest_milestone_index,
            final(self).pruning_index == old(self).pruning_index,
            final(self).solid_milestone_log == old(self).solid_milestone_log,
    {
        let found = self.find_vertex(id);
        proof {
            lemma_pairs_to_map(self.vseq());
            assert(forall|j: int|
                0 <= j < self.vseq().len() ==> (#[trigger] self.vseq()[j]).0 == self.vertices@[j].0
                    && self.vseq()[j].1 == self.vertices@[j].1@);
        }
        let i = match found {
            Some(i) => i,
            None => {
                proof {
                    assert(false);
                }
                return ;
            },
        };
        proof {
            assert(self.vmap()[id@] == self.vseq()[i as int].1);
        }
        let old_meta = self.vertices[i].1.metadata;
        let parent1 = *self.vertices[i].1.message.parent1();
        let parent2 = *self.vertices[i].1.message.parent2();
        let (new_otrsi, new_ytrsi) = if old_meta.flags.is_milestone {
            (old_meta.otrsi, old_meta.ytrsi)
        } else {
            let o1 = match self.otrsi(&parent1) {
                Some(v) => v,
                None => {
                    proof {
                        assert(false);
                    }
                    return ;
                },
            };
            let o2 = match self.otrsi(&parent2) {
                Some(v) => v,
                None => {
                    proof {
                        assert(false);
                    }
                    return ;
                },
            };
            let y1 = match self.ytrsi(&parent1) {
                Some(v) => v,
                None => {
                    proof {
                        assert(false);
                    }
                    return ;
                },
            };
            let y2 = match self.ytrsi(&parent2) {
                Some(v) => v,
                None => {
                    proof {
                        assert(false);
                    }
                    return ;
                },
            };
            (
                Some(if o1 <= o2 { o1 } else { o2 }),
                Some(if y1 <= y2 { y2 } else { y1 }),
            )
        };
        let new_meta = MessageMetadata {
            arrival_timestamp: old_meta.arrival_timestamp,
            flags: Flags {
                is_requested: old_meta.flags.is_requested,
                is_solid: true,
                is_valid: old_meta.flags.is_valid,
                is_milestone: old_meta.flags.is_milestone,
            },
            otrsi: new_otrsi,
            ytrsi: new_ytrsi,
            cone_root_index: old_meta.cone_root_index,
        };
        proof {
            assert(new_meta == old(self).solidified_metadata(id@));
        }
        self.update_metadata_at(i, new_meta);
        proof {
            let oldt = *old(self);
            let newt = *self;
            assert(newt.vmap() == oldt.vmap().insert(
                id@,
                TangleVertexV { message: oldt.vmap()[id@].message, metadata: new_meta },
            ));
            assert forall|p: Seq<u8>| oldt.parent_solid(p) implies newt.parent_solid(p) by {
                if oldt.vmap().contains_key(p) && p != id@ {
                    assert(newt.vmap()[p] == oldt.vmap()[p]);
                }
            }
            // ordered indices for the newly solid vertex
            if !oldt.vmap()[id@].metadata.flags.is_milestone {
                let p1 = oldt.vmap()[id@].message.parent1;
                let p2 = oldt.vmap()[id@].message.parent2;
                assert(oldt.parent_otrsi(p1)->Some_0 <= oldt.parent_ytrsi(p1)->Some_0);
                assert(oldt.parent_otrsi(p2)->Some_0 <= oldt.parent_ytrsi(p2)->Some_0);
            }
            assert forall|x: Seq<u8>|
                #[trigger] newt.vmap().contains_key(x) && newt.vmap()[x].metadata.flags.is_solid
                implies newt.parent_solid(newt.vmap()[x].message.parent1) && newt.parent_solid(
                newt.vmap()[x].message.parent2,
            ) by {
                if x == id@ {
                    assert(newt.vmap()[x].message == oldt.vmap()[id@].message);
                } else {
                    assert(oldt.vmap().contains_key(x) && newt.vmap()[x] == oldt.vmap()[x]);
                }
            }
            assert forall|x: Seq<u8>| #[trigger] newt.vmap().contains_key(x) implies newt.cmap().contains_key(
                newt.vmap()[x].message.parent1,
            ) && newt.cmap()[newt.vmap()[x].message.parent1].contains(x) && newt.cmap().contains_key(
                newt.vmap()[x].message.parent2,
            ) && newt.cmap()[newt.vmap()[x].message.parent2].contains(x) by {
                if x == id@ {
                    assert(newt.vmap()[x].message == oldt.vmap()[id@].message);
                } else {
                    assert(oldt.vmap().contains_key(x) && newt.vmap()[x] == oldt.vmap()[x]);
                }
            }
            assert forall|idx: u32| #[trigger] newt.ms_map().contains_key(idx) implies newt.vmap().contains_key(
                newt.ms_map()[idx],
            ) && newt.vmap()[newt.ms_map()[idx]].metadata.flags.is_milestone && newt.vmap()[
                newt.ms_map()[idx]
            ].metadata.otrsi == Some(idx) && newt.vmap()[newt.ms_map()[idx]].metadata.ytrsi == Some(
                idx,
            ) by {
                let mi = oldt.ms_map()[idx];
                if mi == id@ {
                    assert(oldt.vmap()[id@].metadata.flags.is_milestone);
                } else {
                    assert(newt.vmap()[mi] == oldt.vmap()[mi]);
                }
            }
            assert(newt.inv());
        }
    }

    /// Sets the cone root index of a stored vertex.
    pub fn set_cone_root_index(&mut self, id: &MessageId, index: u32)
        requires
            old(self).inv(),
            old(self).vmap().contains_key(id@),
        ensures
            final(self).inv(),
            final(self).vmap() == old(self).vmap().insert(
                id@,
                TangleVertexV {
                    message: old(self).vmap()[id@].message,
                    metadata: MessageMetadata {
                        cone_root_index: Some(index),
                        ..old(self).vmap()[id@].metadata
                    },
                },
            ),
            final(self).cmap() == old(self).cmap(),
            final(self).sep_map() == old(self).sep_map(),
            final(self).ms_map() == old(self).ms_map(),
            final(self).latest_solid_milestone_index == old(self).latest_solid_milestone_index,
            final(self).latest_milestone_index == old(self).latest_milestone_index,
            final(self).pruning_index == old(self).pruning_index,
            final(self).solid_milestone_log == old(self).solid_milestone_log,
    {
        let found = self.find_vertex(id);
        proof {
            lemma_pairs_to_map(self.vseq());
            assert(forall|j: int|
                0 <= j < self.vseq().len() ==> (#[trigger] self.vseq()[j]).0 == self.vertices@[j].0
                    && self.vseq()[j].1 == self.vertices@[j].1@);
        }
        let i = match found {
            Some(i) => i,
            None => {
                proof {
                    assert(false);
                }
                return ;
            },
        };
        proof {
            assert(self.vmap()[id@] == self.vseq()[i as int].1);
        }
        let old_meta = self.vertices[i].1.metadata;
        let new_meta = MessageMetadata { cone_root_index: Some(index), ..old_meta };
        self.update_metadata_at(i, new_meta);
        proof {
            let oldt = *old(self);
            let newt = *self;
            assert forall|p: Seq<u8>| oldt.parent_solid(p) implies newt.parent_solid(p) by {
                if oldt.vmap().contains_key(p) && p != id@ {
                    assert(newt.vmap()[p] == oldt.vmap()[p]);
                }
            }
            assert forall|x: Seq<u8>|
                #[trigger] newt.vmap().contains_key(x) && newt.vmap()[x].metadata.flags.is_solid
                implies newt.parent_solid(newt.vmap()[x].message.parent1) && newt.parent_solid(
                newt.vmap()[x].message.parent2,
            ) by {
                if x != id@ {
                    assert(oldt.vmap().contains_key(x) && newt.vmap()[x] == oldt.vmap()[x]);
                } else {
                    assert(newt.vmap()[x].message == oldt.vmap()[id@].message);
                }
            }
            assert forall|x: Seq<u8>| #[trigger] newt.vmap().contains_key(x) implies newt.cmap().contains_key(
                newt.vmap()[x].message.parent1,
            ) && newt.cmap()[newt.vmap()[x].message.parent1].contains(x) && newt.cmap().contains_key(
                newt.vmap()[x].message.parent2,
            ) && newt.cmap()[newt.vmap()[x].message.parent2].contains(x) by {
                if x != id@ {
                    assert(oldt.vmap().contains_key(x) && newt.vmap()[x] == oldt.vmap()[x]);
                } else {
                    assert(newt.vmap()[x].message == oldt.vmap()[id@].message);
                }
            }
            assert forall|idx: u32| #[trigger] newt.ms_map().contains_key(idx) implies newt.vmap().contains_key(
                newt.ms_map()[idx],
            ) && newt.vmap()[newt.ms_map()[idx]].metadata.flags.is_milestone && newt.vmap()[
                newt.ms_map()[idx]
            ].metadata.otrsi == Some(idx) && newt.vmap()[newt.ms_map()[idx]].metadata.ytrsi == Some(
                idx,
            ) by {
                let mi = oldt.ms_map()[idx];
                if mi != id@ {
                    assert(newt.vmap()[mi] == oldt.vmap()[mi]);
                }
            }
            assert(newt.inv());
        }
    }
}

impl Tangle {
    /// The index of the entry for a milestone index, if present.
    fn find_milestone(&self, index: u32) -> (r: Option<usize>)
        ensures
            match r {
                Some(i) => i < self.milestones@.len() && self.milestones@[i as int].0@ == index,
                None => forall|i: int|
                    0 <= i < self.milestones@.len() ==> (#[trigger] self.milestones@[i]).0@
                        != index,
            },
    {
        let mut i: usize = 0;
        while i < self.milestones.len()
            invariant
                i <= self.milestones@.len(),
                forall|k: int| 0 <= k < i ==> (#[trigger] self.milestones@[k]).0@ != index,
            decreases self.milestones@.len() - i,
        {
            if self.milestones[i].0.0 == index {
                return Some(i);
            }
            i += 1;
        }
        None
    }

    /// The mapped association list behind `ms_map`.
    pub open spec fn mseq(&self) -> Seq<(MilestoneIndex, Seq<u8>)> {
        self.milestones@.map_values(|p: (MilestoneIndex, MessageId)| (p.0, p.1@))
    }

    /// Whether a milestone with this index is registered.
    pub fn contains_milestone(&self, index: u32) -> (r: bool)
        ensures
            r == self.ms_map().contains_key(index),
    {
        let found = self.find_milestone(index);
        proof {
            lemma_pairs_to_map(self.mseq());
            assert(forall|j: int|
                0 <= j < self.mseq().len() ==> (#[trigger] self.mseq()[j]).0 == self.milestones@[
                    j
                ].0 && self.mseq()[j].1 == (self.milestones@[j].1)@);
            match found {
                Some(i) => {
                    assert(self.mseq()[i as int].0@ == index);
                    assert(self.ms_map().contains_key(index));
                },
                None => {
                    assert(!self.ms_map().contains_key(index));
                },
            }
        }
        found.is_some()
    }

    /// The message id of a registered milestone.
    pub fn get_milestone_message_id(&self, index: u32) -> (r: Option<MessageId>)
        requires
            self.inv(),
        ensures
            match r {
                Some(id) => self.ms_map().contains_key(index) && self.ms_map()[index] == id@,
                None => !self.ms_map().contains_key(index),
            },
    {
        let found = self.find_milestone(index);
        proof {
            lemma_pairs_to_map(self.mseq());
            assert(forall|j: int|
                0 <= j < self.mseq().len() ==> (#[trigger] self.mseq()[j]).0 == self.milestones@[
                    j
                ].0 && self.mseq()[j].1 == (self.milestones@[j].1)@);
        }
        match found {
            Some(i) => {
                proof {
                    assert(self.mseq()[i as int].0@ == index);
                    assert(self.ms_map().contains_key(index));
                    assert(self.ms_map()[index] == self.mseq()[i as int].1);
                }
                Some(self.milestones[i].1)
            },
            None => {
                proof {
                    assert(!self.ms_map().contains_key(index));
                }
                None
            },
        }
    }

    /// Registers a validated milestone: records the index-to-id mapping,
    /// flags the vertex, and pins both of its referenced milestone indices
    /// to the milestone's own index.
    pub fn add_milestone(&mut self, index: u32, id: MessageId)
        requires
            old(self).inv(),
            old(self).vmap().contains_key(id@),
            !old(self).vmap()[id@].metadata.flags.is_milestone,
            !old(self).ms_map().contains_key(index),
        ensures
            final(self).inv(),
            final(self).ms_map() == old(self).ms_map().insert(index, id@),
            final(self).vmap() == old(self).vmap().insert(
                id@,
                TangleVertexV {
                    message: old(self).vmap()[id@].message,
                    metadata: MessageMetadata {
                        flags: Flags {
                            is_milestone: true,
                            ..old(self).vmap()[id@].metadata.flags
                        },
                        otrsi: Some(index),
                        ytrsi: Some(index),
                        ..old(self).vmap()[id@].metadata
                    },
                },
            ),
            final(self).cmap() == old(self).cmap(),
            final(self).sep_map() == old(self).sep_map(),
            final(self).latest_solid_milestone_index == old(self).latest_solid_milestone_index,
            final(self).latest_milestone_index == old(self).latest_milestone_index,
            final(self).pruning_index == old(self).pruning_index,
            final(self).solid_milestone_log == old(self).solid_milestone_log,
    {
        let found = self.find_vertex(&id);
        proof {
            lemma_pairs_to_map(self.vseq());
            assert(forall|j: int|
                0 <= j < self.vseq().len() ==> (#[trigger] self.vseq()[j]).0 == self.vertices@[j].0
                    && self.vseq()[j].1 == self.vertices@[j].1@);
            lemma_pairs_to_map(self.mseq());
            assert(forall|j: int|
                0 <= j < self.mseq().len() ==> (#[trigger] self.mseq()[j]).0 == self.milestones@[
                    j
                ].0 && self.mseq()[j].1 == (self.milestones@[j].1)@);
        }
        let i = match found {
            Some(i) => i,
            None => {
                proof {
                    assert(false);
                }
                return ;
            },
        };
        proof {
            assert(self.vmap()[id@] == self.vseq()[i as int].1);
        }
        let old_meta = self.vertices[i].1.metadata;
        let new_meta = MessageMetadata {
            flags: Flags { is_milestone: true, ..old_meta.flags },
            otrsi: Some(index),
            ytrsi: Some(index),
            ..old_meta
        };
        self.update_metadata_at(i, new_meta);
        let ghost mid = *self;
        self.milestones.push((MilestoneIndex(index), id));
        proof {
            let oldt = *old(self);
            let newt = *self;
            assert(newt.mseq() =~= oldt.mseq().push((MilestoneIndex(index), id@)));
            lemma_pairs_to_map_push(oldt.mseq(), MilestoneIndex(index), id@);
            assert(newt.ms_map() == oldt.ms_map().insert(index, id@));
            assert(unique_keys(newt.mseq())) by {
                assert(forall|j: int|
                    0 <= j < oldt.mseq().len() ==> (#[trigger] oldt.mseq()[j]).0@ != index);
                assert(forall|j: int|
                    0 <= j < newt.mseq().len() - 1 ==> newt.mseq()[j] == oldt.mseq()[j]);
            }
            assert(newt.vmap() == mid.vmap());
            assert forall|p: Seq<u8>| oldt.parent_solid(p) implies newt.parent_solid(p) by {
                if oldt.vmap().contains_key(p) && p != id@ {
                    assert(newt.vmap()[p] == oldt.vmap()[p]);
                }
            }
            assert forall|x: Seq<u8>|
                #[trigger] newt.vmap().contains_key(x) && newt.vmap()[x].metadata.flags.is_solid
                implies newt.parent_solid(newt.vmap()[x].message.parent1) && newt.parent_solid(
                newt.vmap()[x].message.parent2,
            ) by {
                if x != id@ {
                    assert(oldt.vmap().contains_key(x) && newt.vmap()[x] == oldt.vmap()[x]);
                } else {
                    assert(newt.vmap()[x].message == oldt.vmap()[id@].message);
                    if newt.vmap()[x].metadata.flags.is_solid {
                        assert(oldt.vmap()[id@].metadata.flags.is_solid);
                    }
                }
            }
            assert forall|x: Seq<u8>| #[trigger] newt.vmap().contains_key(x) implies newt.cmap().contains_key(
                newt.vmap()[x].message.parent1,
            ) && newt.cmap()[newt.vmap()[x].message.parent1].contains(x) && newt.cmap().contains_key(
                newt.vmap()[x].message.parent2,
            ) && newt.cmap()[newt.vmap()[x].message.parent2].contains(x) by {
                if x != id@ {
                    assert(oldt.vmap().contains_key(x) && newt.vmap()[x] == oldt.vmap()[x]);
                } else {
                    assert(newt.vmap()[x].message == oldt.vmap()[id@].message);
                }
            }
            assert forall|idx: u32| #[trigger] newt.ms_map().contains_key(idx) implies newt.vmap().contains_key(
                newt.ms_map()[idx],
            ) && newt.vmap()[newt.ms_map()[idx]].metadata.flags.is_milestone && newt.vmap()[
                newt.ms_map()[idx]
            ].metadata.otrsi == Some(idx) && newt.vmap()[newt.ms_map()[idx]].metadata.ytrsi == Some(
                idx,
            ) by {
                if idx == index {
                } else {
                    let mi = oldt.ms_map()[idx];
                    assert(oldt.vmap().contains_key(mi));
                    if mi == id@ {
                        assert(oldt.vmap()[id@].metadata.flags.is_milestone);
                        assert(false);
                    } else {
                        assert(newt.vmap()[mi] == oldt.vmap()[mi]);
                    }
                }
            }
            assert(newt.inv());
        }
    }

    /// The latest solid milestone index.
    pub fn get_latest_solid_milestone_index(&self) -> (r: u32)
        ensures
            r == self.latest_solid_milestone_index,
    {
        self.latest_solid_milestone_index
    }

    /// The latest known milestone index.
    pub fn get_latest_milestone_index(&self) -> (r: u32)
        ensures
            r == self.latest_milestone_index,
    {
        self.latest_milestone_index
    }

    /// The pruning index.
    pub fn get_pruning_index(&self) -> (r: u32)
        ensures
            r == self.pruning_index,
    {
        self.pruning_index
    }

    /// Whether the node has caught up: the latest solid milestone is the
    /// latest known one.
    pub fn is_synced(&self) -> (r: bool)
        ensures
            r == (self.latest_solid_milestone_index == self.latest_milestone_index),
    {
        self.latest_solid_milestone_index == self.latest_milestone_index
    }

    /// Publishes a new latest solid milestone index.  The index must be
    /// strictly larger than the current one, so the published sequence
    /// increases strictly.
    pub fn update_latest_solid_milestone_index(&mut self, index: u32)
        requires
            old(self).inv(),
            index > old(self).latest_solid_milestone_index,
        ensures
            final(self).inv(),
            final(self).latest_solid_milestone_index == index,
            final(self).solid_milestone_log@ == old(self).solid_milestone_log@.push(index),
            final(self).vmap() == old(self).vmap(),
            final(self).cmap() == old(self).cmap(),
            final(self).sep_map() == old(self).sep_map(),
            final(self).ms_map() == old(self).ms_map(),
            final(self).latest_milestone_index == old(self).latest_milestone_index,
            final(self).pruning_index == old(self).pruning_index,
    {
        self.latest_solid_milestone_index = index;
        proof {
            self.solid_milestone_log@ = self.solid_milestone_log@.push(index);
        }
    }

    /// Records a newer latest known milestone index.
    pub fn update_latest_milestone_index(&mut self, index: u32)
        requires
            old(self).inv(),
            index >= old(self).latest_milestone_index,
        ensures
            final(self).inv(),
            final(self).latest_milestone_index == index,
            *final(self) == (Tangle { latest_milestone_index: index, ..*old(self) }),
    {
        self.latest_milestone_index = index;
    }

    /// Records a new pruning index.
    pub fn set_pruning_index(&mut self, index: u32)
        requires
            old(self).inv(),
        ensures
            final(self).inv(),
            *final(self) == (Tangle { pruning_index: index, ..*old(self) }),
    {
        self.pruning_index = index;
    }

    /// The ids of the known children of a reference.
    pub fn get_children(&self, id: &MessageId) -> (r: Vec<MessageId>)
        requires
            self.inv(),
        ensures
            r@.map_values(|c: MessageId| c@) == self.child_ids(id@),
    {
        let found = self.find_children(id);
        proof {
            lemma_pairs_to_map(self.cseq());
            assert(forall|j: int|
                0 <= j < self.cseq().len() ==> (#[trigger] self.cseq()[j]).0 == self.children@[j].0
                    && self.cseq()[j].1 == self.children@[j].1@.map_values(|c: MessageId| c@));
        }
        match found {
            Some(i) => {
                proof {
                    assert(self.cseq()[i as int].0@ == id@);
                    assert(self.cmap().contains_key(id@));
                    assert(self.cmap()[id@] == self.cseq()[i as int].1);
                }
                let list = &self.children[i].1;
                let mut out: Vec<MessageId> = Vec::new();
                let mut k: usize = 0;
                while k < list.len()
                    invariant
                        k <= list@.len(),
                        out@ == list@.subrange(0, k as int),
                    decreases list@.len() - k,
                {
                    out.push(list[k]);
                    proof {
                        assert(out@ =~= list@.subrange(0, k + 1));
                    }
                    k += 1;
                }
                proof {
                    assert(out@ =~= list@);
                }
                out
            },
            None => {
                let out: Vec<MessageId> = Vec::new();
                proof {
                    assert(!self.cmap().contains_key(id@));
                    assert(out@.map_values(|c: MessageId| c@) =~= Seq::<Seq<u8>>::empty());
                }
                out
            },
        }
    }
}

// ---------------------------------------------------------------------------
// The tangle's laws, as they follow from the invariant.
// ---------------------------------------------------------------------------
/// Every stored solid vertex has both parents stored-and-solid or solid
/// entry points.
pub proof fn lemma_solid_vertex_has_solid_parents(t: &Tangle, id: Seq<u8>)
    requires
        t.inv(),
        t.vmap().contains_key(id),
        t.vmap()[id].metadata.flags.is_solid,
    ensures
        t.parent_solid(t.vmap()[id].message.parent1),
        t.parent_solid(t.vmap()[id].message.parent2),
{
}

/// Every stored vertex is recorded as a child of both of its parents.
pub proof fn lemma_vertex_in_parents_children(t: &Tangle, id: Seq<u8>)
    requires
        t.inv(),
        t.vmap().contains_key(id),
    ensures
        t.child_ids(t.vmap()[id].message.parent1).contains(id),
        t.child_ids(t.vmap()[id].message.parent2).contains(id),
{
}

/// A vertex's oldest referenced milestone index never exceeds its youngest,
/// and the two are defined together.
pub proof fn lemma_trsi_ordered(t: &Tangle, id: Seq<u8>)
    requires
        t.inv(),
        t.vmap().contains_key(id),
    ensures
        t.vmap()[id].metadata.otrsi is Some <==> t.vmap()[id].metadata.ytrsi is Some,
        t.vmap()[id].metadata.otrsi is Some ==> t.vmap()[id].metadata.otrsi->Some_0 <= t.vmap()[
            id
        ].metadata.ytrsi->Some_0,
{
}

/// A registered milestone vertex carries its own index as both referenced
/// milestone indices.
pub proof fn lemma_milestone_trsi(t: &Tangle, index: u32)
    requires
        t.inv(),
        t.ms_map().contains_key(index),
    ensures
        t.vmap().contains_key(t.ms_map()[index]),
        t.vmap()[t.ms_map()[index]].metadata.otrsi == Some(index),
        t.vmap()[t.ms_map()[index]].metadata.ytrsi == Some(index),
{
}

/// The published sequence of latest-solid-milestone indices increases
/// strictly.
pub proof fn lemma_solid_milestone_events_increase(t: &Tangle)
    requires
        t.inv(),
    ensures
        forall|i: int, j: int|
            0 <= i < j < t.solid_milestone_log@.len() ==> t.solid_milestone_log@[i]
                < t.solid_milestone_log@[j],
{
}
} // verus!
