//! The pluggable persistence boundary: a backend stores the node's key
//! kinds and offers fetch, insert, delete and existence checks.  The
//! application crate implements it over its store; the core only describes
//! the shape.

use vstd::prelude::*;
use crate::confirmation::Confirmation;
use crate::ids::{MessageId, MilestoneIndex, OutputId};
use crate::message::{Message, SigLockedSingleOutput};

verus! {

/// What a persistent backend must offer for every stored kind: messages by
/// id, child lists by parent id, outputs and spent markers by output id,
/// milestone message ids by index, and one confirmation record per
/// milestone.
pub trait LedgerScope {
    fn fetch_message(&self, key: &MessageId) -> Option<Message>;

    fn insert_message(&mut self, key: &MessageId, value: &Message);

    fn delete_message(&mut self, key: &MessageId);

    fn exist_message(&self, key: &MessageId) -> bool;

    fn fetch_children(&self, key: &MessageId) -> Option<Vec<MessageId>>;

    fn insert_child(&mut self, key: &MessageId, child: &MessageId);

    fn fetch_output(&self, key: &OutputId) -> Option<SigLockedSingleOutput>;

    fn insert_output(&mut self, key: &OutputId, value: &SigLockedSingleOutput);

    fn delete_output(&mut self, key: &OutputId);

    fn exist_spent(&self, key: &OutputId) -> bool;

    fn insert_spent(&mut self, key: &OutputId);

    fn fetch_milestone(&self, key: MilestoneIndex) -> Option<MessageId>;

    fn insert_milestone(&mut self, key: MilestoneIndex, value: &MessageId);

    fn insert_ledger_diff(&mut self, key: MilestoneIndex, value: &Confirmation);
}

} // verus!
