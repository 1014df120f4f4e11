//! Heartbeats: the periodic report of this node's sync window.

use vstd::prelude::*;
use crate::codec::{Heartbeat, Packet};
use crate::tangle::Tangle;

verus! {

/// Builds the heartbeat packet describing the node's current window: its
/// latest solid, pruning and latest known milestone indices, and how many
/// peers are connected and synced.
pub fn new_heartbeat(tangle: &Tangle, connected_peers: u8, synced_peers: u8) -> (p: Packet)
    ensures
        p == Packet::Heartbeat(
            Heartbeat {
                latest_solid_milestone_index: tangle.latest_solid_milestone_index,
                pruning_index: tangle.pruning_index,
                latest_milestone_index: tangle.latest_milestone_index,
                connected_peers,
                synced_peers,
            },
        ),
{
    Packet::Heartbeat(
        Heartbeat {
            latest_solid_milestone_index: tangle.get_latest_solid_milestone_index(),
            pruning_index: tangle.get_pruning_index(),
            latest_milestone_index: tangle.get_latest_milestone_index(),
            connected_peers,
            synced_peers,
        },
    )
}

} // verus!
