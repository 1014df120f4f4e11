//! The milestone validator: a message carrying a milestone payload becomes
//! a registered milestone once enough coordinator signatures verified and
//! its index does not fall behind the latest known one.

use vstd::prelude::*;
use crate::ids::MessageId;
use crate::tangle::Tangle;

verus! {

/// Why a milestone payload was not accepted.
#[derive(Clone, Copy, Debug, PartialEq, Eq, Structural)]
pub enum ValidationError {
    /// The message is not stored.
    UnknownMessage,
    /// The message carries no milestone payload.
    NotAMilestone,
    /// Fewer signatures verified than the configured quorum.
    BelowQuorum,
    /// The index falls behind the latest known milestone index.
    IndexBehind,
    /// A milestone with this index is already registered.
    AlreadyRegistered,
    /// The message is already flagged as a milestone.
    AlreadyFlagged,
}

/// The checks `validate_milestone` makes, in order; the first to fail names
/// the error, and success comes exactly when all pass.
pub open spec fn spec_validation(
    t: &Tangle,
    id: Seq<u8>,
    verified_signatures: usize,
    quorum: usize,
) -> Result<u32, ValidationError> {
    if !t.vmap().contains_key(id) {
        Err(ValidationError::UnknownMessage)
    } else if !(t.vmap()[id].message.payload is Some
        && t.vmap()[id].message.payload->Some_0 is Milestone) {
        Err(ValidationError::NotAMilestone)
    } else {
        let index = crate::confirmation::milestone_of(t, id).index;
        if verified_signatures < quorum {
            Err(ValidationError::BelowQuorum)
        } else if index < t.latest_milestone_index {
            Err(ValidationError::IndexBehind)
        } else if t.ms_map().contains_key(index) {
            Err(ValidationError::AlreadyRegistered)
        } else if t.vmap()[id].metadata.flags.is_milestone {
            Err(ValidationError::AlreadyFlagged)
        } else {
            Ok(index)
        }
    }
}

/// Registers a validated milestone.  The outcome is exactly what
/// `spec_validation` defines: the message must be stored and carry a
/// milestone payload; the count of signatures that verified against the
/// coordinator key set must reach the quorum; the index must not fall
/// behind the latest known one nor be registered already.  On success the
/// vertex is flagged, its referenced milestone indices are pinned to its
/// own index, and the latest known milestone index advances; on failure
/// nothing changes.
pub fn validate_milestone(
    tangle: &mut Tangle,
    message_id: &MessageId,
    verified_signatures: usize,
    quorum: usize,
) -> (r: Result<u32, ValidationError>)
    requires
        old(tangle).inv(),
    ensures
        final(tangle).inv(),
        r == spec_validation(old(tangle), message_id@, verified_signatures, quorum),
        match r {
            Ok(index) => {
                &&& final(tangle).ms_map() == old(tangle).ms_map().insert(index, message_id@)
                &&& final(tangle).vmap() == old(tangle).vmap().insert(
                    message_id@,
                    crate::tangle::TangleVertexV {
                        message: old(tangle).vmap()[message_id@].message,
                        metadata: crate::tangle::MessageMetadata {
                            flags: crate::tangle::Flags {
                                is_milestone: true,
                                ..old(tangle).vmap()[message_id@].metadata.flags
                            },
                            otrsi: Some(index),
                            ytrsi: Some(index),
                            ..old(tangle).vmap()[message_id@].metadata
                        },
                    },
                )
                &&& final(tangle).latest_milestone_index == index
                &&& final(tangle).cmap() == old(tangle).cmap()
                &&& final(tangle).sep_map() == old(tangle).sep_map()
                &&& final(tangle).latest_solid_milestone_index == old(
                    tangle,
                ).latest_solid_milestone_index
                &&& final(tangle).pruning_index == old(tangle).pruning_index
                &&& final(tangle).solid_milestone_log == old(tangle).solid_milestone_log
            },
            Err(_) => *final(tangle) == *old(tangle),
        },
{
    let meta = match tangle.get_metadata(message_id) {
        Some(m) => m,
        None => {
            return Err(ValidationError::UnknownMessage);
        },
    };
    let index = match tangle.get_message(message_id) {
        Some(msg) => match &msg.payload {
            Some(crate::message::Payload::Milestone(mp)) => mp.index,
            _ => {
                return Err(ValidationError::NotAMilestone);
            },
        },
        None => {
            proof {
                assert(false);
            }
            return Err(ValidationError::UnknownMessage);
        },
    };
    if verified_signatures < quorum {
        return Err(ValidationError::BelowQuorum);
    }
    if index < tangle.get_latest_milestone_index() {
        return Err(ValidationError::IndexBehind);
    }
    if tangle.contains_milestone(index) {
        return Err(ValidationError::AlreadyRegistered);
    }
    if meta.flags.is_milestone {
        return Err(ValidationError::AlreadyFlagged);
    }
    tangle.add_milestone(index, *message_id);
    tangle.update_latest_milestone_index(index);
    Ok(index)
}

} // verus!
