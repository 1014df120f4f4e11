//! Core of a tangle (DAG ledger) node: packet codec, message model, in-memory
//! tangle store with per-vertex metadata, peer session state machine, message
//! processor, requesters, milestone solidifier, white-flag confirmation and
//! WURTS tip selection.
//!
//! Everything here is verified; I/O, async plumbing and configuration live in
//! the surrounding application crate.

pub mod bundle;
pub mod cache;
pub mod codec;
pub mod config;
pub mod confirmation;
pub mod digests;
pub mod dto;
pub mod framer;
pub mod heartbeat;
pub mod ids;
pub mod message;
pub mod peer;
pub mod processor;
pub mod propagator;
pub mod requester;
pub mod sender;
pub mod solidifier;
pub mod storage;
pub mod tangle;
pub mod text;
pub mod tips;
pub mod validator;
pub mod vertex;

use vstd::prelude::*;

verus! {

/// Number of bytes in a message, transaction or milestone identifier.
pub const ID_LENGTH: usize = 32;

} // verus!
