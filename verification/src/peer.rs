//! Peers and the per-peer session state machine: a session awaits a
//! connection, validates exactly one handshake, then processes packets.

use vstd::prelude::*;
use crate::codec::{Handshake, Packet};

verus! {

/// Largest tolerated clock difference in a handshake, in milliseconds.
pub const MAX_HANDSHAKE_SKEW_MS: u64 = 5000;

/// An opaque peer handle; the transport layer maps its endpoints onto these.
#[derive(Clone, Copy, Debug, PartialEq, Eq, Structural)]
pub struct PeerId(pub u64);

/// Where the connection came from.
#[derive(Clone, Copy, Debug, PartialEq, Eq, Structural)]
pub enum Origin {
    Inbound,
    Outbound,
}

/// Per-peer counters.
#[derive(Clone, Copy, Debug, PartialEq, Eq, Structural, Default)]
pub struct PeerMetrics {
    pub invalid_handshakes: u64,
    pub unexpected_handshakes: u64,
    pub packets_received: u64,
}

/// Adds one, stopping at the largest value instead of wrapping.
pub fn saturating_inc(c: u64) -> (r: u64)
    ensures
        c < u64::MAX ==> r == c + 1,
        c == u64::MAX ==> r == c,
{
    if c < u64::MAX {
        c + 1
    } else {
        c
    }
}

/// A known peer with its advertised sync window.
#[derive(Clone, Copy, Debug, PartialEq, Eq, Structural)]
pub struct Peer {
    pub epid: PeerId,
    pub origin: Origin,
    pub handshaked: bool,
    /// Their advertised latest solid milestone index.
    pub latest_solid_milestone_index: u32,
    /// Their advertised pruning index.
    pub pruning_index: u32,
    /// Their advertised latest known milestone index.
    pub latest_milestone_index: u32,
}

impl Peer {
    /// The peer definitely holds data for the index: the index lies in the
    /// advertised window.
    pub open spec fn spec_has_data(self, index: u32) -> bool {
        self.pruning_index <= index && index <= self.latest_milestone_index
    }

    /// The peer may hold data for the index: it is not pruned away, though
    /// the advertised latest index may be stale.
    pub open spec fn spec_maybe_has_data(self, index: u32) -> bool {
        self.pruning_index <= index
    }

    pub fn has_data(&self, index: u32) -> (r: bool)
        ensures
            r == self.spec_has_data(index),
    {
        self.pruning_index <= index && index <= self.latest_milestone_index
    }

    pub fn maybe_has_data(&self, index: u32) -> (r: bool)
        ensures
            r == self.spec_maybe_has_data(index),
    {
        self.pruning_index <= index
    }
}

/// Why a handshake was rejected.
#[derive(Clone, Copy, Debug, PartialEq, Eq, Structural)]
pub enum HandshakeError {
    /// The advertised port is not the expected one.
    PortMismatch,
    /// The peer's clock differs from ours by more than the tolerance.
    TimestampSkew,
    /// The peer is on another network.
    NetworkIdMismatch,
    /// The peer uses another minimum weight magnitude.
    MwmMismatch,
    /// No protocol version is supported by both sides.
    UnsupportedVersion,
}

/// Two version bitmaps share a set bit.
pub open spec fn versions_compatible(ours: Seq<u8>, theirs: Seq<u8>) -> bool {
    exists|i: int| 0 <= i < ours.len() && i < theirs.len() && (ours[i] & theirs[i]) != 0
}

fn versions_compatible_exec(ours: &[u8], theirs: &[u8]) -> (r: bool)
    ensures
        r == versions_compatible(ours@, theirs@),
{
    let n = if ours.len() <= theirs.len() {
        ours.len()
    } else {
        theirs.len()
    };
    let mut i: usize = 0;
    while i < n
        invariant
            i <= n,
            n <= ours@.len() && n <= theirs@.len(),
            n == ours@.len() || n == theirs@.len(),
            forall|k: int| 0 <= k < i ==> (ours@[k] & theirs@[k]) == 0,
        decreases n - i,
    {
        if ours[i] & theirs[i] != 0 {
            return true;
        }
        i += 1;
    }
    false
}

/// The absolute clock difference between two timestamps.
pub open spec fn skew_of(now_ms: u64, timestamp_ms: u64) -> u64 {
    if now_ms >= timestamp_ms {
        (now_ms - timestamp_ms) as u64
    } else {
        (timestamp_ms - now_ms) as u64
    }
}

/// What a handshake is validated against.
pub struct HandshakeExpectation {
    pub port: u16,
    pub network_id: [u8; 32],
    pub minimum_weight_magnitude: u8,
    pub supported_versions: Vec<u8>,
}

/// The outcome `check_handshake` must deliver: the first failed check, in
/// the order port, timestamp, network id, weight magnitude, version.
pub open spec fn spec_check_handshake(
    hs: crate::codec::PacketV,
    exp: &HandshakeExpectation,
    now_ms: u64,
) -> Result<(), HandshakeError>
    recommends
        hs is Handshake,
{
    match hs {
        crate::codec::PacketV::Handshake {
            port,
            timestamp_ms,
            network_id,
            minimum_weight_magnitude,
            supported_versions,
        } => {
            if port != exp.port {
                Err(HandshakeError::PortMismatch)
            } else if skew_of(now_ms, timestamp_ms) > MAX_HANDSHAKE_SKEW_MS {
                Err(HandshakeError::TimestampSkew)
            } else if network_id != exp.network_id@ {
                Err(HandshakeError::NetworkIdMismatch)
            } else if minimum_weight_magnitude != exp.minimum_weight_magnitude {
                Err(HandshakeError::MwmMismatch)
            } else if !versions_compatible(exp.supported_versions@, supported_versions) {
                Err(HandshakeError::UnsupportedVersion)
            } else {
                Ok(())
            }
        },
        _ => Err(HandshakeError::PortMismatch),
    }
}

/// Validates a received handshake against the local expectation: the port
/// must match, the clocks must agree within `MAX_HANDSHAKE_SKEW_MS`, network
/// id and minimum weight magnitude must be equal, and the version bitmaps
/// must share a bit.
pub fn check_handshake(hs: &Handshake, exp: &HandshakeExpectation, now_ms: u64) -> (r: Result<
    (),
    HandshakeError,
>)
    ensures
        r == spec_check_handshake(
            crate::codec::Packet::Handshake(*hs)@,
            exp,
            now_ms,
        ),
{
    if hs.port != exp.port {
        return Err(HandshakeError::PortMismatch);
    }
    let skew = if now_ms >= hs.timestamp_ms {
        now_ms - hs.timestamp_ms
    } else {
        hs.timestamp_ms - now_ms
    };
    if skew > MAX_HANDSHAKE_SKEW_MS {
        return Err(HandshakeError::TimestampSkew);
    }
    if !crate::ids::bytes32_eq(&hs.network_id, &exp.network_id) {
        return Err(HandshakeError::NetworkIdMismatch);
    }
    if hs.minimum_weight_magnitude != exp.minimum_weight_magnitude {
        return Err(HandshakeError::MwmMismatch);
    }
    if !versions_compatible_exec(exp.supported_versions.as_slice(), hs.supported_versions.as_slice())
    {
        return Err(HandshakeError::UnsupportedVersion);
    }
    Ok(())
}

/// The per-peer session states.
#[derive(Clone, Copy, Debug, PartialEq, Eq, Structural)]
pub enum SessionState {
    AwaitingConnection,
    AwaitingHandshake,
    Ready,
}

/// What the session asks its surroundings to do.
pub enum SessionAction {
    /// Send our own handshake to the peer.
    SendHandshake,
    /// Hand the packet to the proper worker.
    Dispatch(Packet),
    /// Drain and close the peer's outbound queues.
    CloseQueues,
}

/// An event a session reacts to.
pub enum SessionEvent {
    Connected,
    Disconnected,
    PacketReceived(Packet),
}


/// The saturating increment, at spec level.
pub open spec fn saturated_inc(c: u64) -> u64 {
    if c < u64::MAX {
        (c + 1) as u64
    } else {
        c
    }
}

/// The metrics after counting one invalid handshake.
pub open spec fn counted_invalid(m: PeerMetrics) -> PeerMetrics {
    PeerMetrics { invalid_handshakes: saturated_inc(m.invalid_handshakes), ..m }
}

/// The metrics after counting one unexpected handshake.
pub open spec fn counted_unexpected(m: PeerMetrics) -> PeerMetrics {
    PeerMetrics { unexpected_handshakes: saturated_inc(m.unexpected_handshakes), ..m }
}

/// The metrics after counting one dispatched packet.
pub open spec fn counted_packet(m: PeerMetrics) -> PeerMetrics {
    PeerMetrics { packets_received: saturated_inc(m.packets_received), ..m }
}

/// One step of the peer session state machine.
///
/// From `AwaitingConnection`, `Connected` sends our handshake and moves to
/// `AwaitingHandshake`.  There, only a valid handshake moves to `Ready`; an
/// invalid one counts against the peer and the state stays.  In `Ready`,
/// any non-handshake packet is dispatched; an unexpected handshake is
/// counted and ignored.  A disconnect returns to `AwaitingConnection` and,
/// from `Ready`, closes the peer's queues.
pub fn session_step(
    state: SessionState,
    event: SessionEvent,
    metrics: &mut PeerMetrics,
    exp: &HandshakeExpectation,
    now_ms: u64,
) -> (r: (SessionState, Vec<SessionAction>))
    ensures
        ({
            let (new_state, actions) = r;
            let m0 = *old(metrics);
            let m1 = *final(metrics);
            match state {
                SessionState::AwaitingConnection => match event {
                    SessionEvent::Connected => new_state == SessionState::AwaitingHandshake
                        && actions@.len() == 1 && actions@[0] is SendHandshake && m1 == m0,
                    _ => new_state == state && actions@.len() == 0 && m1 == m0,
                },
                SessionState::AwaitingHandshake => match event {
                    SessionEvent::PacketReceived(p) => if p is Handshake {
                        if spec_check_handshake(p@, exp, now_ms) is Ok {
                            new_state == SessionState::Ready && actions@.len() == 0 && m1 == m0
                        } else {
                            new_state == SessionState::AwaitingHandshake && actions@.len() == 0
                                && m1 == counted_invalid(m0)
                        }
                    } else {
                        new_state == SessionState::AwaitingHandshake && actions@.len() == 0 && m1
                            == m0
                    },
                    SessionEvent::Disconnected => new_state == SessionState::AwaitingConnection
                        && actions@.len() == 0 && m1 == m0,
                    _ => new_state == state && actions@.len() == 0 && m1 == m0,
                },
                SessionState::Ready => match event {
                    SessionEvent::PacketReceived(p) => if p is Handshake {
                        new_state == SessionState::Ready && actions@.len() == 0 && m1
                            == counted_unexpected(m0)
                    } else {
                        new_state == SessionState::Ready && actions@.len() == 1 && actions@[0]
                            == SessionAction::Dispatch(p) && m1 == counted_packet(m0)
                    },
                    SessionEvent::Disconnected => new_state == SessionState::AwaitingConnection
                        && actions@.len() == 1 && actions@[0] is CloseQueues && m1 == m0,
                    _ => new_state == state && actions@.len() == 0 && m1 == m0,
                },
            }
        }),
{
    let mut actions: Vec<SessionAction> = Vec::new();
    match state {
        SessionState::AwaitingConnection => match event {
            SessionEvent::Connected => {
                actions.push(SessionAction::SendHandshake);
                (SessionState::AwaitingHandshake, actions)
            },
            _ => (state, actions),
        },
        SessionState::AwaitingHandshake => match event {
            SessionEvent::PacketReceived(p) => match p {
                Packet::Handshake(hs) => {
                    match check_handshake(&hs, exp, now_ms) {
                        Ok(_) => (SessionState::Ready, actions),
                        Err(_) => {
                            metrics.invalid_handshakes = saturating_inc(metrics.invalid_handshakes);
                            (SessionState::AwaitingHandshake, actions)
                        },
                    }
                },
                _ => (SessionState::AwaitingHandshake, actions),
            },
            SessionEvent::Disconnected => (SessionState::AwaitingConnection, actions),
            _ => (state, actions),
        },
        SessionState::Ready => match event {
            SessionEvent::PacketReceived(p) => match p {
                Packet::Handshake(_) => {
                    metrics.unexpected_handshakes = saturating_inc(metrics.unexpected_handshakes);
                    (SessionState::Ready, actions)
                },
                other => {
                    metrics.packets_received = saturating_inc(metrics.packets_received);
                    actions.push(SessionAction::Dispatch(other));
                    (SessionState::Ready, actions)
                },
            },
            SessionEvent::Disconnected => {
                actions.push(SessionAction::CloseQueues);
                (SessionState::AwaitingConnection, actions)
            },
            _ => (state, actions),
        },
    }
}

} // verus!
