use vstd::prelude::*;
use crate::node_status::Status;
use crate::peer::{peers_contain, PeerAddress};
use crate::MAX_CONNECTIONS_AT_ONCE;

verus! {

/// Each half of the handshake may take at most this long.
pub const HANDSHAKE_HALF_TIMEOUT_MS: u64 = 15000;

/// Where a handshake stands, with the times of its transitions.
#[derive(PartialEq, Eq, Structural, Clone, Copy, Debug)]
pub enum HandshakeState {
    /// Our Hello has been sent.
    SentHello { sent_at: u64 },
    /// The peer's Hello has arrived; we await its accept or reject.
    AwaitingAck { sent_at: u64, hello_at: u64 },
    /// The handshake succeeded.
    Up { sent_at: u64, up_at: u64 },
    /// The handshake failed.
    Dead,
}

/// A handshake state never records more than one half-timeout per step:
/// from our Hello to reaching `Up`, at most two half-timeouts elapse.
pub open spec fn hs_wf(st: HandshakeState) -> bool {
    match st {
        HandshakeState::SentHello { .. } => true,
        HandshakeState::AwaitingAck { sent_at, hello_at } => sent_at <= hello_at <= sent_at
            + HANDSHAKE_HALF_TIMEOUT_MS,
        HandshakeState::Up { sent_at, up_at } => sent_at <= up_at <= sent_at + 2
            * HANDSHAKE_HALF_TIMEOUT_MS,
        HandshakeState::Dead => true,
    }
}

/// Opens a handshake at the moment our Hello goes out.
pub fn handshake_start(now: u64) -> (r: HandshakeState)
    ensures
        hs_wf(r),
        r == (HandshakeState::SentHello { sent_at: now }),
{
    HandshakeState::SentHello { sent_at: now }
}

/// The peer's Hello arrives (or fails to) at `now`. Too late, and the
/// handshake is dead.
pub fn handshake_on_hello(st: HandshakeState, now: u64) -> (r: HandshakeState)
    requires
        hs_wf(st),
        st matches HandshakeState::SentHello { sent_at } && sent_at <= now,
    ensures
        hs_wf(r),
        now <= st->SentHello_sent_at + HANDSHAKE_HALF_TIMEOUT_MS ==> r == (
        HandshakeState::AwaitingAck { sent_at: st->SentHello_sent_at, hello_at: now }),
        now > st->SentHello_sent_at + HANDSHAKE_HALF_TIMEOUT_MS ==> r == HandshakeState::Dead,
{
    match st {
        HandshakeState::SentHello { sent_at } => {
            if now - sent_at <= HANDSHAKE_HALF_TIMEOUT_MS {
                HandshakeState::AwaitingAck { sent_at, hello_at: now }
            } else {
                HandshakeState::Dead
            }
        },
        _ => HandshakeState::Dead,
    }
}

/// The peer's accept or reject arrives (or fails to) at `now`. A timely
/// accept brings the session up; anything else is the end. A session comes
/// up at most two half-timeouts after our Hello went out.
pub fn handshake_on_ack(st: HandshakeState, now: u64, accepted: bool) -> (r: HandshakeState)
    requires
        hs_wf(st),
        st matches HandshakeState::AwaitingAck { sent_at, hello_at } && hello_at <= now,
    ensures
        hs_wf(r),
        r is Up <==> accepted && now <= st->AwaitingAck_hello_at + HANDSHAKE_HALF_TIMEOUT_MS,
        r is Up ==> r->Up_up_at == now && r->Up_sent_at == st->AwaitingAck_sent_at
            && r->Up_up_at <= r->Up_sent_at + 2 * HANDSHAKE_HALF_TIMEOUT_MS,
        !(r is Up) ==> r is Dead,
{
    match st {
        HandshakeState::AwaitingAck { sent_at, hello_at } => {
            if accepted && now - hello_at <= HANDSHAKE_HALF_TIMEOUT_MS {
                HandshakeState::Up { sent_at, up_at: now }
            } else {
                HandshakeState::Dead
            }
        },
        _ => HandshakeState::Dead,
    }
}

/// Between sending our Hello and the session coming up, at most two
/// half-timeouts elapse.
pub proof fn lemma_handshake_duration_bound(st: HandshakeState)
    requires
        hs_wf(st),
        st is Up,
    ensures
        st->Up_up_at - st->Up_sent_at <= 2 * HANDSHAKE_HALF_TIMEOUT_MS,
{
}

/// Whether a freshly admitted peer should be gossiped to the mesh: the
/// remote asked for peers in its Hello, and this node already had at least
/// one connection when the handshake began.
pub fn should_advertise_new_peer(remote_asked_for_peers: bool, had_connections: bool) -> (r: bool)
    ensures
        r == (remote_asked_for_peers && had_connections),
{
    remote_asked_for_peers && had_connections
}

/// What the admission decision came to: whether the peer was accepted, and
/// which connected peer, if any, was evicted to make room.
pub struct AdmissionOutcome {
    pub accepted: bool,
    pub evicted: Option<PeerAddress>,
}

/// Decides whether a peer that completed its Hello may join: a peer
/// already connected is rejected; when the connected set is full, the peer
/// is rejected unless it may displace one existing peer.
pub fn admit_peer(status: &mut Status, peer: PeerAddress, make_room: bool) -> (r: AdmissionOutcome)
    requires
        old(status).wf(),
    ensures
        final(status).wf(),
        peers_contain(old(status).current_connected_peers@, peer) ==> !r.accepted && *final(status) == *old(status) && r.evicted is None,
        !peers_contain(old(status).current_connected_peers@, peer) ==> {
            &&& (old(status).current_connected_peers@.len() < MAX_CONNECTIONS_AT_ONCE
                ==> r.accepted && r.evicted is None)
            &&& (old(status).current_connected_peers@.len() >= MAX_CONNECTIONS_AT_ONCE
                && !make_room ==> !r.accepted && r.evicted is None && *final(status) == *old(status))
            &&& (old(status).current_connected_peers@.len() >= MAX_CONNECTIONS_AT_ONCE && make_room
                ==> ({
                &&& r.accepted
                &&& r.evicted matches Some(v) && peers_contain(
                    old(status).current_connected_peers@,
                    v,
                ) && !peers_contain(final(status).current_connected_peers@, v) && v != peer
            }))
        },
        r.accepted ==> peers_contain(final(status).current_connected_peers@, peer) && final(status).current_connected_peers@.len() <= MAX_CONNECTIONS_AT_ONCE,
        !r.accepted ==> *final(status) == *old(status),
        r.accepted ==> forall|p: PeerAddress|
            p != peer && (r.evicted matches Some(v) ==> p != v) ==> (peers_contain(
                final(status).current_connected_peers@,
                p,
            ) <==> peers_contain(old(status).current_connected_peers@, p)),
{
    if status.is_peer_already_connected(peer) {
        return AdmissionOutcome { accepted: false, evicted: None };
    }
    if status.reached_connections_number_limit() {
        if make_room {
            let victim = status.remove_random_peer();
            status.peer_handshaked_successfully(peer);
            proof {
                assert(victim != peer);
            }
            AdmissionOutcome { accepted: true, evicted: Some(victim) }
        } else {
            AdmissionOutcome { accepted: false, evicted: None }
        }
    } else {
        status.peer_handshaked_successfully(peer);
        AdmissionOutcome { accepted: true, evicted: None }
    }
}

} // verus!
