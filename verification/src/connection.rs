use vstd::prelude::*;
use crate::message::NetworkMessage;

verus! {

/// An established session closes after this long without an inbound
/// message.
pub const INACTIVITY_TIMEOUT_MS: u64 = 120000;

/// A keepalive goes out after this long without an outbound message.
pub const KEEPALIVE_INTERVAL_MS: u64 = 60000;

/// What the liveness timers ask for.
#[derive(PartialEq, Eq, Structural, Clone, Copy, Debug)]
pub enum TimerAction {
    /// No inbound traffic for the whole inactivity timeout: close.
    CloseInactive,
    /// Nothing has been sent for a whole keepalive interval: send ImAlive.
    SendKeepalive,
    Nothing,
}

/// Decides what the timers demand at `now`, given when the last inbound
/// message arrived and when the last outbound message went out. The
/// session is closed exactly when the inactivity timeout has fully
/// elapsed, and never before.
pub fn connection_timers(now: u64, last_inbound: u64, last_outbound: u64) -> (r: TimerAction)
    requires
        last_inbound <= now,
        last_outbound <= now,
    ensures
        r == TimerAction::CloseInactive <==> now - last_inbound >= INACTIVITY_TIMEOUT_MS,
        r == TimerAction::SendKeepalive <==> (now - last_inbound < INACTIVITY_TIMEOUT_MS && now
            - last_outbound >= KEEPALIVE_INTERVAL_MS),
        r == TimerAction::Nothing <==> (now - last_inbound < INACTIVITY_TIMEOUT_MS && now
            - last_outbound < KEEPALIVE_INTERVAL_MS),
{
    if now - last_inbound >= INACTIVITY_TIMEOUT_MS {
        TimerAction::CloseInactive
    } else if now - last_outbound >= KEEPALIVE_INTERVAL_MS {
        TimerAction::SendKeepalive
    } else {
        TimerAction::Nothing
    }
}

/// What to do with a message that arrived on an established session.
#[derive(PartialEq, Eq, Structural, Clone, Copy, Debug)]
pub enum UpInboundAction {
    /// A handshake message after the handshake: a protocol violation, the
    /// session closes.
    ProtocolViolation,
    /// Application traffic: hand it to the node.
    ForwardToNode,
    /// A keepalive: nothing to do beyond refreshing the inactivity timer.
    Keepalive,
    /// An empty peer-list query: reply with our connected peers.
    ReplyWithPeers,
    /// A non-empty peer list: record the entries as potential peers.
    TakePotentialPeers,
}

/// Classifies a message received on an established session.
pub fn classify_up_inbound(msg: &NetworkMessage) -> (r: UpInboundAction)
    ensures
        r == UpInboundAction::ProtocolViolation <==> (msg@ is Hello || msg@ is ConnectionAccepted
            || msg@ is ConnectionRejected),
        r == UpInboundAction::Keepalive <==> msg@ is ImAlive,
        r == UpInboundAction::ReplyWithPeers <==> (msg@ matches
            crate::message::MessageView::ListPeers(ps) && ps.len() == 0),
        r == UpInboundAction::TakePotentialPeers <==> (msg@ matches
            crate::message::MessageView::ListPeers(ps) && ps.len() > 0),
        r == UpInboundAction::ForwardToNode <==> (msg@ is NewPeer || msg@ is ListFiles || msg@
            is AskForFile || msg@ is SendMetadata || msg@ is RequestFileChunks || msg@
            is SendFileChunks),
{
    match msg {
        NetworkMessage::Hello(_, _)
        | NetworkMessage::ConnectionAccepted(_)
        | NetworkMessage::ConnectionRejected(_) => UpInboundAction::ProtocolViolation,
        NetworkMessage::ImAlive => UpInboundAction::Keepalive,
        NetworkMessage::ListPeers(ps) => {
            if ps.len() == 0 {
                UpInboundAction::ReplyWithPeers
            } else {
                UpInboundAction::TakePotentialPeers
            }
        },
        NetworkMessage::NewPeer(_, _, _)
        | NetworkMessage::ListFiles(_, _)
        | NetworkMessage::AskForFile(_, _)
        | NetworkMessage::SendMetadata(_, _, _, _)
        | NetworkMessage::RequestFileChunks(_, _, _)
        | NetworkMessage::SendFileChunks(_, _) => UpInboundAction::ForwardToNode,
    }
}

/// Whether a message the node asks the session to send is legitimate
/// outbound traffic; handshake messages and keepalives never come from the
/// node.
pub fn outbound_allowed(msg: &NetworkMessage) -> (r: bool)
    ensures
        r <==> !(msg@ is Hello || msg@ is ConnectionAccepted || msg@ is ConnectionRejected || msg@
            is ImAlive),
{
    match msg {
        NetworkMessage::Hello(_, _)
        | NetworkMessage::ConnectionAccepted(_)
        | NetworkMessage::ConnectionRejected(_)
        | NetworkMessage::ImAlive => false,
        _ => true,
    }
}

} // verus!
