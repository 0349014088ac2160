use vstd::prelude::*;
use crate::message::{NetworkMessage, NodeMessage, StorageMessage};
use crate::node_status::Status;
use crate::peer::{peers_contain, peers_find, peers_insert, peers_unique, PeerAddress};

verus! {

/// What the node does with a message one of its sessions handed up.
pub enum RouteOutcome {
    /// Application traffic, translated for the storage manager.
    ToStorage(NodeMessage),
    /// Gossip of a new peer was handled: forward the updated message to
    /// each listed connected peer.
    Gossip(Vec<(PeerAddress, NetworkMessage)>),
    /// A message no session should ever hand up.
    Invalid,
}

/// Copies a peer vector.
pub fn clone_peers(v: &Vec<PeerAddress>) -> (r: Vec<PeerAddress>)
    ensures
        r@ == v@,
{
    let mut r: Vec<PeerAddress> = Vec::new();
    let mut i: usize = 0;
    while i < v.len()
        invariant
            0 <= i <= v@.len(),
            r@ == v@.take(i as int),
        decreases v@.len() - i,
    {
        r.push(v[i]);
        proof {
            assert(v@.take(i + 1) =~= v@.take(i as int).push(v@[i as int]));
        }
        i = i + 1;
    }
    proof {
        assert(v@.take(v@.len() as int) =~= v@);
    }
    r
}

/// The peers a piece of gossip still has to reach: the connected peers
/// that the informed list does not yet name, in table order.
pub open spec fn gossip_targets(
    connected: Seq<PeerAddress>,
    informed: Seq<PeerAddress>,
) -> Seq<PeerAddress>
    decreases connected.len(),
{
    if connected.len() == 0 {
        Seq::<PeerAddress>::empty()
    } else if !peers_contain(informed, connected[0]) {
        seq![connected[0]] + gossip_targets(connected.drop_first(), informed)
    } else {
        gossip_targets(connected.drop_first(), informed)
    }
}

/// Routes a message received from one of the node's sessions: gossip is
/// handled here, application traffic is translated for the storage
/// manager, and handshake or keepalive messages are never expected.
pub fn route_connection_message(status: &mut Status, msg: NetworkMessage) -> (r: RouteOutcome)
    requires
        old(status).wf(),
    ensures
        final(status).wf(),
        final(status).current_connected_peers == old(status).current_connected_peers,
        final(status).peers_during_handshake == old(status).peers_during_handshake,
        final(status).node_address == old(status).node_address,
        r is Invalid <==> (msg@ is Hello || msg@ is ConnectionAccepted || msg@
            is ConnectionRejected || msg@ is ImAlive || msg@ is ListPeers),
        msg@ is NewPeer ==> r is Gossip,
        r matches RouteOutcome::Gossip(sends) ==> forall|k: int|
            0 <= k < sends@.len() ==> peers_contain(
                old(status).current_connected_peers@,
                (#[trigger] sends@[k]).0,
            ),
        !(msg@ is NewPeer) ==> final(status).potential_peers == old(status).potential_peers,
        // gossip reaches exactly the connected peers the message has not
        // yet informed, each carrying the extended informed list, and the
        // newcomer is remembered iff it did not try us and is not connected
        msg@ matches crate::message::MessageView::NewPeer(new, tried, informed) ==> (
        r matches RouteOutcome::Gossip(sends) && {
            let targets = gossip_targets(old(status).current_connected_peers@, informed);
            &&& sends@.len() == targets.len()
            &&& forall|k: int|
                0 <= k < sends@.len() ==> (#[trigger] sends@[k]).0 == targets[k]
            &&& forall|k: int|
                0 <= k < sends@.len() ==> ((#[trigger] sends@[k]).1@ matches
                    crate::message::MessageView::NewPeer(n2, t2, i2) && n2 == new && t2 == tried
                    && i2 == informed + targets)
            &&& forall|p: PeerAddress|
                peers_contain(final(status).potential_peers@, p) <==> (peers_contain(
                    old(status).potential_peers@,
                    p,
                ) || (p == new && !peers_contain(tried, old(status).node_address)
                    && !peers_contain(old(status).current_connected_peers@, new)))
        }),
        // application traffic is translated one-to-one for the storage side
        msg@ matches crate::message::MessageView::ListFiles(p, files) ==> (match files {
            Some(fsv) => (r matches RouteOutcome::ToStorage(nm) && nm matches
                NodeMessage::FilesAvailable(p2, fs2) && p2 == p && crate::message::strings_view(
                fs2@,
            ) == fsv),
            None => (r matches RouteOutcome::ToStorage(nm) && nm matches NodeMessage::ListFiles(
                p2,
            ) && p2 == p),
        }),
        msg@ matches crate::message::MessageView::AskForFile(name, p) ==> (
        r matches RouteOutcome::ToStorage(nm) && nm matches NodeMessage::AskForFile(n2, p2)
            && n2@ == name && p2 == p),
        msg@ matches crate::message::MessageView::SendMetadata(name, p, size, dmv) ==> (
        r matches RouteOutcome::ToStorage(nm) && nm matches NodeMessage::ReceivedMetadata(
            n2,
            p2,
            s2,
            dm2,
        ) && n2@ == name && p2 == p && s2 == size && dm2@ == dmv),
        msg@ matches crate::message::MessageView::RequestFileChunks(p, name, reqs) ==> (
        r matches RouteOutcome::ToStorage(nm) && nm matches NodeMessage::RequestFileChunks(
            p2,
            n2,
            reqs2,
        ) && p2 == p && n2@ == name && reqs2@ == reqs),
        msg@ matches crate::message::MessageView::SendFileChunks(name, datas) ==> (
        r matches RouteOutcome::ToStorage(nm) && nm matches NodeMessage::ReceivedFileChunks(
            n2,
            datas2,
        ) && n2@ == name && crate::message::chunk_datas_view(datas2@) == datas),
{
    match msg {
        NetworkMessage::Hello(_, _)
        | NetworkMessage::ConnectionAccepted(_)
        | NetworkMessage::ConnectionRejected(_)
        | NetworkMessage::ImAlive
        | NetworkMessage::ListPeers(_) => RouteOutcome::Invalid,
        NetworkMessage::NewPeer(new_peer, tried, informed) => {
            let ghost informed0 = informed@;
            let ghost tried0 = tried@;
            let mut informed = informed;
            let mut sends: Vec<(PeerAddress, NetworkMessage)> = Vec::new();
            let mut peers_to_send: Vec<PeerAddress> = Vec::new();
            let connected = status.get_current_connected_peers();
            let ghost conn0 = connected@;
            let ghost targets = gossip_targets(conn0, informed0);
            let mut i: usize = 0;
            proof {
                assert(conn0.skip(0) =~= conn0);
                assert(peers_to_send@ + gossip_targets(conn0.skip(0), informed0) =~= targets);
            }
            while i < connected.len()
                invariant
                    0 <= i <= connected@.len(),
                    connected@ == status.current_connected_peers@,
                    conn0 == connected@,
                    targets == gossip_targets(conn0, informed0),
                    peers_unique(conn0),
                    informed@ == informed0 + peers_to_send@,
                    targets == peers_to_send@ + gossip_targets(conn0.skip(i as int), informed0),
                    forall|k: int|
                        0 <= k < peers_to_send@.len() ==> exists|j: int|
                            0 <= j < i && #[trigger] peers_to_send@[k] == conn0[j],
                decreases connected@.len() - i,
            {
                let ghost pts_entry = peers_to_send@;
                proof {
                    assert(conn0.skip(i as int)[0] == conn0[i as int]);
                    assert(conn0.skip(i as int).drop_first() =~= conn0.skip(i + 1));
                }
                let addr = connected[i];
                let in_informed = peers_find(&informed, addr);
                proof {
                    // membership in the growing list equals membership in
                    // the original: the appended entries are earlier
                    // connected peers, all distinct from this one
                    if in_informed && !peers_contain(informed0, addr) {
                        let k = choose|k: int|
                            0 <= k < informed@.len() && informed@[k] == addr;
                        assert(informed@[k] == pts_entry[k - informed0.len()]);
                        let j = choose|j: int|
                            0 <= j < i && #[trigger] pts_entry[k - informed0.len()] == conn0[j];
                    }
                    if !in_informed && peers_contain(informed0, addr) {
                        let k = choose|k: int|
                            0 <= k < informed0.len() && informed0[k] == addr;
                        assert(informed@[k] == addr);
                    }
                    assert(in_informed == peers_contain(informed0, addr));
                }
                if !in_informed {
                    proof {
                        assert(peers_contain(connected@, addr));
                    }
                    peers_to_send.push(addr);
                    informed.push(addr);
                    proof {
                        assert(informed@ =~= informed0 + peers_to_send@);
                        assert(pts_entry + (seq![addr] + gossip_targets(
                            conn0.skip(i + 1),
                            informed0,
                        )) =~= peers_to_send@ + gossip_targets(conn0.skip(i + 1), informed0));
                    }
                }
                i = i + 1;
            }
            proof {
                assert(conn0.skip(conn0.len() as int) =~= Seq::<PeerAddress>::empty());
                assert(peers_to_send@ + gossip_targets(
                    conn0.skip(conn0.len() as int),
                    informed0,
                ) =~= peers_to_send@);
                assert(peers_to_send@ == targets);
                assert(informed@ =~= informed0 + targets);
            }
            let mut s: usize = 0;
            while s < peers_to_send.len()
                invariant
                    0 <= s <= peers_to_send@.len(),
                    sends@.len() == s,
                    peers_to_send@ == targets,
                    tried@ == tried0,
                    informed@ == informed0 + targets,
                    conn0 == status.current_connected_peers@,
                    targets == gossip_targets(conn0, informed0),
                    forall|k: int|
                        0 <= k < peers_to_send@.len() ==> exists|j: int|
                            0 <= j < conn0.len() && #[trigger] peers_to_send@[k] == conn0[j],
                    forall|k: int|
                        0 <= k < sends@.len() ==> (#[trigger] sends@[k]).0 == peers_to_send@[k],
                    forall|k: int|
                        0 <= k < sends@.len() ==> ((#[trigger] sends@[k]).1@ matches
                            crate::message::MessageView::NewPeer(n2, t2, i2) && n2 == new_peer
                            && t2 == tried0 && i2 == informed0 + targets),
                decreases peers_to_send@.len() - s,
            {
                let target = peers_to_send[s];
                let fwd = NetworkMessage::NewPeer(
                    new_peer,
                    clone_peers(&tried),
                    clone_peers(&informed),
                );
                proof {
                    assert(fwd@ matches crate::message::MessageView::NewPeer(n2, t2, i2) && n2
                        == new_peer && t2 == tried0 && i2 == informed0 + targets);
                }
                sends.push((target, fwd));
                proof {
                    assert(sends@[sends@.len() - 1].1 == fwd);
                }
                s = s + 1;
            }
            let node_address = status.get_node_address();
            if !peers_find(&tried, node_address) && !status.is_peer_already_connected(new_peer) {
                status.add_potential_peer(new_peer);
            }
            proof {
                assert forall|k: int|
                    0 <= k < sends@.len() implies peers_contain(
                    old(status).current_connected_peers@,
                    (#[trigger] sends@[k]).0,
                ) by {
                    assert(sends@[k].0 == peers_to_send@[k]);
                    let j = choose|j: int|
                        0 <= j < conn0.len() && #[trigger] peers_to_send@[k as int] == conn0[j];
                }
            }
            RouteOutcome::Gossip(sends)
        },
        NetworkMessage::ListFiles(peer, files) => {
            match files {
                Some(fs) => RouteOutcome::ToStorage(NodeMessage::FilesAvailable(peer, fs)),
                None => RouteOutcome::ToStorage(NodeMessage::ListFiles(peer)),
            }
        },
        NetworkMessage::AskForFile(file, peer) => RouteOutcome::ToStorage(
            NodeMessage::AskForFile(file, peer),
        ),
        NetworkMessage::SendMetadata(name, peer, size, dm) => RouteOutcome::ToStorage(
            NodeMessage::ReceivedMetadata(name, peer, size, dm),
        ),
        NetworkMessage::RequestFileChunks(peer, name, chunks) => RouteOutcome::ToStorage(
            NodeMessage::RequestFileChunks(peer, name, chunks),
        ),
        NetworkMessage::SendFileChunks(name, chunks) => RouteOutcome::ToStorage(
            NodeMessage::ReceivedFileChunks(name, chunks),
        ),
    }
}

/// The connected peers that a plea for more sources goes to: every
/// connected peer not in the exception set, in table order.
pub open spec fn except_targets(
    connected: Seq<PeerAddress>,
    except: Seq<PeerAddress>,
) -> Seq<PeerAddress>
    decreases connected.len(),
{
    if connected.len() == 0 {
        Seq::<PeerAddress>::empty()
    } else if !peers_contain(except, connected[0]) {
        seq![connected[0]] + except_targets(connected.drop_first(), except)
    } else {
        except_targets(connected.drop_first(), except)
    }
}

/// Translates a storage-manager command into the wire messages to send,
/// and reports a peer that is no longer connected back to the manager for
/// file-transfer commands.
pub fn dispatch_storage_message(status: &Status, msg: StorageMessage) -> (r: (
    Vec<(PeerAddress, NetworkMessage)>,
    Option<NodeMessage>,
))
    requires
        status.wf(),
    ensures
        forall|k: int|
            0 <= k < r.0@.len() ==> peers_contain(
                status.current_connected_peers@,
                (#[trigger] r.0@[k]).0,
            ),
        msg matches StorageMessage::AskForFiles ==> (r.1 is None && r.0@.len()
            == status.current_connected_peers@.len() && forall|k: int|
            0 <= k < r.0@.len() ==> ((#[trigger] r.0@[k]).0 == status.current_connected_peers@[k]
                && (r.0@[k].1@ matches crate::message::MessageView::ListFiles(p2, files) && p2
                == status.node_address && files is None))),
        msg matches StorageMessage::AskPeerForFile(name, peer) ==> (r.1 is None && (
        if peers_contain(status.current_connected_peers@, peer) {
            r.0@.len() == 1 && r.0@[0].0 == peer && (r.0@[0].1@ matches
                crate::message::MessageView::AskForFile(n2, p2) && n2 == name@ && p2
                == status.node_address)
        } else {
            r.0@.len() == 0
        })),
        msg matches StorageMessage::AskPeersForFileExcept(name, except) ==> (r.1 is None && ({
            let targets = except_targets(status.current_connected_peers@, except@);
            &&& r.0@.len() == targets.len()
            &&& forall|k: int|
                0 <= k < r.0@.len() ==> ((#[trigger] r.0@[k]).0 == targets[k] && (r.0@[k].1@
                    matches crate::message::MessageView::AskForFile(n2, p2) && n2 == name@ && p2
                    == status.node_address))
        })),
        msg matches StorageMessage::FilesAvailable(peer, files) ==> (r.1 is None && (
        if peers_contain(status.current_connected_peers@, peer) {
            r.0@.len() == 1 && r.0@[0].0 == peer && (r.0@[0].1@ matches
                crate::message::MessageView::ListFiles(p2, fs2) && p2 == status.node_address
                && fs2 == Some(crate::message::strings_view(files@)))
        } else {
            r.0@.len() == 0
        })),
        msg matches StorageMessage::SendMetadata(name, peer, size, dm) ==> (r.1 is None && (
        if peers_contain(status.current_connected_peers@, peer) {
            r.0@.len() == 1 && r.0@[0].0 == peer && (r.0@[0].1@ matches
                crate::message::MessageView::SendMetadata(n2, p2, s2, dm2) && n2 == name@ && p2
                == status.node_address && s2 == size && dm2 == dm@)
        } else {
            r.0@.len() == 0
        })),
        msg matches StorageMessage::RequestFileChunks(peer, name, chunks) ==> (
        if peers_contain(status.current_connected_peers@, peer) {
            r.1 is None && r.0@.len() == 1 && r.0@[0].0 == peer && (r.0@[0].1@ matches
                crate::message::MessageView::RequestFileChunks(p2, n2, reqs2) && p2
                == status.node_address && n2 == name@ && reqs2 == chunks@)
        } else {
            r.0@.len() == 0 && (r.1 matches Some(nm) && nm matches
                NodeMessage::PeerNotConnected(p2) && p2 == peer)
        }),
        msg matches StorageMessage::SendFileChunks(peer, name, chunks) ==> (
        if peers_contain(status.current_connected_peers@, peer) {
            r.1 is None && r.0@.len() == 1 && r.0@[0].0 == peer && (r.0@[0].1@ matches
                crate::message::MessageView::SendFileChunks(n2, datas2) && n2 == name@ && datas2
                == crate::message::chunk_datas_view(chunks@))
        } else {
            r.0@.len() == 0 && (r.1 matches Some(nm) && nm matches
                NodeMessage::PeerNotConnected(p2) && p2 == peer)
        }),
{
    let node_address = status.get_node_address();
    let mut sends: Vec<(PeerAddress, NetworkMessage)> = Vec::new();
    match msg {
        StorageMessage::AskForFiles => {
            let connected = status.get_current_connected_peers();
            let mut i: usize = 0;
            while i < connected.len()
                invariant
                    0 <= i <= connected@.len(),
                    connected@ == status.current_connected_peers@,
                    node_address == status.node_address,
                    sends@.len() == i,
                    forall|k: int|
                        0 <= k < sends@.len() ==> ((#[trigger] sends@[k]).0 == connected@[k]
                            && (sends@[k].1@ matches crate::message::MessageView::ListFiles(
                            p2,
                            files,
                        ) && p2 == status.node_address && files is None)),
                decreases connected@.len() - i,
            {
                let target = connected[i];
                proof {
                    assert(peers_contain(connected@, target));
                }
                let m = NetworkMessage::ListFiles(node_address, None);
                proof {
                    assert(m@ matches crate::message::MessageView::ListFiles(p2, files) && p2
                        == status.node_address && files is None);
                }
                sends.push((target, m));
                i = i + 1;
            }
            proof {
                assert forall|k: int|
                    0 <= k < sends@.len() implies peers_contain(
                    status.current_connected_peers@,
                    (#[trigger] sends@[k]).0,
                ) by {
                    assert(sends@[k].0 == status.current_connected_peers@[k]);
                }
            }
            (sends, None)
        },
        StorageMessage::AskPeerForFile(file_name, peer) => {
            if status.is_peer_already_connected(peer) {
                let m = NetworkMessage::AskForFile(file_name, node_address);
                sends.push((peer, m));
            }
            (sends, None)
        },
        StorageMessage::AskPeersForFileExcept(file_name, except) => {
            let connected = status.get_current_connected_peers();
            let ghost conn0 = connected@;
            let ghost targets = except_targets(conn0, except@);
            let mut i: usize = 0;
            proof {
                assert(conn0.skip(0) =~= conn0);
                assert(sends@.map_values(|e: (PeerAddress, NetworkMessage)| e.0) + except_targets(
                    conn0.skip(0),
                    except@,
                ) =~= targets);
            }
            while i < connected.len()
                invariant
                    0 <= i <= connected@.len(),
                    connected@ == status.current_connected_peers@,
                    conn0 == connected@,
                    node_address == status.node_address,
                    targets == except_targets(conn0, except@),
                    targets == sends@.map_values(|e: (PeerAddress, NetworkMessage)| e.0)
                        + except_targets(conn0.skip(i as int), except@),
                    forall|k: int|
                        0 <= k < sends@.len() ==> peers_contain(
                            status.current_connected_peers@,
                            (#[trigger] sends@[k]).0,
                        ),
                    forall|k: int|
                        0 <= k < sends@.len() ==> ((#[trigger] sends@[k]).1@ matches
                            crate::message::MessageView::AskForFile(n2, p2) && n2 == file_name@
                            && p2 == status.node_address),
                decreases connected@.len() - i,
            {
                let ghost sends_entry = sends@;
                proof {
                    assert(conn0.skip(i as int)[0] == conn0[i as int]);
                    assert(conn0.skip(i as int).drop_first() =~= conn0.skip(i + 1));
                }
                let target = connected[i];
                if !peers_find(&except, target) {
                    proof {
                        assert(peers_contain(conn0, target));
                    }
                    let m = NetworkMessage::AskForFile(file_name.clone(), node_address);
                    proof {
                        assert(m@ matches crate::message::MessageView::AskForFile(n2, p2) && n2
                            == file_name@ && p2 == status.node_address);
                    }
                    sends.push((target, m));
                    proof {
                        assert(sends@.map_values(|e: (PeerAddress, NetworkMessage)| e.0)
                            =~= sends_entry.map_values(
                            |e: (PeerAddress, NetworkMessage)| e.0,
                        ).push(target));
                        assert(sends_entry.map_values(|e: (PeerAddress, NetworkMessage)| e.0) + (
                        seq![target] + except_targets(conn0.skip(i + 1), except@)) =~= sends@
                            .map_values(|e: (PeerAddress, NetworkMessage)| e.0) + except_targets(
                            conn0.skip(i + 1),
                            except@,
                        ));
                    }
                }
                i = i + 1;
            }
            proof {
                assert(conn0.skip(conn0.len() as int) =~= Seq::<PeerAddress>::empty());
                assert(sends@.map_values(|e: (PeerAddress, NetworkMessage)| e.0) + except_targets(
                    conn0.skip(conn0.len() as int),
                    except@,
                ) =~= sends@.map_values(|e: (PeerAddress, NetworkMessage)| e.0));
                assert forall|k: int|
                    0 <= k < sends@.len() implies (#[trigger] sends@[k]).0 == targets[k] by {
                    assert(targets[k] == sends@.map_values(
                        |e: (PeerAddress, NetworkMessage)| e.0,
                    )[k]);
                }
            }
            (sends, None)
        },
        StorageMessage::FilesAvailable(peer, files) => {
            if status.is_peer_already_connected(peer) {
                let m = NetworkMessage::ListFiles(node_address, Some(files));
                sends.push((peer, m));
            }
            (sends, None)
        },
        StorageMessage::SendMetadata(file_name, peer, size, dm) => {
            if status.is_peer_already_connected(peer) {
                let m = NetworkMessage::SendMetadata(file_name, node_address, size, dm);
                sends.push((peer, m));
            }
            (sends, None)
        },
        StorageMessage::RequestFileChunks(peer, file_name, chunks) => {
            if status.is_peer_already_connected(peer) {
                let m = NetworkMessage::RequestFileChunks(node_address, file_name, chunks);
                sends.push((peer, m));
                (sends, None)
            } else {
                (sends, Some(NodeMessage::PeerNotConnected(peer)))
            }
        },
        StorageMessage::SendFileChunks(peer, file_name, chunks) => {
            if status.is_peer_already_connected(peer) {
                let m = NetworkMessage::SendFileChunks(file_name, chunks);
                sends.push((peer, m));
                (sends, None)
            } else {
                (sends, Some(NodeMessage::PeerNotConnected(peer)))
            }
        },
    }
}

} // verus!
