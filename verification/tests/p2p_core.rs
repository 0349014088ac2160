use p2p_share::chunks::{DownloadMetadata, FileChunk};
use p2p_share::codec::{
    decode_discover_hello, decode_message, encode_discover_hello, encode_frame, encode_message,
    frame_body_len,
};
use p2p_share::connection::{classify_up_inbound, connection_timers, TimerAction, UpInboundAction};
use p2p_share::handshake::{
    admit_peer, handshake_on_ack, handshake_on_hello, handshake_start, HandshakeState,
};
use p2p_share::hash::ChunkHash;
use p2p_share::manager::{Manager, MetadataRequest, ReceivedMetadataOutcome, ScanEntry};
use p2p_share::manifest::ManifestBuilder;
use p2p_share::message::{DiscoverHello, NetworkMessage, NodeMessage, StorageMessage};
use p2p_share::node::{dispatch_storage_message, route_connection_message, RouteOutcome};
use p2p_share::node_status::Status;
use p2p_share::peer::PeerAddress;
use p2p_share::shared_file::{MetadataError, SharedFile};
use p2p_share::{chunk_count, FILE_PIECE_SIZE, MAX_CHUNKS_REQUESTED_AT_ONCE};

fn peer(n: u16) -> PeerAddress {
    PeerAddress::from_octets(127, 0, 0, 1, 6000 + n)
}

fn sample_hash(seed: u64) -> ChunkHash {
    ChunkHash { w0: seed, w1: seed + 1, w2: seed + 2, w3: seed + 3 }
}

/// A seeder's manifest for a file of `total` chunks, every chunk held.
fn seeder_manifest(total: usize) -> DownloadMetadata {
    let mut chunks = Vec::new();
    for i in 0..total {
        chunks.push(FileChunk {
            position: (i as u64) * FILE_PIECE_SIZE,
            hash: sample_hash(i as u64),
            downloaded: true,
        });
    }
    DownloadMetadata { file_chunks: chunks, file_hash: sample_hash(99), chunks_downloaded: total }
}

#[test]
fn message_round_trip() {
    let dm = seeder_manifest(2);
    let messages = vec![
        NetworkMessage::Hello(peer(1), true),
        NetworkMessage::ConnectionAccepted(vec![peer(1), peer(2)]),
        NetworkMessage::ConnectionRejected(vec![]),
        NetworkMessage::NewPeer(peer(3), vec![peer(1)], vec![peer(2), peer(3)]),
        NetworkMessage::ImAlive,
        NetworkMessage::ListPeers(vec![peer(9)]),
        NetworkMessage::ListFiles(peer(1), None),
        NetworkMessage::ListFiles(peer(1), Some(vec!["a.bin".to_string(), "b".to_string()])),
        NetworkMessage::AskForFile("hello.bin".to_string(), peer(4)),
        NetworkMessage::SendMetadata("hello.bin".to_string(), peer(4), 300000, dm),
        NetworkMessage::RequestFileChunks(peer(5), "hello.bin".to_string(), vec![(0, 0), (1, 262144)]),
        NetworkMessage::SendFileChunks("hello.bin".to_string(), vec![(0, vec![1, 2, 3])]),
    ];
    for m in messages {
        let bytes = encode_message(&m);
        let decoded = decode_message(&bytes).expect("a self-encoded message must decode");
        match (&m, &decoded) {
            (NetworkMessage::Hello(p1, a1), NetworkMessage::Hello(p2, a2)) => {
                assert_eq!(p1, p2);
                assert_eq!(a1, a2);
            }
            (NetworkMessage::ConnectionAccepted(v1), NetworkMessage::ConnectionAccepted(v2)) => {
                assert_eq!(v1, v2);
            }
            (NetworkMessage::ConnectionRejected(v1), NetworkMessage::ConnectionRejected(v2)) => {
                assert_eq!(v1, v2);
            }
            (NetworkMessage::NewPeer(p1, t1, i1), NetworkMessage::NewPeer(p2, t2, i2)) => {
                assert_eq!(p1, p2);
                assert_eq!(t1, t2);
                assert_eq!(i1, i2);
            }
            (NetworkMessage::ImAlive, NetworkMessage::ImAlive) => {}
            (NetworkMessage::ListPeers(v1), NetworkMessage::ListPeers(v2)) => {
                assert_eq!(v1, v2);
            }
            (NetworkMessage::ListFiles(p1, f1), NetworkMessage::ListFiles(p2, f2)) => {
                assert_eq!(p1, p2);
                assert_eq!(f1, f2);
            }
            (NetworkMessage::AskForFile(n1, p1), NetworkMessage::AskForFile(n2, p2)) => {
                assert_eq!(n1, n2);
                assert_eq!(p1, p2);
            }
            (
                NetworkMessage::SendMetadata(n1, p1, s1, d1),
                NetworkMessage::SendMetadata(n2, p2, s2, d2),
            ) => {
                assert_eq!(n1, n2);
                assert_eq!(p1, p2);
                assert_eq!(s1, s2);
                assert_eq!(d1.chunks_downloaded, d2.chunks_downloaded);
                assert_eq!(d1.file_hash, d2.file_hash);
                assert_eq!(d1.file_chunks.len(), d2.file_chunks.len());
                for (c1, c2) in d1.file_chunks.iter().zip(d2.file_chunks.iter()) {
                    assert_eq!(c1, c2);
                }
            }
            (
                NetworkMessage::RequestFileChunks(p1, n1, r1),
                NetworkMessage::RequestFileChunks(p2, n2, r2),
            ) => {
                assert_eq!(p1, p2);
                assert_eq!(n1, n2);
                assert_eq!(r1, r2);
            }
            (
                NetworkMessage::SendFileChunks(n1, c1),
                NetworkMessage::SendFileChunks(n2, c2),
            ) => {
                assert_eq!(n1, n2);
                assert_eq!(c1, c2);
            }
            _ => panic!("decoded a different variant than was encoded"),
        }
    }
}

#[test]
fn corrupt_messages_are_rejected() {
    let bytes = encode_message(&NetworkMessage::Hello(peer(1), true));
    let mut cut = bytes.clone();
    cut.pop();
    assert!(decode_message(&cut).is_none());
    let mut extended = bytes.clone();
    extended.push(0);
    assert!(decode_message(&extended).is_none());
    assert!(decode_message(&vec![200u8, 0, 0]).is_none());
}

#[test]
fn frame_carries_its_length() {
    let m = NetworkMessage::AskForFile("x".to_string(), peer(7));
    let body = encode_message(&m);
    let framed = encode_frame(&m).unwrap();
    assert_eq!(framed.len(), body.len() + 4);
    let header: Vec<u8> = framed[0..4].to_vec();
    assert_eq!(frame_body_len(&header), Some(body.len() as u32));
    assert_eq!(&framed[4..], &body[..]);
}

#[test]
fn discover_hello_round_trip() {
    let d = DiscoverHello { listening_port: 6001 };
    let bytes = encode_discover_hello(&d);
    assert_eq!(bytes.len(), 3);
    assert_eq!(decode_discover_hello(&bytes), Some(d));
    assert_eq!(decode_discover_hello(&vec![1, 2]), None);
    assert_eq!(decode_discover_hello(&vec![0, 2, 3]), None);
}

#[test]
fn chunk_count_follows_the_piece_size() {
    assert_eq!(chunk_count(1), 1);
    assert_eq!(chunk_count(FILE_PIECE_SIZE), 1);
    assert_eq!(chunk_count(FILE_PIECE_SIZE + 1), 2);
    assert_eq!(chunk_count(300000), 2);
    assert_eq!(chunk_count(4 * FILE_PIECE_SIZE), 4);
}

/// Builds the manifest of a 300000-byte file and checks the short final
/// chunk, then drives a download of it through verification and
/// completion.
#[test]
fn short_final_chunk_completes_the_file() {
    let chunk1 = vec![7u8; FILE_PIECE_SIZE as usize];
    let chunk2 = vec![9u8; 300000 - FILE_PIECE_SIZE as usize];
    let mut builder = ManifestBuilder::new();
    builder.add_chunk(&chunk1);
    builder.add_chunk(&chunk2);
    let dm = builder.finish();
    assert_eq!(dm.file_chunks.len(), 2);
    assert_eq!(dm.file_chunks[1].position, FILE_PIECE_SIZE);

    let mut sf = SharedFile::create_placeholder("hello.bin".to_string(), 0);
    let trailer = sf
        .insert_download_metadata(peer(1), 300000, &dm)
        .expect("a fitting manifest is installed");
    assert!(trailer.len() > 0);
    assert_eq!(sf.file_size(), 300000);
    assert_eq!(sf.file_completion, 0);

    let requests = sf.get_list_of_requested_chunks(1000).expect("chunks are schedulable");
    assert_eq!(requests.len(), 1);
    assert_eq!(requests[0].0, peer(1));
    assert_eq!(requests[0].1.len(), 2);

    let out = sf.append_chunks_to_file(&vec![(0, chunk1.clone()), (1, chunk2.clone())], 2000);
    assert_eq!(out.writes.len(), 2);
    assert_eq!(out.writes[0].0, 0);
    assert_eq!(out.writes[1].0, FILE_PIECE_SIZE);
    assert!(out.finished);
    assert!(sf.is_finished());
    assert!(!sf.has_download_metadata());
    assert_eq!(sf.chunks_requested.len(), 0);
}

/// A chunk whose bytes do not hash to the manifest's digest is dropped and
/// stays in flight; the correct bytes are accepted afterwards.
#[test]
fn bad_chunk_is_dropped_without_progress() {
    let chunk1 = vec![7u8; 1000];
    let mut builder = ManifestBuilder::new();
    builder.add_chunk(&chunk1);
    let dm = builder.finish();

    let mut sf = SharedFile::create_placeholder("small.bin".to_string(), 0);
    sf.insert_download_metadata(peer(1), 1000, &dm).unwrap();
    let requests = sf.get_list_of_requested_chunks(0).unwrap();
    assert_eq!(requests[0].1, vec![(0, 0)]);
    assert_eq!(sf.chunks_requested.len(), 1);

    let bad = vec![8u8; 1000];
    let out = sf.append_chunks_to_file(&vec![(0, bad)], 10);
    assert_eq!(out.writes.len(), 0);
    assert!(!out.finished);
    assert!(out.trailer.is_none());
    assert_eq!(sf.chunks_requested.len(), 1);
    assert_eq!(sf.file_completion, 0);

    let out = sf.append_chunks_to_file(&vec![(0, chunk1)], 20);
    assert_eq!(out.writes.len(), 1);
    assert!(out.finished);
}

/// At most ten chunk requests are ever in flight, and expired requests are
/// reissued.
#[test]
fn chunk_request_budget_is_capped() {
    let total = 20usize;
    let dm = seeder_manifest(total);
    let mut sf = SharedFile::create_placeholder("big.bin".to_string(), 0);
    sf.insert_download_metadata(peer(1), (total as u64) * FILE_PIECE_SIZE, &dm).unwrap();

    let requests = sf.get_list_of_requested_chunks(1000).unwrap();
    let issued: usize = requests.iter().map(|(_, v)| v.len()).sum();
    assert_eq!(issued, MAX_CHUNKS_REQUESTED_AT_ONCE);
    assert_eq!(sf.chunks_requested.len(), MAX_CHUNKS_REQUESTED_AT_ONCE);

    // budget full: nothing more can be scheduled
    assert!(sf.get_list_of_requested_chunks(2000).is_none());
    assert_eq!(sf.chunks_requested.len(), MAX_CHUNKS_REQUESTED_AT_ONCE);

    // after the timeout the stale requests are dropped and reissued
    let requests = sf.get_list_of_requested_chunks(1000 + 20001).unwrap();
    let issued: usize = requests.iter().map(|(_, v)| v.len()).sum();
    assert_eq!(issued, MAX_CHUNKS_REQUESTED_AT_ONCE);
    assert_eq!(sf.chunks_requested.len(), MAX_CHUNKS_REQUESTED_AT_ONCE);
}

/// When the remaining budget is smaller than the number of offering peers,
/// the scheduler asks for more sources instead of fragmenting the budget.
#[test]
fn small_budget_asks_for_more_peers() {
    let total = 40usize;
    let dm = seeder_manifest(total);
    let mut sf = SharedFile::create_placeholder("wide.bin".to_string(), 0);
    sf.insert_download_metadata(peer(0), (total as u64) * FILE_PIECE_SIZE, &dm).unwrap();
    for n in 1..12u16 {
        let offers: Vec<usize> = (0..total).collect();
        sf.set_peer_offers(peer(n), offers);
    }
    let requests = sf.get_list_of_requested_chunks(0).unwrap();
    assert_eq!(requests.len(), 0);
    assert_eq!(sf.chunks_requested.len(), 0);
}

/// A manifest written as a trailer is recovered unchanged, and a resumed
/// download does not request already-verified chunks again.
#[test]
fn resume_from_trailer() {
    let chunk1 = vec![7u8; FILE_PIECE_SIZE as usize];
    let chunk2 = vec![9u8; 300000 - FILE_PIECE_SIZE as usize];
    let mut builder = ManifestBuilder::new();
    builder.add_chunk(&chunk1);
    builder.add_chunk(&chunk2);
    let dm = builder.finish();

    let mut sf = SharedFile::create_placeholder("hello.bin".to_string(), 0);
    sf.insert_download_metadata(peer(1), 300000, &dm).unwrap();
    sf.get_list_of_requested_chunks(0).unwrap();
    let out = sf.append_chunks_to_file(&vec![(0, chunk1.clone())], 10);
    assert_eq!(out.writes.len(), 1);
    assert!(!out.finished);
    let trailer = out.trailer.expect("progress rewrites the trailer");

    // the trailer is: encoded manifest, then the payload size
    let manifest_part: Vec<u8> = trailer[0..trailer.len() - 8].to_vec();
    let recovered = p2p_share::shared_file::decode_trailer_metadata(&manifest_part)
        .expect("the trailer decodes to the manifest it was written from");
    assert_eq!(recovered.chunks_downloaded, 1);
    assert!(recovered.file_chunks[0].downloaded);
    assert!(!recovered.file_chunks[1].downloaded);

    let mut resumed =
        SharedFile::create_resumed("hello.bin".to_string(), 300000, recovered, 100).unwrap();
    assert_eq!(resumed.file_completion, 50);
    resumed.set_peer_offers(peer(1), vec![0, 1]);
    let requests = resumed.get_list_of_requested_chunks(200).unwrap();
    assert_eq!(requests.len(), 1);
    // only the missing chunk is requested again
    assert_eq!(requests[0].1, vec![(1, FILE_PIECE_SIZE)]);
    let out = resumed.append_chunks_to_file(&vec![(1, chunk2)], 300);
    assert!(out.finished);
}

/// With the connected set full and no room to make, a new peer is
/// rejected; with room to make, it displaces exactly one existing peer.
#[test]
fn admission_respects_the_cap() {
    let mut status = Status::create(peer(0));
    for n in 1..6u16 {
        status.peer_handshaked_successfully(peer(n));
    }
    assert!(status.reached_connections_number_limit());

    let refused = admit_peer(&mut status, peer(6), false);
    assert!(!refused.accepted);
    assert!(refused.evicted.is_none());
    assert_eq!(status.get_current_connected_peers().len(), 5);
    assert!(!status.is_peer_already_connected(peer(6)));

    let admitted = admit_peer(&mut status, peer(6), true);
    assert!(admitted.accepted);
    let evicted = admitted.evicted.expect("one peer must be displaced");
    assert_eq!(status.get_current_connected_peers().len(), 5);
    assert!(status.is_peer_already_connected(peer(6)));
    assert!(!status.is_peer_already_connected(evicted));

    let already = admit_peer(&mut status, peer(6), true);
    assert!(!already.accepted);
}

/// A session comes up only when both handshake halves arrive in time, and
/// then no more than thirty seconds after our opening message.
#[test]
fn handshake_halves_are_bounded() {
    let st = handshake_start(1000);
    let st = handshake_on_hello(st, 1000 + 14000);
    let st = handshake_on_ack(st, 1000 + 14000 + 15000, true);
    match st {
        HandshakeState::Up { sent_at, up_at } => {
            assert!(up_at - sent_at <= 30000);
        }
        _ => panic!("a timely handshake must come up"),
    }

    let st = handshake_start(1000);
    let st = handshake_on_hello(st, 1000 + 15001);
    assert_eq!(st, HandshakeState::Dead);

    let st = handshake_start(1000);
    let st = handshake_on_hello(st, 2000);
    let st = handshake_on_ack(st, 2000 + 15001, true);
    assert_eq!(st, HandshakeState::Dead);

    let st = handshake_start(1000);
    let st = handshake_on_hello(st, 2000);
    let st = handshake_on_ack(st, 3000, false);
    assert_eq!(st, HandshakeState::Dead);
}

/// An idle session is closed exactly when the inactivity timeout has
/// elapsed, and not a moment sooner.
#[test]
fn inactivity_closes_after_the_timeout() {
    assert_eq!(connection_timers(119999, 0, 119999), TimerAction::Nothing);
    assert_eq!(connection_timers(120000, 0, 120000), TimerAction::CloseInactive);
    assert_eq!(connection_timers(120500, 0, 120500), TimerAction::CloseInactive);
    assert_eq!(connection_timers(60000, 0, 0), TimerAction::SendKeepalive);
    assert_eq!(connection_timers(59999, 0, 0), TimerAction::Nothing);
}

#[test]
fn up_messages_are_classified() {
    assert_eq!(
        classify_up_inbound(&NetworkMessage::Hello(peer(1), false)),
        UpInboundAction::ProtocolViolation
    );
    assert_eq!(
        classify_up_inbound(&NetworkMessage::ImAlive),
        UpInboundAction::Keepalive
    );
    assert_eq!(
        classify_up_inbound(&NetworkMessage::ListPeers(vec![])),
        UpInboundAction::ReplyWithPeers
    );
    assert_eq!(
        classify_up_inbound(&NetworkMessage::ListPeers(vec![peer(1)])),
        UpInboundAction::TakePotentialPeers
    );
    assert_eq!(
        classify_up_inbound(&NetworkMessage::AskForFile("a".to_string(), peer(1))),
        UpInboundAction::ForwardToNode
    );
}

/// Rescanning an unchanged directory adopts nothing, forgets nothing, and
/// zero-byte files are never shared.
#[test]
fn rescan_is_quiet_and_empty_files_are_ignored() {
    let mut mgr = Manager::create();
    let entries = vec![
        ScanEntry {
            name: "a.bin".to_string(),
            payload_size: 100,
            unfinished: false,
            resume: None,
        },
        ScanEntry {
            name: "empty.bin".to_string(),
            payload_size: 0,
            unfinished: false,
            resume: None,
        },
    ];
    let out = mgr.check_directory(&entries, 0);
    assert_eq!(out.created, vec!["a.bin".to_string()]);
    assert!(out.removed.is_empty());
    assert!(out.ask_for_files);
    assert_eq!(mgr.files.len(), 1);

    let out = mgr.check_directory(&entries, 1000);
    assert!(out.created.is_empty());
    assert!(out.removed.is_empty());
    assert!(!out.change_detected);
    assert_eq!(mgr.files.len(), 1);

    let out = mgr.check_directory(&vec![], 2000);
    assert_eq!(out.removed, vec!["a.bin".to_string()]);
    assert_eq!(mgr.files.len(), 0);
}

/// Gossip of a new peer is forwarded to every connected peer not yet
/// informed, and the new peer is remembered as worth connecting to.
#[test]
fn gossip_reaches_uninformed_peers() {
    let mut status = Status::create(peer(0));
    status.peer_handshaked_successfully(peer(1));
    status.peer_handshaked_successfully(peer(2));
    status.peer_handshaked_successfully(peer(3));

    let msg = NetworkMessage::NewPeer(peer(9), vec![], vec![peer(9), peer(1)]);
    match route_connection_message(&mut status, msg) {
        RouteOutcome::Gossip(sends) => {
            let targets: Vec<PeerAddress> = sends.iter().map(|(p, _)| *p).collect();
            assert_eq!(targets, vec![peer(2), peer(3)]);
            for (_, fwd) in &sends {
                match fwd {
                    NetworkMessage::NewPeer(new_peer, _, informed) => {
                        assert_eq!(*new_peer, peer(9));
                        assert!(informed.contains(&peer(2)));
                        assert!(informed.contains(&peer(3)));
                    }
                    _ => panic!("gossip must forward the new-peer message"),
                }
            }
        }
        _ => panic!("a new-peer message is gossip"),
    }
    let potentials = status.get_potential_peers();
    assert_eq!(potentials, vec![peer(9)]);
}

#[test]
fn storage_commands_reach_only_connected_peers() {
    let mut status = Status::create(peer(0));
    status.peer_handshaked_successfully(peer(1));
    let (sends, feedback) = dispatch_storage_message(
        &status,
        StorageMessage::RequestFileChunks(peer(1), "a".to_string(), vec![(0, 0)]),
    );
    assert_eq!(sends.len(), 1);
    assert!(feedback.is_none());

    let (sends, feedback) = dispatch_storage_message(
        &status,
        StorageMessage::RequestFileChunks(peer(2), "a".to_string(), vec![(0, 0)]),
    );
    assert!(sends.is_empty());
    match feedback {
        Some(NodeMessage::PeerNotConnected(p)) => assert_eq!(p, peer(2)),
        _ => panic!("an unconnected target must be reported back"),
    }
}

/// Two nodes, one seeding a 300000-byte file, one empty: the downloader
/// asks for the manifest, fetches both chunks, verifies them, and
/// completes, driven entirely through the two storage managers.
#[test]
fn two_node_direct_download() {
    let chunk1 = vec![3u8; FILE_PIECE_SIZE as usize];
    let chunk2 = vec![4u8; 300000 - FILE_PIECE_SIZE as usize];

    // node A shares the finished file
    let mut a = Manager::create();
    let out = a.check_directory(
        &vec![ScanEntry {
            name: "hello.bin".to_string(),
            payload_size: 300000,
            unfinished: false,
            resume: None,
        }],
        0,
    );
    assert_eq!(out.created.len(), 1);

    // node B learns of the file and adopts a placeholder
    let mut b = Manager::create();
    let (ask, adopt) = b.check_files_from_peer(&a.list_nonempty_files());
    assert!(ask.is_empty());
    assert_eq!(adopt, vec!["hello.bin".to_string()]);
    assert!(b.register_placeholder("hello.bin".to_string(), 0));

    // B asks A for the manifest; A has none in memory and starts hashing
    match a.get_metadata_for_peer(&"hello.bin".to_string(), peer(2)) {
        MetadataRequest::StartHashing => {}
        _ => panic!("a complete file without a manifest starts hashing"),
    }
    // the same peer asking again while hashing is coalesced
    match a.get_metadata_for_peer(&"hello.bin".to_string(), peer(2)) {
        MetadataRequest::AlreadyHashing => {}
        _ => panic!("duplicate requests coalesce"),
    }
    // the hashing task streams the file
    let mut builder = ManifestBuilder::new();
    builder.add_chunk(&chunk1);
    builder.add_chunk(&chunk2);
    let dm = builder.finish();
    let waiting = a.metadata_ready(&"hello.bin".to_string());
    assert_eq!(waiting, vec![peer(2)]);

    // B installs the manifest into its placeholder
    match b.received_metadata(&"hello.bin".to_string(), peer(1), 300000, &dm, 10) {
        ReceivedMetadataOutcome::Installed(size, trailer) => {
            assert_eq!(size, 300000);
            assert!(trailer.len() > 0);
        }
        _ => panic!("an empty placeholder adopts the manifest"),
    }

    // B schedules chunk requests against A
    let commands = b.process_downloads(20);
    let mut requested: Vec<(usize, u64)> = Vec::new();
    for c in &commands {
        if let StorageMessage::RequestFileChunks(p, name, chunks) = c {
            assert_eq!(*p, peer(1));
            assert_eq!(name, "hello.bin");
            requested.extend(chunks.iter().cloned());
        }
    }
    assert_eq!(requested.len(), 2);

    // A plans the reads and serves the chunks
    let plan = a.chunk_read_plan(&"hello.bin".to_string(), &requested, 30).unwrap();
    assert_eq!(plan.len(), 2);
    let mut served: Vec<(usize, Vec<u8>)> = Vec::new();
    for (idx, pos, len) in plan {
        let data = if pos == 0 {
            assert_eq!(len, FILE_PIECE_SIZE);
            chunk1.clone()
        } else {
            assert_eq!(pos, FILE_PIECE_SIZE);
            assert_eq!(len as usize, chunk2.len());
            chunk2.clone()
        };
        served.push((idx, data));
    }

    // B verifies and accepts them; the download completes
    let out = b.received_file_chunks(&"hello.bin".to_string(), &served, 40).unwrap();
    assert_eq!(out.writes.len(), 2);
    assert!(out.finished);
    assert!(b.files[0].is_finished());
}

/// Each way a manifest can fail to fit a file.
#[test]
fn unfit_manifests_are_refused() {
    let dm = seeder_manifest(2);
    let mut sf = SharedFile::create_placeholder("x".to_string(), 0);
    assert_eq!(
        sf.insert_download_metadata(peer(1), 0, &dm).unwrap_err(),
        MetadataError::EmptyFile
    );
    assert_eq!(
        sf.insert_download_metadata(peer(1), 3 * FILE_PIECE_SIZE, &dm).unwrap_err(),
        MetadataError::WrongChunkCount
    );
    let mut shifted = seeder_manifest(2);
    shifted.file_chunks[1].position = 7;
    assert_eq!(
        sf.insert_download_metadata(peer(1), 2 * FILE_PIECE_SIZE, &shifted).unwrap_err(),
        MetadataError::WrongChunkPosition
    );
    match SharedFile::create_resumed("x".to_string(), 2 * FILE_PIECE_SIZE, seeder_manifest(2), 0) {
        Err(e) => assert_eq!(e, MetadataError::AlreadyComplete),
        Ok(_) => panic!("a fully downloaded manifest cannot be resumed"),
    }
}

/// A new peer's arrival travels down a chain of nodes: each node forwards
/// the gossip to neighbours not yet informed, and nodes that did not see
/// the newcomer directly remember it as a potential peer.
#[test]
fn gossip_travels_a_chain() {
    // three nodes in a chain: n1 knows n2, n2 knows n1 and n3, n3 knows n2
    let mut n1 = Status::create(peer(1));
    n1.peer_handshaked_successfully(peer(2));
    let mut n2 = Status::create(peer(2));
    n2.peer_handshaked_successfully(peer(1));
    n2.peer_handshaked_successfully(peer(3));
    let mut n3 = Status::create(peer(3));
    n3.peer_handshaked_successfully(peer(2));

    // a newcomer joined n1 and asked for peers
    let first = NetworkMessage::NewPeer(peer(9), vec![peer(2)], vec![peer(9), peer(1)]);
    let forwarded = match route_connection_message(&mut n1, first) {
        RouteOutcome::Gossip(sends) => {
            assert_eq!(sends.len(), 1);
            assert_eq!(sends[0].0, peer(2));
            sends.into_iter().next().unwrap().1
        }
        _ => panic!("gossip must be forwarded"),
    };
    // n1 is not connected to the newcomer here, so it queues it
    let n1_potential = n1.get_potential_peers();
    assert_eq!(n1_potential, vec![peer(9)]);

    let forwarded = match route_connection_message(&mut n2, forwarded) {
        RouteOutcome::Gossip(sends) => {
            assert_eq!(sends.len(), 1);
            assert_eq!(sends[0].0, peer(3));
            sends.into_iter().next().unwrap().1
        }
        _ => panic!("gossip must be forwarded"),
    };
    // the newcomer's handshake tried n2, so n2 does not queue it
    assert_eq!(n2.get_potential_peers(), Vec::<PeerAddress>::new());

    match route_connection_message(&mut n3, forwarded) {
        RouteOutcome::Gossip(sends) => {
            assert!(sends.is_empty());
        }
        _ => panic!("gossip must be forwarded"),
    }
    assert_eq!(n3.get_potential_peers(), vec![peer(9)]);
}
