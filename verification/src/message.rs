use vstd::prelude::*;
use crate::peer::PeerAddress;
use crate::hash::ChunkHash;
use crate::chunks::{DownloadMetadata, FileChunk};

verus! {

/// The mathematical value of a manifest: the chunk sequence, the whole-file
/// digest and the downloaded counter.
#[verifier::ext_equal]
pub struct MetadataView {
    pub chunks: Seq<FileChunk>,
    pub file_hash: ChunkHash,
    pub chunks_downloaded: usize,
}

impl View for DownloadMetadata {
    type V = MetadataView;

    open spec fn view(&self) -> MetadataView {
        MetadataView {
            chunks: self.file_chunks@,
            file_hash: self.file_hash,
            chunks_downloaded: self.chunks_downloaded,
        }
    }
}

/// A message of the wire protocol between two peers.
#[derive(Debug)]
pub enum NetworkMessage {
    /// Handshake opener: the sender's listening address, and whether the
    /// sender asks for the receiver's peer set.
    Hello(PeerAddress, bool),
    /// Accepts a handshake; carries the peers hint.
    ConnectionAccepted(Vec<PeerAddress>),
    /// Rejects a handshake; carries the peers hint.
    ConnectionRejected(Vec<PeerAddress>),
    /// Gossip of a newly joined peer: the peer, the peers it tried, and the
    /// peers already informed.
    NewPeer(PeerAddress, Vec<PeerAddress>, Vec<PeerAddress>),
    /// Keepalive.
    ImAlive,
    /// Empty list asks for the receiver's peers; a non-empty list shares the
    /// sender's peers.
    ListPeers(Vec<PeerAddress>),
    /// `None` asks for the receiver's file names; `Some` carries the
    /// sender's file names.
    ListFiles(PeerAddress, Option<Vec<String>>),
    /// Asks the receiver to send the manifest of the named file.
    AskForFile(String, PeerAddress),
    /// A manifest reply: file name, sender, file size, manifest.
    SendMetadata(String, PeerAddress, u64, DownloadMetadata),
    /// Asks for chunks of a file, as (chunk index, byte position) pairs.
    RequestFileChunks(PeerAddress, String, Vec<(usize, u64)>),
    /// A chunk reply, as (chunk index, chunk bytes) pairs.
    SendFileChunks(String, Vec<(usize, Vec<u8>)>),
}

/// The mathematical value of a wire message.
#[verifier::ext_equal]
pub enum MessageView {
    Hello(PeerAddress, bool),
    ConnectionAccepted(Seq<PeerAddress>),
    ConnectionRejected(Seq<PeerAddress>),
    NewPeer(PeerAddress, Seq<PeerAddress>, Seq<PeerAddress>),
    ImAlive,
    ListPeers(Seq<PeerAddress>),
    ListFiles(PeerAddress, Option<Seq<Seq<char>>>),
    AskForFile(Seq<char>, PeerAddress),
    SendMetadata(Seq<char>, PeerAddress, u64, MetadataView),
    RequestFileChunks(PeerAddress, Seq<char>, Seq<(usize, u64)>),
    SendFileChunks(Seq<char>, Seq<(usize, Seq<u8>)>),
}

/// The views of a sequence of strings.
pub open spec fn strings_view(v: Seq<String>) -> Seq<Seq<char>> {
    v.map_values(|s: String| s@)
}

/// The views of a sequence of chunk payloads.
pub open spec fn chunk_datas_view(v: Seq<(usize, Vec<u8>)>) -> Seq<(usize, Seq<u8>)> {
    v.map_values(|p: (usize, Vec<u8>)| (p.0, p.1@))
}

impl View for NetworkMessage {
    type V = MessageView;

    open spec fn view(&self) -> MessageView {
        match self {
            NetworkMessage::Hello(p, ask) => MessageView::Hello(*p, *ask),
            NetworkMessage::ConnectionAccepted(ps) => MessageView::ConnectionAccepted(ps@),
            NetworkMessage::ConnectionRejected(ps) => MessageView::ConnectionRejected(ps@),
            NetworkMessage::NewPeer(p, tried, informed) => MessageView::NewPeer(
                *p,
                tried@,
                informed@,
            ),
            NetworkMessage::ImAlive => MessageView::ImAlive,
            NetworkMessage::ListPeers(ps) => MessageView::ListPeers(ps@),
            NetworkMessage::ListFiles(p, files) => MessageView::ListFiles(
                *p,
                match files {
                    Some(fs) => Some(strings_view(fs@)),
                    None => None,
                },
            ),
            NetworkMessage::AskForFile(name, p) => MessageView::AskForFile(name@, *p),
            NetworkMessage::SendMetadata(name, p, size, dm) => MessageView::SendMetadata(
                name@,
                *p,
                *size,
                dm@,
            ),
            NetworkMessage::RequestFileChunks(p, name, reqs) => MessageView::RequestFileChunks(
                *p,
                name@,
                reqs@,
            ),
            NetworkMessage::SendFileChunks(name, datas) => MessageView::SendFileChunks(
                name@,
                chunk_datas_view(datas@),
            ),
        }
    }
}

/// An event handed from the networking side to the storage manager.
#[derive(Debug)]
pub enum NodeMessage {
    ListFiles(PeerAddress),
    FilesAvailable(PeerAddress, Vec<String>),
    AskForFile(String, PeerAddress),
    ReceivedMetadata(String, PeerAddress, u64, DownloadMetadata),
    PeerNotConnected(PeerAddress),
    RequestFileChunks(PeerAddress, String, Vec<(usize, u64)>),
    ReceivedFileChunks(String, Vec<(usize, Vec<u8>)>),
}

/// A command handed from the storage manager to the networking side.
#[derive(Debug)]
pub enum StorageMessage {
    AskForFiles,
    FilesAvailable(PeerAddress, Vec<String>),
    AskPeerForFile(String, PeerAddress),
    AskPeersForFileExcept(String, Vec<PeerAddress>),
    SendMetadata(String, PeerAddress, u64, DownloadMetadata),
    RequestFileChunks(PeerAddress, String, Vec<(usize, u64)>),
    SendFileChunks(PeerAddress, String, Vec<(usize, Vec<u8>)>),
}

/// The discovery datagram: the listening port of the sender.
#[derive(Debug, PartialEq, Eq, Structural, Clone, Copy)]
pub struct DiscoverHello {
    pub listening_port: u16,
}

} // verus!
