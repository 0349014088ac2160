use vstd::prelude::*;
use crate::chunks::{
    chunks_wf, completion_percent, count_downloaded, dm_wf, lemma_count_downloaded_bounds,
    DownloadMetadata,
};
use crate::peer::PeerAddress;
use crate::{
    spec_chunk_count, FILE_PIECE_SIZE, IDLE_TIME_UNTIL_STATUS_CHANGE_MS,
    MAX_CHUNKS_REQUESTED_AT_ONCE,
};

verus! {

/// What a shared file is doing right now: sending chunks out, fetching
/// chunks, or neither.
#[derive(PartialEq, Eq, Structural, Clone, Copy, Debug)]
pub enum FileStatus {
    Seeding,
    Peering,
    Idle,
}

/// Why a manifest arriving from a peer or from disk was not taken.
#[derive(PartialEq, Eq, Structural, Clone, Copy, Debug)]
pub enum MetadataError {
    /// The chunk count does not fit the file size.
    WrongChunkCount,
    /// Some chunk position is not its index times the piece size.
    WrongChunkPosition,
    /// The file size is zero.
    EmptyFile,
    /// Every chunk is already marked downloaded.
    AlreadyComplete,
}

/// True when `i` is one of the chunk indices in the request list.
pub open spec fn req_contains(s: Seq<(usize, u64)>, i: usize) -> bool {
    exists|k: int| 0 <= k < s.len() && s[k].0 == i
}

/// True when no chunk index occurs twice in the request list.
pub open spec fn reqs_unique(s: Seq<(usize, u64)>) -> bool {
    forall|a: int, b: int| 0 <= a < b < s.len() ==> s[a].0 != s[b].0
}

/// The mathematical value of the peer table: each entry as the peer and
/// the set of chunk indices it is believed to hold, in order.
pub open spec fn table_view(s: Seq<(PeerAddress, Vec<usize>)>) -> Seq<(PeerAddress, Seq<usize>)> {
    s.map_values(|e: (PeerAddress, Vec<usize>)| (e.0, e.1@))
}

/// One file this node shares or downloads: its manifest when one is held,
/// which peers are believed to hold which chunks, and the requests in
/// flight.
pub struct SharedFile {
    pub file_name: String,
    pub file_size: u64,
    pub download_metadata: Option<DownloadMetadata>,
    pub peers_with_available_chunks: Vec<(PeerAddress, Vec<usize>)>,
    pub chunks_requested: Vec<(usize, u64)>,
    pub last_peers_asked_for_chunks: Vec<PeerAddress>,
    pub status_last_updated_time: u64,
    pub status: FileStatus,
    pub file_completion: u8,
}

impl SharedFile {
    /// The downloaded counter always equals the number of chunks marked
    /// downloaded.
    pub open spec fn downloaded_count_consistent(self) -> bool {
        self.download_metadata matches Some(dm) ==> dm.chunks_downloaded == count_downloaded(
            dm.file_chunks@,
        )
    }

    /// No chunk in flight is already downloaded.
    pub open spec fn in_flight_not_downloaded(self) -> bool {
        self.download_metadata matches Some(dm) ==> forall|k: int|
            0 <= k < self.chunks_requested@.len() ==> #[trigger] self.chunks_requested@[k].0
                < dm.file_chunks@.len() && !dm.file_chunks@[self.chunks_requested@[k].0 as int].downloaded
    }

    /// At most `MAX_CHUNKS_REQUESTED_AT_ONCE` chunk requests are in flight.
    pub open spec fn in_flight_within_budget(self) -> bool {
        self.chunks_requested@.len() <= MAX_CHUNKS_REQUESTED_AT_ONCE
    }

    /// Every peer entry names a distinct peer and offers only valid chunk
    /// indices.
    pub open spec fn peers_wf(self) -> bool {
        &&& forall|a: int, b: int|
            0 <= a < b < self.peers_with_available_chunks@.len()
                ==> #[trigger] self.peers_with_available_chunks@[a].0
                != #[trigger] self.peers_with_available_chunks@[b].0
        &&& self.download_metadata matches Some(dm) ==> forall|k: int, j: int|
            0 <= k < self.peers_with_available_chunks@.len() && 0 <= j
                < self.peers_with_available_chunks@[k].1@.len()
                ==> #[trigger] self.peers_with_available_chunks@[k].1@[j] < dm.file_chunks@.len()
    }

    /// The well-formedness of a shared file. A file holding a manifest is a
    /// download in progress whose completion percentage follows the
    /// manifest; a file without one is either complete or an empty
    /// placeholder awaiting a manifest.
    pub open spec fn wf(self) -> bool {
        &&& self.downloaded_count_consistent()
        &&& self.in_flight_not_downloaded()
        &&& self.in_flight_within_budget()
        &&& self.peers_wf()
        &&& reqs_unique(self.chunks_requested@)
        &&& match self.download_metadata {
            Some(dm) => {
                &&& self.file_size > 0
                &&& dm.file_chunks@.len() == spec_chunk_count(self.file_size)
                &&& chunks_wf(dm.file_chunks@, self.file_size)
                &&& self.file_completion == crate::chunks::spec_completion(
                    dm.chunks_downloaded as int,
                    dm.file_chunks@.len() as int,
                )
                &&& dm.chunks_downloaded < dm.file_chunks@.len()
                &&& self.file_completion < 100
            },
            None => {
                &&& (self.file_completion == 100 || (self.file_completion == 0 && self.file_size
                    == 0))
                &&& self.chunks_requested@.len() == 0
                &&& self.peers_with_available_chunks@.len() == 0
            },
        }
    }

    /// A complete local file: no manifest is held in memory, completion is
    /// full.
    pub fn create_finished(file_name: String, file_size: u64, now: u64) -> (r: SharedFile)
        requires
            file_size > 0,
        ensures
            r.wf(),
            r.file_name@ == file_name@,
            r.file_size == file_size,
            r.file_completion == 100,
            r.download_metadata is None,
            r.status == FileStatus::Idle,
            r.peers_with_available_chunks@.len() == 0,
            r.chunks_requested@.len() == 0,
            r.last_peers_asked_for_chunks@.len() == 0,
            r.status_last_updated_time == now,
    {
        SharedFile {
            file_name,
            file_size,
            download_metadata: None,
            peers_with_available_chunks: Vec::new(),
            chunks_requested: Vec::new(),
            last_peers_asked_for_chunks: Vec::new(),
            status_last_updated_time: now,
            status: FileStatus::Idle,
            file_completion: 100,
        }
    }

    /// An empty placeholder awaiting a manifest from a peer.
    pub fn create_placeholder(file_name: String, now: u64) -> (r: SharedFile)
        ensures
            r.wf(),
            r.file_name@ == file_name@,
            r.file_size == 0,
            r.file_completion == 0,
            r.download_metadata is None,
            r.status == FileStatus::Idle,
            r.peers_with_available_chunks@.len() == 0,
            r.chunks_requested@.len() == 0,
            r.last_peers_asked_for_chunks@.len() == 0,
            r.status_last_updated_time == now,
    {
        SharedFile {
            file_name,
            file_size: 0,
            download_metadata: None,
            peers_with_available_chunks: Vec::new(),
            chunks_requested: Vec::new(),
            last_peers_asked_for_chunks: Vec::new(),
            status_last_updated_time: now,
            status: FileStatus::Idle,
            file_completion: 0,
        }
    }

    /// Checks that a manifest fits a file of `file_size` bytes: the chunk
    /// count follows from the size and every position is its index times
    /// the piece size.
    pub fn check_manifest_layout(dm: &DownloadMetadata, file_size: u64) -> (r: Result<
        (),
        MetadataError,
    >)
        ensures
            r is Ok <==> file_size > 0 && chunks_wf(dm.file_chunks@, file_size),
            r matches Err(e) ==> (e == MetadataError::EmptyFile || e
                == MetadataError::WrongChunkCount || e == MetadataError::WrongChunkPosition),
    {
        if file_size == 0 {
            return Err(MetadataError::EmptyFile);
        }
        let expected = crate::chunk_count(file_size);
        proof {
            crate::chunks::lemma_chunk_count_bound(file_size);
        }
        if dm.file_chunks.len() as u64 != expected {
            return Err(MetadataError::WrongChunkCount);
        }
        let mut i: usize = 0;
        while i < dm.file_chunks.len()
            invariant
                0 <= i <= dm.file_chunks@.len(),
                dm.file_chunks@.len() == spec_chunk_count(file_size),
                dm.file_chunks@.len() <= 0x4000_0000_0000,
                forall|k: int|
                    0 <= k < i ==> #[trigger] dm.file_chunks@[k].position == k * (
                    FILE_PIECE_SIZE as int),
            decreases dm.file_chunks@.len() - i,
        {
            if dm.file_chunks[i].position != (i as u64) * FILE_PIECE_SIZE {
                return Err(MetadataError::WrongChunkPosition);
            }
            i = i + 1;
        }
        Ok(())
    }

    /// Counts the chunks of a manifest marked downloaded.
    pub fn count_downloaded_chunks(dm: &DownloadMetadata) -> (r: usize)
        ensures
            r == count_downloaded(dm.file_chunks@),
    {
        proof {
            lemma_count_downloaded_bounds(dm.file_chunks@);
        }
        let mut n: usize = 0;
        let mut i: usize = 0;
        while i < dm.file_chunks.len()
            invariant
                0 <= i <= dm.file_chunks@.len(),
                n == count_downloaded(dm.file_chunks@.take(i as int)),
                n <= i,
            decreases dm.file_chunks@.len() - i,
        {
            proof {
                assert(dm.file_chunks@.take(i + 1).drop_last() =~= dm.file_chunks@.take(i as int));
                assert(dm.file_chunks@.take(i + 1).last() == dm.file_chunks@[i as int]);
            }
            if dm.file_chunks[i].downloaded {
                n = n + 1;
            }
            i = i + 1;
        }
        proof {
            assert(dm.file_chunks@.take(dm.file_chunks@.len() as int) =~= dm.file_chunks@);
        }
        n
    }

    /// Rebuilds the record of a partial download from its manifest, as
    /// decoded from the trailer of the on-disk file. The downloaded counter
    /// is recomputed from the flags, so the record is consistent whatever
    /// the trailer held. Fails on a manifest that does not fit the size or
    /// that marks every chunk downloaded.
    pub fn create_resumed(
        file_name: String,
        file_size: u64,
        dm: DownloadMetadata,
        now: u64,
    ) -> (r: Result<SharedFile, MetadataError>)
        ensures
            r matches Ok(sf) ==> {
                &&& sf.wf()
                &&& sf.file_name@ == file_name@
                &&& sf.file_size == file_size
                &&& sf.download_metadata matches Some(d) && d.file_chunks@ == dm.file_chunks@
                    && d.file_hash == dm.file_hash
                &&& sf.file_completion < 100
                &&& sf.peers_with_available_chunks@.len() == 0
                &&& sf.chunks_requested@.len() == 0
                &&& sf.last_peers_asked_for_chunks@.len() == 0
            },
            r is Ok <==> file_size > 0 && chunks_wf(dm.file_chunks@, file_size)
                && count_downloaded(dm.file_chunks@) < dm.file_chunks@.len(),
    {
        if let Err(e) = Self::check_manifest_layout(&dm, file_size) {
            return Err(e);
        }
        let counted = Self::count_downloaded_chunks(&dm);
        proof {
            lemma_count_downloaded_bounds(dm.file_chunks@);
        }
        if counted >= dm.file_chunks.len() {
            return Err(MetadataError::AlreadyComplete);
        }
        let dm = DownloadMetadata {
            file_chunks: dm.file_chunks,
            file_hash: dm.file_hash,
            chunks_downloaded: counted,
        };
        let completion = completion_percent(&dm, file_size);
        Ok(
            SharedFile {
                file_name,
                file_size,
                download_metadata: Some(dm),
                peers_with_available_chunks: Vec::new(),
                chunks_requested: Vec::new(),
                last_peers_asked_for_chunks: Vec::new(),
                status_last_updated_time: now,
                status: FileStatus::Idle,
                file_completion: completion,
            },
        )
    }

    /// The manifest when one is already held. For a complete file none is
    /// held and the caller starts background hashing instead.
    pub fn generate_metadata_for_share(&self) -> (r: Option<DownloadMetadata>)
        requires
            self.wf(),
        ensures
            match r {
                Some(dm) => self.download_metadata matches Some(d) && dm@ == d@,
                None => self.download_metadata is None,
            },
    {
        match &self.download_metadata {
            Some(dm) => Some(dm.clone()),
            None => None,
        }
    }

    /// The peers this file is currently downloading from.
    pub fn get_source_peers(&self) -> (r: Vec<PeerAddress>)
        ensures
            r@.len() == self.peers_with_available_chunks@.len(),
            forall|k: int|
                0 <= k < r@.len() ==> r@[k] == self.peers_with_available_chunks@[k].0,
    {
        let mut r: Vec<PeerAddress> = Vec::new();
        let mut i: usize = 0;
        while i < self.peers_with_available_chunks.len()
            invariant
                0 <= i <= self.peers_with_available_chunks@.len(),
                r@.len() == i,
                forall|k: int|
                    0 <= k < i ==> r@[k] == self.peers_with_available_chunks@[k].0,
            decreases self.peers_with_available_chunks@.len() - i,
        {
            r.push(self.peers_with_available_chunks[i].0);
            i = i + 1;
        }
        r
    }

    /// Whether a manifest is held in memory.
    pub fn has_download_metadata(&self) -> (r: bool)
        ensures
            r == (self.download_metadata is Some),
    {
        self.download_metadata.is_some()
    }

    /// Whether the file is complete.
    pub fn is_finished(&self) -> (r: bool)
        ensures
            r == (self.file_completion == 100),
    {
        self.file_completion == 100
    }

    /// Whether the file is an empty placeholder.
    pub fn is_empty_file(&self) -> (r: bool)
        ensures
            r == (self.file_size == 0),
    {
        self.file_size == 0
    }

    /// The payload size in bytes.
    pub fn file_size(&self) -> (r: u64)
        ensures
            r == self.file_size,
    {
        self.file_size
    }

    /// The name under which the file is shared.
    pub fn file_name(&self) -> (r: String)
        ensures
            r@ == self.file_name@,
    {
        self.file_name.clone()
    }

    /// Forgets that `peer` holds chunks of this file.
    pub fn remove_source_peer(&mut self, peer: PeerAddress)
        requires
            old(self).wf(),
        ensures
            final(self).wf(),
            table_view(final(self).peers_with_available_chunks@) == table_view(
                old(self).peers_with_available_chunks@,
            ).filter(|e: (PeerAddress, Seq<usize>)| e.0 != peer),
            final(self).download_metadata == old(self).download_metadata,
            final(self).file_size == old(self).file_size,
            final(self).file_completion == old(self).file_completion,
            final(self).chunks_requested == old(self).chunks_requested,
            final(self).file_name == old(self).file_name,
            final(self).status == old(self).status,
            final(self).status_last_updated_time == old(self).status_last_updated_time,
    {
        let ghost pred = |e: (PeerAddress, Seq<usize>)| e.0 != peer;
        let ghost vorig = table_view(self.peers_with_available_chunks@);
        let mut out: Vec<(PeerAddress, Vec<usize>)> = Vec::new();
        let mut i: usize = 0;
        while i < self.peers_with_available_chunks.len()
            invariant
                0 <= i <= self.peers_with_available_chunks@.len(),
                vorig == table_view(self.peers_with_available_chunks@),
                vorig.len() == self.peers_with_available_chunks@.len(),
                pred == (|e: (PeerAddress, Seq<usize>)| e.0 != peer),
                table_view(out@) == vorig.take(i as int).filter(pred),
            decreases self.peers_with_available_chunks@.len() - i,
        {
            proof {
                assert(vorig.take(i + 1).drop_last() == vorig.take(i as int));
                assert(vorig.take(i + 1).last() == vorig[i as int]);
                reveal_with_fuel(Seq::filter, 2);
            }
            let entry = &self.peers_with_available_chunks[i];
            proof {
                assert(vorig[i as int] == (entry.0, entry.1@));
            }
            if !(entry.0.ip == peer.ip && entry.0.port == peer.port) {
                let offers = clone_usizes(&entry.1);
                let p = entry.0;
                let ghost before = table_view(out@);
                out.push((p, offers));
                proof {
                    assert(table_view(out@) =~= before.push((p, offers@)));
                }
            }
            i = i + 1;
        }
        proof {
            assert(vorig.take(vorig.len() as int) == vorig);
        }
        self.peers_with_available_chunks = out;
        proof {
            lemma_table_filter_unique(vorig, pred);
            let fs = self.peers_with_available_chunks@;
            let vfs = table_view(fs);
            assert forall|a: int, b: int|
                0 <= a < b < fs.len() implies #[trigger] fs[a].0 != #[trigger] fs[b].0 by {
                assert(vfs[a].0 == fs[a].0 && vfs[b].0 == fs[b].0);
            }
            if self.download_metadata is Some {
                let dm = self.download_metadata->Some_0;
                assert forall|k: int, j: int|
                    0 <= k < fs.len() && 0 <= j < fs[k].1@.len() implies #[trigger] fs[k].1@[j]
                    < dm.file_chunks@.len() by {
                    let j0 = choose|j0: int| 0 <= j0 < vorig.len() && vfs[k] == vorig[j0];
                    assert(fs[k].1@ == vorig[j0].1);
                    assert(vorig[j0].1 == old(self).peers_with_available_chunks@[j0].1@);
                }
            }
        }
    }

    /// Falls back to the idle status after fifteen seconds without a
    /// transfer; reports whether the status was refreshed.
    pub fn update_status_if_needed(&mut self, now: u64) -> (r: bool)
        requires
            old(self).wf(),
        ensures
            final(self).wf(),
            r == (now >= old(self).status_last_updated_time + IDLE_TIME_UNTIL_STATUS_CHANGE_MS),
            r ==> final(self).status == FileStatus::Idle,
            !r ==> *final(self) == *old(self),
            final(self).download_metadata == old(self).download_metadata,
            final(self).file_completion == old(self).file_completion,
            final(self).file_name == old(self).file_name,
            final(self).file_size == old(self).file_size,
            final(self).chunks_requested == old(self).chunks_requested,
            final(self).peers_with_available_chunks == old(self).peers_with_available_chunks,
            final(self).last_peers_asked_for_chunks == old(self).last_peers_asked_for_chunks,
            final(self).status_last_updated_time == old(self).status_last_updated_time,
    {
        if now >= self.status_last_updated_time
            && now - self.status_last_updated_time >= IDLE_TIME_UNTIL_STATUS_CHANGE_MS {
            self.status = FileStatus::Idle;
            true
        } else {
            false
        }
    }
}

/// Copies an index vector element by element.
pub fn clone_usizes(v: &Vec<usize>) -> (r: Vec<usize>)
    ensures
        r@ == v@,
{
    let mut r: Vec<usize> = Vec::new();
    let mut i: usize = 0;
    while i < v.len()
        invariant
            0 <= i <= v@.len(),
            r@ == v@.take(i as int),
        decreases v@.len() - i,
    {
        r.push(v[i]);
        proof {
            assert(v@.take(i + 1) =~= v@.take(i as int).push(v@[i as int]));
        }
        i = i + 1;
    }
    proof {
        assert(v@.take(v@.len() as int) =~= v@);
    }
    r
}

/// Filtering the peer table keeps distinct peers distinct, every kept
/// entry is an entry of the original, and every kept entry satisfies the
/// predicate.
pub proof fn lemma_table_filter_unique(
    v: Seq<(PeerAddress, Seq<usize>)>,
    pred: spec_fn((PeerAddress, Seq<usize>)) -> bool,
)
    requires
        forall|a: int, b: int| 0 <= a < b < v.len() ==> v[a].0 != v[b].0,
    ensures
        ({
            let f = v.filter(pred);
            &&& forall|a: int, b: int| 0 <= a < b < f.len() ==> f[a].0 != f[b].0
            &&& forall|k: int|
                0 <= k < f.len() ==> exists|j: int| 0 <= j < v.len() && #[trigger] f[k] == v[j]
            &&& forall|k: int| 0 <= k < f.len() ==> pred(#[trigger] f[k])
        }),
    decreases v.len(),
{
    reveal_with_fuel(Seq::filter, 2);
    let f = v.filter(pred);
    if v.len() == 0 {
    } else {
        let vd = v.drop_last();
        assert(forall|a: int, b: int| 0 <= a < b < vd.len() ==> vd[a] == v[a] && vd[b] == v[b]);
        lemma_table_filter_unique(vd, pred);
        let fd = vd.filter(pred);
        assert forall|k: int| 0 <= k < f.len() implies exists|j: int|
            0 <= j < v.len() && #[trigger] f[k] == v[j] by {
            if k < fd.len() {
                assert(f[k] == fd[k]);
                let j = choose|j: int| 0 <= j < vd.len() && fd[k] == vd[j];
                assert(f[k] == v[j]);
            } else {
                assert(f[k] == v.last());
                assert(f[k] == v[v.len() - 1]);
            }
        }
        assert forall|a: int, b: int| 0 <= a < b < f.len() implies f[a].0 != f[b].0 by {
            if b < fd.len() {
                assert(f[a] == fd[a] && f[b] == fd[b]);
            } else {
                assert(f[a] == fd[a]);
                let j = choose|j: int| 0 <= j < vd.len() && fd[a] == vd[j];
                assert(f[a].0 == v[j].0);
                assert(f[b] == v.last());
            }
        }
    }
}

} // verus!

verus! {

use crate::chunks::FileChunk;
use crate::codec::{enc_metadata, enc_u64, write_metadata, write_u64};
use crate::message::MetadataView;
use crate::CHUNK_REQUEST_TIMEOUT_MS;

/// No request index occurring twice survives filtering, and every kept
/// request is a request of the original.
pub proof fn lemma_reqs_filter_unique(v: Seq<(usize, u64)>, pred: spec_fn((usize, u64)) -> bool)
    requires
        reqs_unique(v),
    ensures
        ({
            let f = v.filter(pred);
            &&& reqs_unique(f)
            &&& forall|k: int|
                0 <= k < f.len() ==> exists|j: int| 0 <= j < v.len() && #[trigger] f[k] == v[j]
            &&& forall|k: int| 0 <= k < f.len() ==> pred(#[trigger] f[k])
        }),
    decreases v.len(),
{
    reveal_with_fuel(Seq::filter, 2);
    let f = v.filter(pred);
    if v.len() == 0 {
    } else {
        let vd = v.drop_last();
        assert(forall|a: int, b: int| 0 <= a < b < vd.len() ==> vd[a] == v[a] && vd[b] == v[b]);
        lemma_reqs_filter_unique(vd, pred);
        let fd = vd.filter(pred);
        assert forall|k: int| 0 <= k < f.len() implies exists|j: int|
            0 <= j < v.len() && #[trigger] f[k] == v[j] by {
            if k < fd.len() {
                assert(f[k] == fd[k]);
                let j = choose|j: int| 0 <= j < vd.len() && fd[k] == vd[j];
                assert(f[k] == v[j]);
            } else {
                assert(f[k] == v[v.len() - 1]);
            }
        }
        assert forall|a: int, b: int| 0 <= a < b < f.len() implies f[a].0 != f[b].0 by {
            if b < fd.len() {
                assert(f[a] == fd[a] && f[b] == fd[b]);
            } else {
                assert(f[a] == fd[a]);
                let j = choose|j: int| 0 <= j < vd.len() && fd[a] == vd[j];
                assert(f[a].0 == v[j].0);
                assert(f[b] == v.last());
            }
        }
    }
}

/// The requests that have not yet timed out at `now`.
pub open spec fn live_requests(s: Seq<(usize, u64)>, now: u64) -> Seq<(usize, u64)> {
    s.filter(|q: (usize, u64)| q.1 + CHUNK_REQUEST_TIMEOUT_MS > now)
}

/// The peer-table entries that still offer at least one chunk.
pub open spec fn nonempty_peers(v: Seq<(PeerAddress, Seq<usize>)>) -> Seq<
    (PeerAddress, Seq<usize>),
> {
    v.filter(|e: (PeerAddress, Seq<usize>)| e.1.len() > 0)
}

/// The chunk indices that `peer_chunks` marks downloaded and `ours` does
/// not, in increasing order over the first `n` indices.
pub open spec fn offer_seq(peer_chunks: Seq<FileChunk>, ours: Seq<FileChunk>, n: int) -> Seq<usize>
    decreases n,
{
    if n <= 0 {
        Seq::<usize>::empty()
    } else {
        let p = offer_seq(peer_chunks, ours, n - 1);
        if peer_chunks[n - 1].downloaded && !ours[n - 1].downloaded {
            p.push((n - 1) as usize)
        } else {
            p
        }
    }
}

/// Every index in the offer sequence is below `n`, is marked downloaded by
/// the peer and not by us.
pub proof fn lemma_offer_seq_props(peer_chunks: Seq<FileChunk>, ours: Seq<FileChunk>, n: int)
    requires
        n <= peer_chunks.len(),
        n <= ours.len(),
        n <= usize::MAX,
    ensures
        ({
            let o = offer_seq(peer_chunks, ours, n);
            forall|j: int|
                0 <= j < o.len() ==> #[trigger] o[j] < n && peer_chunks[o[j] as int].downloaded
                    && !ours[o[j] as int].downloaded
        }),
    decreases n,
{
    if n > 0 {
        lemma_offer_seq_props(peer_chunks, ours, n - 1);
        let o = offer_seq(peer_chunks, ours, n);
        let p = offer_seq(peer_chunks, ours, n - 1);
        assert forall|j: int|
            0 <= j < o.len() implies #[trigger] o[j] < n && peer_chunks[o[j] as int].downloaded
            && !ours[o[j] as int].downloaded by {
            if j < p.len() {
                assert(o[j] == p[j]);
            } else {
                assert(o[j] == n - 1);
            }
        }
    }
}

/// Two manifests describe the same file: same chunk count, same per-chunk
/// digests and positions, same whole-file digest.
pub open spec fn metadata_matches(a: MetadataView, b: MetadataView) -> bool {
    &&& a.chunks.len() == b.chunks.len()
    &&& forall|i: int|
        0 <= i < a.chunks.len() ==> #[trigger] a.chunks[i].hash == b.chunks[i].hash
            && a.chunks[i].position == b.chunks[i].position
    &&& a.file_hash == b.file_hash
}

/// The byte form of the trailer kept after the payload of a partial file:
/// the encoded manifest, then the payload size as eight little-endian
/// bytes.
pub open spec fn trailer_bytes(m: MetadataView, file_size: u64) -> Seq<u8> {
    enc_metadata(m) + enc_u64(file_size)
}

/// Encodes the trailer of a partial file.
pub fn encode_trailer(dm: &crate::chunks::DownloadMetadata, file_size: u64) -> (r: Vec<u8>)
    ensures
        r@ == trailer_bytes(dm@, file_size),
{
    let mut out: Vec<u8> = Vec::new();
    write_metadata(&mut out, dm);
    write_u64(&mut out, file_size);
    proof {
        assert(out@ =~= trailer_bytes(dm@, file_size));
    }
    out
}

/// Decodes the manifest part of a trailer; every byte must be used.
pub fn decode_trailer_metadata(bytes: &Vec<u8>) -> (r: Option<crate::chunks::DownloadMetadata>)
    ensures
        match r {
            Some(dm) => crate::codec::dec_metadata(bytes@) matches Some((m, n)) && m == dm@ && n
                == bytes@.len(),
            None => !(crate::codec::dec_metadata(bytes@) matches Some((m, n)) && n
                == bytes@.len()),
        },
{
    proof {
        assert(bytes@.skip(0) =~= bytes@);
    }
    match crate::codec::read_metadata(bytes, 0) {
        None => None,
        Some((dm, end)) => {
            if end == bytes.len() {
                Some(dm)
            } else {
                None
            }
        },
    }
}

/// A manifest written as a trailer and decoded again is unchanged: a
/// download interrupted and resumed from the on-disk trailer starts from
/// exactly the recorded chunk state.
pub proof fn lemma_trailer_round_trip(m: MetadataView, file_size: u64)
    requires
        m.chunks.len() <= usize::MAX,
    ensures
        ({
            let t = trailer_bytes(m, file_size);
            let manifest_part = t.take(t.len() - 8);
            let size_part = t.skip(t.len() - 8);
            &&& crate::codec::dec_metadata(manifest_part) == Some(
                (m, manifest_part.len() as int),
            )
            &&& crate::codec::dec_u64(size_part) == Some((file_size, 8int))
        }),
{
    let t = trailer_bytes(m, file_size);
    crate::codec::lemma_dec_enc_metadata(m, Seq::<u8>::empty());
    crate::codec::lemma_dec_enc_u64(file_size, Seq::<u8>::empty());
    assert(t.take(t.len() - 8) =~= enc_metadata(m) + Seq::<u8>::empty());
    assert(t.skip(t.len() - 8) =~= enc_u64(file_size) + Seq::<u8>::empty());
}

impl SharedFile {
    /// Drops every in-flight request older than the chunk timeout.
    pub fn expire_requests(&mut self, now: u64)
        requires
            old(self).wf(),
        ensures
            final(self).wf(),
            final(self).chunks_requested@ == live_requests(old(self).chunks_requested@, now),
            final(self).download_metadata == old(self).download_metadata,
            final(self).peers_with_available_chunks == old(self).peers_with_available_chunks,
            final(self).last_peers_asked_for_chunks == old(self).last_peers_asked_for_chunks,
            final(self).file_size == old(self).file_size,
            final(self).file_completion == old(self).file_completion,
            final(self).status == old(self).status,
            final(self).status_last_updated_time == old(self).status_last_updated_time,
            final(self).file_name == old(self).file_name,
    {
        let ghost orig = self.chunks_requested@;
        let ghost pred = |q: (usize, u64)| q.1 + CHUNK_REQUEST_TIMEOUT_MS > now;
        let mut out: Vec<(usize, u64)> = Vec::new();
        let mut i: usize = 0;
        while i < self.chunks_requested.len()
            invariant
                0 <= i <= self.chunks_requested@.len(),
                self.chunks_requested@ == orig,
                pred == (|q: (usize, u64)| q.1 + CHUNK_REQUEST_TIMEOUT_MS > now),
                out@ == orig.take(i as int).filter(pred),
            decreases self.chunks_requested@.len() - i,
        {
            proof {
                assert(orig.take(i + 1).drop_last() == orig.take(i as int));
                assert(orig.take(i + 1).last() == orig[i as int]);
                reveal_with_fuel(Seq::filter, 2);
            }
            let q = self.chunks_requested[i];
            if q.1 > now || now - q.1 < CHUNK_REQUEST_TIMEOUT_MS {
                proof {
                    assert(pred(orig[i as int]));
                }
                out.push(q);
            }
            i = i + 1;
        }
        proof {
            assert(orig.take(orig.len() as int) == orig);
        }
        self.chunks_requested = out;
        proof {
            lemma_reqs_filter_unique(orig, pred);
            orig.lemma_filter_len(pred);
            let fs = self.chunks_requested@;
            if self.download_metadata is Some {
                let dm = self.download_metadata->Some_0;
                assert forall|k: int| 0 <= k < fs.len() implies #[trigger] fs[k].0
                    < dm.file_chunks@.len() && !dm.file_chunks@[fs[k].0 as int].downloaded by {
                    let j = choose|j: int| 0 <= j < orig.len() && fs[k] == orig[j];
                }
            }
        }
    }

    /// Drops peers whose offered-chunk set has become empty.
    pub fn drop_empty_peers(&mut self)
        requires
            old(self).wf(),
        ensures
            final(self).wf(),
            table_view(final(self).peers_with_available_chunks@) == nonempty_peers(
                table_view(old(self).peers_with_available_chunks@),
            ),
            final(self).chunks_requested == old(self).chunks_requested,
            final(self).last_peers_asked_for_chunks == old(self).last_peers_asked_for_chunks,
            final(self).download_metadata == old(self).download_metadata,
            final(self).file_size == old(self).file_size,
            final(self).file_completion == old(self).file_completion,
            final(self).status == old(self).status,
            final(self).status_last_updated_time == old(self).status_last_updated_time,
            final(self).file_name == old(self).file_name,
    {
        let ghost pred = |e: (PeerAddress, Seq<usize>)| e.1.len() > 0;
        let ghost vorig = table_view(self.peers_with_available_chunks@);
        let mut out: Vec<(PeerAddress, Vec<usize>)> = Vec::new();
        let mut i: usize = 0;
        while i < self.peers_with_available_chunks.len()
            invariant
                0 <= i <= self.peers_with_available_chunks@.len(),
                vorig == table_view(self.peers_with_available_chunks@),
                vorig.len() == self.peers_with_available_chunks@.len(),
                pred == (|e: (PeerAddress, Seq<usize>)| e.1.len() > 0),
                table_view(out@) == vorig.take(i as int).filter(pred),
            decreases self.peers_with_available_chunks@.len() - i,
        {
            proof {
                assert(vorig.take(i + 1).drop_last() == vorig.take(i as int));
                assert(vorig.take(i + 1).last() == vorig[i as int]);
                reveal_with_fuel(Seq::filter, 2);
            }
            let entry = &self.peers_with_available_chunks[i];
            proof {
                assert(vorig[i as int] == (entry.0, entry.1@));
            }
            if entry.1.len() > 0 {
                let offers = clone_usizes(&entry.1);
                let p = entry.0;
                let ghost before = table_view(out@);
                out.push((p, offers));
                proof {
                    assert(table_view(out@) =~= before.push((p, offers@)));
                }
            }
            i = i + 1;
        }
        proof {
            assert(vorig.take(vorig.len() as int) == vorig);
        }
        self.peers_with_available_chunks = out;
        proof {
            lemma_table_filter_unique(vorig, pred);
            let fs = self.peers_with_available_chunks@;
            let vfs = table_view(fs);
            assert forall|a: int, b: int|
                0 <= a < b < fs.len() implies #[trigger] fs[a].0 != #[trigger] fs[b].0 by {
                assert(vfs[a].0 == fs[a].0 && vfs[b].0 == fs[b].0);
            }
            if self.download_metadata is Some {
                let dm = self.download_metadata->Some_0;
                assert forall|k: int, j: int|
                    0 <= k < fs.len() && 0 <= j < fs[k].1@.len() implies #[trigger] fs[k].1@[j]
                    < dm.file_chunks@.len() by {
                    let j0 = choose|j0: int| 0 <= j0 < vorig.len() && vfs[k] == vorig[j0];
                    assert(fs[k].1@ == vorig[j0].1);
                    assert(vorig[j0].1 == old(self).peers_with_available_chunks@[j0].1@);
                }
            }
        }
    }
}

} // verus!

verus! {

use vstd::string::StringExecFns;

/// The indices of the chunks marked downloaded among the first `n`.
pub open spec fn downloaded_idx_seq(chunks: Seq<FileChunk>, n: int) -> Seq<usize>
    decreases n,
{
    if n <= 0 {
        Seq::<usize>::empty()
    } else {
        let p = downloaded_idx_seq(chunks, n - 1);
        if chunks[n - 1].downloaded {
            p.push((n - 1) as usize)
        } else {
            p
        }
    }
}

/// Every index in the downloaded-index sequence is below `n` and marked
/// downloaded.
pub proof fn lemma_downloaded_idx_seq_props(chunks: Seq<FileChunk>, n: int)
    requires
        n <= chunks.len(),
        n <= usize::MAX,
    ensures
        ({
            let o = downloaded_idx_seq(chunks, n);
            forall|j: int|
                0 <= j < o.len() ==> #[trigger] o[j] < n && chunks[o[j] as int].downloaded
        }),
    decreases n,
{
    if n > 0 {
        lemma_downloaded_idx_seq_props(chunks, n - 1);
        let o = downloaded_idx_seq(chunks, n);
        let p = downloaded_idx_seq(chunks, n - 1);
        assert forall|j: int|
            0 <= j < o.len() implies #[trigger] o[j] < n && chunks[o[j] as int].downloaded by {
            if j < p.len() {
                assert(o[j] == p[j]);
            } else {
                assert(o[j] == n - 1);
            }
        }
    }
}

impl SharedFile {
    /// Records that `peer` offers exactly the chunks in `offers`, replacing
    /// any earlier record for that peer.
    pub fn set_peer_offers(&mut self, peer: PeerAddress, offers: Vec<usize>)
        requires
            old(self).wf(),
            old(self).download_metadata is Some,
            old(self).download_metadata matches Some(dm) ==> forall|j: int|
                0 <= j < offers@.len() ==> #[trigger] offers@[j] < dm.file_chunks@.len(),
        ensures
            final(self).wf(),
            table_view(final(self).peers_with_available_chunks@) == table_view(
                old(self).peers_with_available_chunks@,
            ).filter(|e: (PeerAddress, Seq<usize>)| e.0 != peer).push((peer, offers@)),
            final(self).download_metadata == old(self).download_metadata,
            final(self).file_size == old(self).file_size,
            final(self).file_completion == old(self).file_completion,
            final(self).chunks_requested == old(self).chunks_requested,
            final(self).file_name == old(self).file_name,
            final(self).status == old(self).status,
            final(self).status_last_updated_time == old(self).status_last_updated_time,
    {
        let ghost pred = |e: (PeerAddress, Seq<usize>)| e.0 != peer;
        let ghost vorig = table_view(self.peers_with_available_chunks@);
        self.remove_source_peer(peer);
        let ghost mid = table_view(self.peers_with_available_chunks@);
        let ghost offers_view = offers@;
        self.peers_with_available_chunks.push((peer, offers));
        proof {
            lemma_table_filter_unique(vorig, pred);
            let fs = self.peers_with_available_chunks@;
            let vfs = table_view(fs);
            assert(vfs =~= mid.push((peer, offers_view)));
            assert forall|a: int, b: int|
                0 <= a < b < fs.len() implies #[trigger] fs[a].0 != #[trigger] fs[b].0 by {
                assert(vfs[a].0 == fs[a].0 && vfs[b].0 == fs[b].0);
                if b == fs.len() - 1 {
                    assert(vfs[a] == mid[a]);
                    assert(pred(mid[a]));
                } else {
                    assert(vfs[a] == mid[a] && vfs[b] == mid[b]);
                }
            }
            if self.download_metadata is Some {
                let dm = self.download_metadata->Some_0;
                assert forall|k: int, j: int|
                    0 <= k < fs.len() && 0 <= j < fs[k].1@.len() implies #[trigger] fs[k].1@[j]
                    < dm.file_chunks@.len() by {
                    if k < fs.len() - 1 {
                        assert(vfs[k] == mid[k]);
                        let j0 = choose|j0: int| 0 <= j0 < vorig.len() && mid[k] == vorig[j0];
                        assert(fs[k].1@ == vorig[j0].1);
                        assert(vorig[j0].1 == old(self).peers_with_available_chunks@[j0].1@);
                    } else {
                        assert(fs[k].1@ == offers_view);
                    }
                }
            }
        }
    }

    /// Checks that a peer's manifest describes the same file as ours, and
    /// on a match records which chunks the peer can supply: those its copy
    /// marks downloaded and ours does not. On a mismatch the record is
    /// unchanged and a diagnostic is returned.
    #[verifier::loop_isolation(false)]
    pub fn compare_download_metadata(&mut self, peer: PeerAddress, peer_dm: &DownloadMetadata) -> (r:
        Option<String>)
        requires
            old(self).wf(),
            old(self).download_metadata is Some,
        ensures
            final(self).wf(),
            r is None <==> metadata_matches(
                old(self).download_metadata->Some_0@,
                peer_dm@,
            ),
            r is Some ==> *final(self) == *old(self),
            r is None ==> {
                &&& table_view(final(self).peers_with_available_chunks@) == table_view(
                    old(self).peers_with_available_chunks@,
                ).filter(|e: (PeerAddress, Seq<usize>)| e.0 != peer).push(
                    (
                        peer,
                        offer_seq(
                            peer_dm.file_chunks@,
                            old(self).download_metadata->Some_0.file_chunks@,
                            peer_dm.file_chunks@.len() as int,
                        ),
                    ),
                )
                &&& final(self).download_metadata == old(self).download_metadata
                &&& final(self).file_size == old(self).file_size
                &&& final(self).file_completion == old(self).file_completion
                &&& final(self).chunks_requested == old(self).chunks_requested
                &&& final(self).file_name == old(self).file_name
                &&& final(self).status == old(self).status
                &&& final(self).status_last_updated_time == old(self).status_last_updated_time
            },
    {
        let matched: bool;
        let mut offers: Vec<usize> = Vec::new();
        match &self.download_metadata {
            None => {
                matched = false;
            },
            Some(dm) => {
                if peer_dm.file_chunks.len() != dm.file_chunks.len() {
                    return Some(String::from_str("peer manifest differs in chunk count"));
                }
                let mut i: usize = 0;
                while i < dm.file_chunks.len()
                    invariant
                        0 <= i <= dm.file_chunks@.len(),
                        dm.file_chunks@.len() == peer_dm.file_chunks@.len(),
                        forall|k: int|
                            0 <= k < i ==> (#[trigger] dm.file_chunks@[k]).hash
                                == peer_dm.file_chunks@[k].hash && dm.file_chunks@[k].position
                                == peer_dm.file_chunks@[k].position,
                    decreases dm.file_chunks@.len() - i,
                {
                    if !(peer_dm.file_chunks[i].hash == dm.file_chunks[i].hash) {
                        proof {
                            assert(dm.file_chunks@[i as int].hash
                                != peer_dm.file_chunks@[i as int].hash);
                            assert(!metadata_matches(dm@, peer_dm@));
                        }
                        return Some(String::from_str("peer manifest differs in a chunk digest"));
                    }
                    if peer_dm.file_chunks[i].position != dm.file_chunks[i].position {
                        proof {
                            assert(dm.file_chunks@[i as int].position
                                != peer_dm.file_chunks@[i as int].position);
                            assert(!metadata_matches(dm@, peer_dm@));
                        }
                        return Some(
                            String::from_str("peer manifest differs in a chunk position"),
                        );
                    }
                    proof {
                        assert(dm.file_chunks@[i as int].hash
                            == peer_dm.file_chunks@[i as int].hash);
                        assert(dm.file_chunks@[i as int].position
                            == peer_dm.file_chunks@[i as int].position);
                    }
                    i = i + 1;
                }
                if !(peer_dm.file_hash == dm.file_hash) {
                    return Some(String::from_str("peer manifest differs in the file digest"));
                }
                let mut j: usize = 0;
                while j < peer_dm.file_chunks.len()
                    invariant
                        0 <= j <= peer_dm.file_chunks@.len(),
                        dm.file_chunks@.len() == peer_dm.file_chunks@.len(),
                        offers@ == offer_seq(peer_dm.file_chunks@, dm.file_chunks@, j as int),
                    decreases peer_dm.file_chunks@.len() - j,
                {
                    if peer_dm.file_chunks[j].downloaded && !dm.file_chunks[j].downloaded {
                        offers.push(j);
                    }
                    j = j + 1;
                }
                matched = true;
            },
        }
        if matched {
            proof {
                let dm = self.download_metadata->Some_0;
                lemma_offer_seq_props(
                    peer_dm.file_chunks@,
                    dm.file_chunks@,
                    peer_dm.file_chunks@.len() as int,
                );
            }
            self.set_peer_offers(peer, offers);
            None
        } else {
            Some(String::from_str("no manifest is held for this file"))
        }
    }
}

} // verus!

verus! {

/// The reads that answer a chunk request against a file of `size` bytes:
/// each requested pair whose position lies inside the file, in request
/// order, with the number of bytes from that position to the end of its
/// piece or of the file.
pub open spec fn read_plan(requested: Seq<(usize, u64)>, size: u64) -> Seq<(usize, u64, u64)>
    decreases requested.len(),
{
    if requested.len() == 0 {
        Seq::<(usize, u64, u64)>::empty()
    } else {
        let rest = read_plan(requested.drop_first(), size);
        let idx = requested[0].0;
        let pos = requested[0].1;
        if pos < size {
            seq![
                (
                    idx,
                    pos,
                    if pos + FILE_PIECE_SIZE <= size {
                        FILE_PIECE_SIZE as u64
                    } else {
                        (size - pos) as u64
                    },
                ),
            ] + rest
        } else {
            rest
        }
    }
}

impl SharedFile {
    /// Installs a manifest received from a peer into an empty placeholder.
    /// The peer is recorded as holding the chunks its copy marks
    /// downloaded; the local copy starts with every chunk missing. Returns
    /// the trailer to append to the backing file once it has been extended
    /// to `file_size` bytes. Fails, leaving the record unchanged, on a
    /// manifest that does not fit the size.
    #[verifier::loop_isolation(false)]
    pub fn insert_download_metadata(
        &mut self,
        peer: PeerAddress,
        file_size: u64,
        dm: &DownloadMetadata,
    ) -> (r: Result<Vec<u8>, MetadataError>)
        requires
            old(self).wf(),
            old(self).download_metadata is None,
            old(self).file_size == 0,
        ensures
            final(self).wf(),
            r is Ok <==> file_size > 0 && chunks_wf(dm.file_chunks@, file_size),
            r is Err ==> *final(self) == *old(self),
            r matches Ok(bytes) ==> {
                &&& final(self).file_size == file_size
                &&& final(self).download_metadata matches Some(d) && {
                    &&& d.file_chunks@.len() == dm.file_chunks@.len()
                    &&& forall|i: int|
                        0 <= i < d.file_chunks@.len() ==> (#[trigger] d.file_chunks@[i]).hash
                            == dm.file_chunks@[i].hash && d.file_chunks@[i].position
                            == dm.file_chunks@[i].position && !d.file_chunks@[i].downloaded
                    &&& d.file_hash == dm.file_hash
                    &&& d.chunks_downloaded == 0
                    &&& bytes@ == trailer_bytes(d@, file_size)
                }
                &&& table_view(final(self).peers_with_available_chunks@) == seq![
                    (peer, downloaded_idx_seq(dm.file_chunks@, dm.file_chunks@.len() as int)),
                ]
                &&& final(self).chunks_requested@.len() == 0
                &&& final(self).file_completion < 100
                &&& final(self).file_name == old(self).file_name
            },
    {
        if let Err(e) = Self::check_manifest_layout(dm, file_size) {
            return Err(e);
        }
        let mut new_chunks: Vec<FileChunk> = Vec::new();
        let mut offers: Vec<usize> = Vec::new();
        let mut i: usize = 0;
        while i < dm.file_chunks.len()
            invariant
                0 <= i <= dm.file_chunks@.len(),
                new_chunks@.len() == i,
                forall|k: int|
                    0 <= k < i ==> (#[trigger] new_chunks@[k]).hash == dm.file_chunks@[k].hash
                        && new_chunks@[k].position == dm.file_chunks@[k].position
                        && !new_chunks@[k].downloaded,
                offers@ == downloaded_idx_seq(dm.file_chunks@, i as int),
            decreases dm.file_chunks@.len() - i,
        {
            let c = dm.file_chunks[i];
            new_chunks.push(FileChunk { position: c.position, hash: c.hash, downloaded: false });
            if c.downloaded {
                offers.push(i);
            }
            i = i + 1;
        }
        let new_dm = DownloadMetadata {
            file_chunks: new_chunks,
            file_hash: dm.file_hash,
            chunks_downloaded: 0,
        };
        proof {
            crate::chunks::lemma_count_downloaded_none(new_dm.file_chunks@);
            assert(chunks_wf(new_dm.file_chunks@, file_size));
            lemma_downloaded_idx_seq_props(dm.file_chunks@, dm.file_chunks@.len() as int);
        }
        let completion = completion_percent(&new_dm, file_size);
        let trailer = encode_trailer(&new_dm, file_size);
        self.file_size = file_size;
        self.file_completion = completion;
        self.download_metadata = Some(new_dm);
        self.peers_with_available_chunks = vec![(peer, offers)];
        proof {
            let vfs = table_view(self.peers_with_available_chunks@);
            assert(vfs =~= seq![
                (peer, downloaded_idx_seq(dm.file_chunks@, dm.file_chunks@.len() as int)),
            ]);
        }
        Ok(trailer)
    }

    /// Plans the disk reads that answer a chunk request: for each requested
    /// chunk whose position lies inside the file, the position and the
    /// number of bytes to read, a full piece or the shorter final piece.
    /// Serving a request moves an idle file to the seeding status.
    #[verifier::loop_isolation(false)]
    pub fn get_file_chunks(&mut self, requested: &Vec<(usize, u64)>, now: u64) -> (r: Vec<
        (usize, u64, u64),
    >)
        requires
            old(self).wf(),
        ensures
            final(self).wf(),
            r@ == read_plan(requested@, old(self).file_size),
            forall|k: int|
                0 <= k < r@.len() ==> {
                    &&& (#[trigger] r@[k]).1 < old(self).file_size
                    &&& r@[k].2 == if r@[k].1 + FILE_PIECE_SIZE <= old(self).file_size {
                        FILE_PIECE_SIZE as int
                    } else {
                        old(self).file_size - r@[k].1
                    }
                    &&& exists|q: int|
                        0 <= q < requested@.len() && (#[trigger] requested@[q]).0 == r@[k].0
                            && requested@[q].1 == r@[k].1
                },
            final(self).status == if old(self).status == FileStatus::Idle {
                FileStatus::Seeding
            } else {
                old(self).status
            },
            final(self).status_last_updated_time == now,
            final(self).download_metadata == old(self).download_metadata,
            final(self).file_size == old(self).file_size,
            final(self).file_completion == old(self).file_completion,
            final(self).chunks_requested == old(self).chunks_requested,
            final(self).peers_with_available_chunks == old(self).peers_with_available_chunks,
            final(self).file_name == old(self).file_name,
            final(self).last_peers_asked_for_chunks == old(self).last_peers_asked_for_chunks,
    {
        let mut plan: Vec<(usize, u64, u64)> = Vec::new();
        let mut i: usize = 0;
        proof {
            assert(requested@.skip(0) =~= requested@);
            assert(plan@ + read_plan(requested@.skip(0), self.file_size) =~= read_plan(
                requested@,
                self.file_size,
            ));
        }
        while i < requested.len()
            invariant
                0 <= i <= requested@.len(),
                read_plan(requested@, self.file_size) == plan@ + read_plan(
                    requested@.skip(i as int),
                    self.file_size,
                ),
                forall|k: int|
                    0 <= k < plan@.len() ==> {
                        &&& (#[trigger] plan@[k]).1 < self.file_size
                        &&& plan@[k].2 == if plan@[k].1 + FILE_PIECE_SIZE <= self.file_size {
                            FILE_PIECE_SIZE as int
                        } else {
                            self.file_size - plan@[k].1
                        }
                        &&& exists|q: int|
                            0 <= q < requested@.len() && (#[trigger] requested@[q]).0 == plan@[k].0
                                && requested@[q].1 == plan@[k].1
                    },
            decreases requested@.len() - i,
        {
            let ghost plan_entry = plan@;
            proof {
                assert(requested@.skip(i as int)[0] == requested@[i as int]);
                assert(requested@.skip(i as int).drop_first() =~= requested@.skip(i + 1));
            }
            let (idx, pos) = requested[i];
            if pos < self.file_size {
                let len: u64 = if self.file_size - pos >= FILE_PIECE_SIZE {
                    FILE_PIECE_SIZE
                } else {
                    self.file_size - pos
                };
                plan.push((idx, pos, len));
                proof {
                    assert((requested@[i as int]).0 == idx && requested@[i as int].1 == pos);
                    assert(plan_entry + (seq![(idx, pos, len)] + read_plan(
                        requested@.skip(i + 1),
                        self.file_size,
                    )) =~= plan@ + read_plan(requested@.skip(i + 1), self.file_size));
                }
            }
            i = i + 1;
        }
        proof {
            assert(requested@.skip(requested@.len() as int) =~= Seq::<(usize, u64)>::empty());
            assert(plan@ + read_plan(requested@.skip(requested@.len() as int), self.file_size)
                =~= plan@);
        }
        match self.status {
            FileStatus::Peering | FileStatus::Seeding => {},
            FileStatus::Idle => {
                self.status = FileStatus::Seeding;
            },
        }
        self.status_last_updated_time = now;
        plan
    }
}

} // verus!

verus! {

use vstd::pervasive::VecAdditionalExecFns;
use crate::MAX_CHUNKS_REQUESTED_AT_ONCE as R_MAX;

/// Total number of requests collected per peer.
pub open spec fn sum_lens(s: Seq<Vec<(usize, u64)>>) -> int
    decreases s.len(),
{
    if s.len() == 0 {
        0
    } else {
        sum_lens(s.drop_last()) + s.last()@.len()
    }
}

pub proof fn lemma_sum_lens_nonneg(s: Seq<Vec<(usize, u64)>>)
    ensures
        sum_lens(s) >= 0,
    decreases s.len(),
{
    if s.len() > 0 {
        lemma_sum_lens_nonneg(s.drop_last());
    }
}

/// Updating one entry moves the total by the difference of the lengths.
pub proof fn lemma_sum_lens_update(s: Seq<Vec<(usize, u64)>>, i: int, v: Vec<(usize, u64)>)
    requires
        0 <= i < s.len(),
    ensures
        sum_lens(s.update(i, v)) == sum_lens(s) + v@.len() - s[i]@.len(),
    decreases s.len(),
{
    let upd = s.update(i, v);
    if i == s.len() - 1 {
        assert(upd.drop_last() =~= s.drop_last());
    } else {
        assert(upd.drop_last() =~= s.drop_last().update(i, v));
        lemma_sum_lens_update(s.drop_last(), i, v);
    }
}

impl SharedFile {
    /// Every chunk any remaining peer offers is already downloaded or
    /// already requested: nothing can be scheduled.
    pub open spec fn no_offer_schedulable(self) -> bool {
        self.download_metadata matches Some(dm) ==> forall|k: int, j: int|
            0 <= k < self.peers_with_available_chunks@.len() && 0 <= j
                < self.peers_with_available_chunks@[k].1@.len() ==> {
                let idx = #[trigger] self.peers_with_available_chunks@[k].1@[j];
                dm.file_chunks@[idx as int].downloaded || req_contains(
                    self.chunks_requested@,
                    idx,
                )
            }
    }

    /// Every collected request points at a chunk of this file that is
    /// neither downloaded nor was in flight before this scheduling pass,
    /// and is in flight now, at its position in the file.
    pub open spec fn assigned_ok(
        self,
        assigned: Seq<Vec<(usize, u64)>>,
        cleaned: Seq<(usize, u64)>,
    ) -> bool {
        self.download_metadata matches Some(dm) ==> forall|k: int, j: int|
            0 <= k < assigned.len() && 0 <= j < assigned[k]@.len() ==> {
                let e = #[trigger] assigned[k]@[j];
                &&& e.0 < dm.file_chunks@.len()
                &&& e.1 == dm.file_chunks@[e.0 as int].position
                &&& !dm.file_chunks@[e.0 as int].downloaded
                &&& !req_contains(cleaned, e.0)
                &&& req_contains(self.chunks_requested@, e.0)
            }
    }

    /// Whether chunk `idx` is already downloaded.
    fn chunk_downloaded(&self, idx: usize) -> (r: bool)
        requires
            self.download_metadata matches Some(dm) && idx < dm.file_chunks@.len(),
        ensures
            r == self.download_metadata->Some_0.file_chunks@[idx as int].downloaded,
    {
        match &self.download_metadata {
            Some(dm) => dm.file_chunks[idx].downloaded,
            None => false,
        }
    }

    /// The byte position of chunk `idx`.
    fn chunk_position(&self, idx: usize) -> (r: u64)
        requires
            self.download_metadata matches Some(dm) && idx < dm.file_chunks@.len(),
        ensures
            r == self.download_metadata->Some_0.file_chunks@[idx as int].position,
    {
        match &self.download_metadata {
            Some(dm) => dm.file_chunks[idx].position,
            None => 0,
        }
    }
}

/// Whether `idx` occurs among the in-flight requests.
pub fn req_contains_exec(reqs: &Vec<(usize, u64)>, idx: usize) -> (r: bool)
    ensures
        r == req_contains(reqs@, idx),
{
    let mut i: usize = 0;
    while i < reqs.len()
        invariant
            0 <= i <= reqs@.len(),
            forall|k: int| 0 <= k < i ==> (#[trigger] reqs@[k]).0 != idx,
        decreases reqs@.len() - i,
    {
        if reqs[i].0 == idx {
            return true;
        }
        i = i + 1;
    }
    false
}

} // verus!

verus! {

impl SharedFile {
    /// One round-robin sweep: offers each remaining peer, in table order,
    /// one chunk that is neither downloaded nor in flight, while budget
    /// lasts. Returns whether any chunk was scheduled, the remaining
    /// budget, and the new total of collected requests.
    #[verifier::loop_isolation(false)]
    #[verifier::rlimit(100)]
    fn sweep_once(
        &mut self,
        assigned: &mut Vec<Vec<(usize, u64)>>,
        budget: usize,
        total: usize,
        now: u64,
        Ghost(cleaned): Ghost<Seq<(usize, u64)>>,
    ) -> (r: (bool, usize, usize))
        requires
            old(self).wf(),
            old(self).download_metadata is Some,
            old(assigned)@.len() == old(self).peers_with_available_chunks@.len(),
            budget + old(self).chunks_requested@.len() == R_MAX,
            budget > 0,
            total == sum_lens(old(assigned)@),
            old(self).chunks_requested@.len() == cleaned.len() + total,
            old(self).chunks_requested@.take(cleaned.len() as int) == cleaned,
            total == 0 ==> old(self).chunks_requested@ == cleaned,
            forall|k: int|
                0 <= k < old(self).chunks_requested@.len() ==> cleaned.contains(
                    #[trigger] old(self).chunks_requested@[k],
                ) || old(self).chunks_requested@[k].1 == now,
            old(self).assigned_ok(old(assigned)@, cleaned),
            reqs_unique(cleaned),
        ensures
            final(self).wf(),
            final(self).download_metadata == old(self).download_metadata,
            final(self).file_size == old(self).file_size,
            final(self).file_completion == old(self).file_completion,
            final(self).status == old(self).status,
            final(self).status_last_updated_time == old(self).status_last_updated_time,
            final(self).file_name == old(self).file_name,
            final(self).peers_with_available_chunks == old(self).peers_with_available_chunks,
            final(self).last_peers_asked_for_chunks == old(self).last_peers_asked_for_chunks,
            final(assigned)@.len() == old(assigned)@.len(),
            r.1 + final(self).chunks_requested@.len() == R_MAX,
            r.2 == sum_lens(final(assigned)@),
            final(self).chunks_requested@.len() == cleaned.len() + r.2,
            final(self).chunks_requested@.take(cleaned.len() as int) == cleaned,
            total == 0 ==> old(self).chunks_requested@ == cleaned,
            r.2 >= total,
            r.2 == 0 ==> final(self).chunks_requested@ == cleaned,
            forall|k: int|
                0 <= k < final(self).chunks_requested@.len() ==> cleaned.contains(
                    #[trigger] final(self).chunks_requested@[k],
                ) || final(self).chunks_requested@[k].1 == now,
            final(self).assigned_ok(final(assigned)@, cleaned),
            r.0 ==> r.1 < budget && r.2 > 0,
            !r.0 ==> r.1 == budget && final(self).chunks_requested@ == old(self).chunks_requested@ && final(assigned)@ == old(assigned)@ && r.2 == total && final(self).no_offer_schedulable(),
    {
        let mut progress = false;
        let mut budget = budget;
        let mut total = total;
        let ghost assigned0 = assigned@;
        let ghost reqs0 = self.chunks_requested@;
        let mut pi: usize = 0;
        while pi < self.peers_with_available_chunks.len()
            invariant
                0 <= pi <= self.peers_with_available_chunks@.len(),
                self.wf(),
                self.download_metadata == old(self).download_metadata,
                self.file_size == old(self).file_size,
                self.file_completion == old(self).file_completion,
                self.status == old(self).status,
                self.status_last_updated_time == old(self).status_last_updated_time,
                self.file_name == old(self).file_name,
                self.peers_with_available_chunks == old(self).peers_with_available_chunks,
                self.last_peers_asked_for_chunks == old(self).last_peers_asked_for_chunks,
                assigned@.len() == assigned0.len(),
                budget + self.chunks_requested@.len() == R_MAX,
                total == sum_lens(assigned@),
                self.chunks_requested@.len() == cleaned.len() + total,
                total == 0 ==> self.chunks_requested@ == cleaned,
                total >= sum_lens(assigned0),
                cleaned.len() <= self.chunks_requested@.len(),
                self.chunks_requested@.take(cleaned.len() as int) == cleaned,
                forall|k: int|
                    0 <= k < self.chunks_requested@.len() ==> cleaned.contains(
                        #[trigger] self.chunks_requested@[k],
                    ) || self.chunks_requested@[k].1 == now,
                self.assigned_ok(assigned@, cleaned),
                progress ==> budget < R_MAX - cleaned.len() - sum_lens(assigned0) && total > 0,
                !progress ==> budget + self.chunks_requested@.len() == R_MAX && self.chunks_requested@
                    == reqs0 && assigned@ == assigned0 && total == sum_lens(assigned0),
                !progress ==> (self.download_metadata matches Some(dm) ==> forall|k: int, j: int|
                    0 <= k < pi && 0 <= j < self.peers_with_available_chunks@[k].1@.len() ==> {
                        let idx =
                            #[trigger] self.peers_with_available_chunks@[k].1@[j];
                        dm.file_chunks@[idx as int].downloaded || req_contains(
                            self.chunks_requested@,
                            idx,
                        )
                    }),
            decreases self.peers_with_available_chunks@.len() - pi,
        {
            if budget > 0 {
                let offers_len = self.peers_with_available_chunks[pi].1.len();
                let mut j: usize = 0;
                let mut picked = false;
                while j < offers_len && !picked
                    invariant
                        0 <= j <= offers_len,
                        offers_len == self.peers_with_available_chunks@[pi as int].1@.len(),
                        0 <= pi < self.peers_with_available_chunks@.len(),
                        self.wf(),
                        self.download_metadata == old(self).download_metadata,
                        self.file_size == old(self).file_size,
                        self.file_completion == old(self).file_completion,
                        self.status == old(self).status,
                        self.status_last_updated_time == old(self).status_last_updated_time,
                        self.file_name == old(self).file_name,
                        self.peers_with_available_chunks == old(self).peers_with_available_chunks,
                        self.last_peers_asked_for_chunks == old(self).last_peers_asked_for_chunks,
                        assigned@.len() == assigned0.len(),
                        budget + self.chunks_requested@.len() == R_MAX,
                        total == sum_lens(assigned@),
                        self.chunks_requested@.len() == cleaned.len() + total,
                        total == 0 ==> self.chunks_requested@ == cleaned,
                        total >= sum_lens(assigned0),
                        cleaned.len() <= self.chunks_requested@.len(),
                        self.chunks_requested@.take(cleaned.len() as int) == cleaned,
                        forall|k: int|
                            0 <= k < self.chunks_requested@.len() ==> cleaned.contains(
                                #[trigger] self.chunks_requested@[k],
                            ) || self.chunks_requested@[k].1 == now,
                        self.assigned_ok(assigned@, cleaned),
                        progress ==> budget < R_MAX - cleaned.len() - sum_lens(assigned0) && total
                            > 0,
                        !progress ==> budget + self.chunks_requested@.len() == R_MAX
                            && self.chunks_requested@ == reqs0 && assigned@ == assigned0 && total
                            == sum_lens(assigned0),
                        !progress ==> (self.download_metadata matches Some(dm) ==> forall|
                            k: int,
                            jj: int,
                        |
                            0 <= k < pi && 0 <= jj
                                < self.peers_with_available_chunks@[k].1@.len() ==> {
                                let idx =
                                    #[trigger] self.peers_with_available_chunks@[k].1@[jj];
                                dm.file_chunks@[idx as int].downloaded || req_contains(
                                    self.chunks_requested@,
                                    idx,
                                )
                            }),
                        !picked ==> (self.download_metadata matches Some(dm) ==> forall|jj: int|
                            0 <= jj < j ==> {
                                let idx =
                                    #[trigger] self.peers_with_available_chunks@[pi as int].1@[jj];
                                dm.file_chunks@[idx as int].downloaded || req_contains(
                                    self.chunks_requested@,
                                    idx,
                                )
                            }),
                        picked ==> progress,
                        budget >= 0,
                        !picked ==> budget > 0,
                        picked ==> budget + self.chunks_requested@.len() == R_MAX,
                    decreases offers_len - j, (if picked {
                        0int
                    } else {
                        1int
                    }),
                {
                    let idx = self.peers_with_available_chunks[pi].1[j];
                    if budget > 0 && !self.chunk_downloaded(idx) && !req_contains_exec(
                        &self.chunks_requested,
                        idx,
                    ) {
                        let pos = self.chunk_position(idx);
                        let ghost reqs_before = self.chunks_requested@;
                        let ghost a0 = assigned@;
                        self.chunks_requested.push((idx, now));
                        let mut entry: Vec<(usize, u64)> = Vec::new();
                        assigned.set_and_swap(pi, &mut entry);
                        entry.push((idx, pos));
                        assigned.set(pi, entry);
                        budget = budget - 1;
                        total = total + 1;
                        picked = true;
                        progress = true;
                        proof {
                            let reqs_now = self.chunks_requested@;
                            let anew = assigned@;
                            assert(anew =~= a0.update(pi as int, anew[pi as int]));
                            assert(anew[pi as int]@ =~= a0[pi as int]@.push((idx, pos)));
                            lemma_sum_lens_update(a0, pi as int, anew[pi as int]);
                            assert(req_contains(reqs_now, idx)) by {
                                assert(reqs_now[reqs_now.len() - 1].0 == idx);
                            }
                            assert(reqs_now.take(cleaned.len() as int) =~= reqs_before.take(
                                cleaned.len() as int,
                            ));
                            assert(!req_contains(cleaned, idx)) by {
                                if req_contains(cleaned, idx) {
                                    let k = choose|k: int|
                                        0 <= k < cleaned.len() && cleaned[k].0 == idx;
                                    assert(reqs_before[k] == cleaned[k]);
                                    assert(req_contains(reqs_before, idx));
                                }
                            }
                            let dm = self.download_metadata->Some_0;
                            assert forall|k: int, jj: int|
                                0 <= k < anew.len() && 0 <= jj < anew[k]@.len() implies {
                                let e = #[trigger] anew[k]@[jj];
                                &&& e.0 < dm.file_chunks@.len()
                                &&& e.1 == dm.file_chunks@[e.0 as int].position
                                &&& !dm.file_chunks@[e.0 as int].downloaded
                                &&& !req_contains(cleaned, e.0)
                                &&& req_contains(reqs_now, e.0)
                            } by {
                                if k == pi && jj == anew[k]@.len() - 1 {
                                    assert(anew[k]@[jj] == (idx, pos));
                                } else {
                                    assert(anew[k]@[jj] == a0[k]@[jj]);
                                    let e = a0[k]@[jj];
                                    assert(req_contains(reqs_before, e.0));
                                    let w = choose|w: int|
                                        0 <= w < reqs_before.len() && reqs_before[w].0 == e.0;
                                    assert(reqs_now[w].0 == e.0);
                                }
                            }
                            assert(reqs_unique(reqs_now)) by {
                                assert forall|a: int, b: int|
                                    0 <= a < b < reqs_now.len() implies reqs_now[a].0
                                    != reqs_now[b].0 by {
                                    if b == reqs_now.len() - 1 {
                                        assert(reqs_now[a] == reqs_before[a]);
                                        if reqs_before[a].0 == idx {
                                            assert(req_contains(reqs_before, idx));
                                        }
                                    } else {
                                        assert(reqs_now[a] == reqs_before[a] && reqs_now[b]
                                            == reqs_before[b]);
                                    }
                                }
                            }
                        }
                    } else {
                        j = j + 1;
                    }
                }
            } else {
                proof {
                    assert(progress);
                }
            }
            pi = pi + 1;
        }
        (progress, budget, total)
    }
}

} // verus!

verus! {

/// True when `p` is one of the peers in the table view.
pub open spec fn peer_in_table(v: Seq<(PeerAddress, Seq<usize>)>, p: PeerAddress) -> bool {
    exists|t: int| 0 <= t < v.len() && v[t].0 == p
}

/// The mathematical value of a request map: each entry as the peer and its
/// requested (chunk index, byte position) pairs.
pub open spec fn request_map_view(s: Seq<(PeerAddress, Vec<(usize, u64)>)>) -> Seq<
    (PeerAddress, Seq<(usize, u64)>),
> {
    s.map_values(|e: (PeerAddress, Vec<(usize, u64)>)| (e.0, e.1@))
}

impl SharedFile {
    /// How one scheduling pass changes a record: the manifest and file
    /// identity are untouched, expired requests are dropped and peers with
    /// nothing left to offer forgotten, the in-flight budget holds, and
    /// every surviving request either predates the pass or was issued now.
    pub open spec fn scheduler_step(pre: SharedFile, post: SharedFile, now: u64) -> bool {
        &&& post.wf()
        &&& post.download_metadata == pre.download_metadata
        &&& post.file_size == pre.file_size
        &&& post.file_completion == pre.file_completion
        &&& post.status == pre.status
        &&& post.status_last_updated_time == pre.status_last_updated_time
        &&& post.file_name == pre.file_name
        &&& post.chunks_requested@.len() <= R_MAX
        &&& (pre.download_metadata is None ==> post == pre)
        &&& (pre.download_metadata is Some ==> {
            &&& table_view(post.peers_with_available_chunks@) == nonempty_peers(
                table_view(pre.peers_with_available_chunks@),
            )
            &&& forall|k: int|
                0 <= k < post.chunks_requested@.len() ==> live_requests(
                    pre.chunks_requested@,
                    now,
                ).contains(#[trigger] post.chunks_requested@[k])
                    || post.chunks_requested@[k].1 == now
        })
    }

    /// Schedules the next chunk requests, round-robin over the peers that
    /// offer chunks. Expired requests are dropped first, then peers with
    /// nothing left to offer. Returns `None` when no manifest is held, when
    /// the in-flight budget is already spent, or when no offered chunk is
    /// schedulable; returns an empty map when the remaining budget is
    /// smaller than the number of offering peers, a signal to look for more
    /// peers rather than fragment the budget.
    #[verifier::loop_isolation(false)]
    #[verifier::rlimit(100)]
    pub fn get_list_of_requested_chunks(&mut self, now: u64) -> (r: Option<
        Vec<(PeerAddress, Vec<(usize, u64)>)>,
    >)
        requires
            old(self).wf(),
        ensures
            final(self).wf(),
            SharedFile::scheduler_step(*old(self), *final(self), now),
            final(self).chunks_requested@.len() <= R_MAX,
            final(self).download_metadata == old(self).download_metadata,
            final(self).file_size == old(self).file_size,
            final(self).file_completion == old(self).file_completion,
            final(self).status == old(self).status,
            final(self).status_last_updated_time == old(self).status_last_updated_time,
            final(self).file_name == old(self).file_name,
            old(self).download_metadata is None ==> r is None && *final(self) == *old(self),
            old(self).download_metadata is Some ==> {
                let cleaned = live_requests(old(self).chunks_requested@, now);
                let cleaned_peers = nonempty_peers(
                    table_view(old(self).peers_with_available_chunks@),
                );
                &&& table_view(final(self).peers_with_available_chunks@) == cleaned_peers
                &&& (cleaned.len() >= R_MAX ==> r is None && final(self).chunks_requested@
                    == cleaned)
                &&& (cleaned.len() < R_MAX && R_MAX - cleaned.len() < cleaned_peers.len() ==> (
                r matches Some(m) && m@.len() == 0 && final(self).chunks_requested@ == cleaned))
                &&& (cleaned.len() < R_MAX && R_MAX - cleaned.len() >= cleaned_peers.len()
                    ==> match r {
                    None => final(self).chunks_requested@ == cleaned && final(self).no_offer_schedulable(),
                    Some(m) => {
                        &&& m@.len() > 0
                        &&& forall|k: int|
                            0 <= k < m@.len() ==> peer_in_table(
                                cleaned_peers,
                                (#[trigger] request_map_view(m@)[k]).0,
                            )
                        &&& (old(self).download_metadata matches Some(dm) ==> forall|
                            k: int,
                            j: int,
                        |
                            0 <= k < m@.len() && 0 <= j < request_map_view(m@)[k].1.len() ==> {
                                let e = (#[trigger] request_map_view(m@)[k].1[j]);
                                &&& e.0 < dm.file_chunks@.len()
                                &&& e.1 == dm.file_chunks@[e.0 as int].position
                                &&& !dm.file_chunks@[e.0 as int].downloaded
                                &&& !req_contains(cleaned, e.0)
                                &&& req_contains(final(self).chunks_requested@, e.0)
                            })
                        &&& final(self).chunks_requested@.len() > cleaned.len()
                        &&& final(self).last_peers_asked_for_chunks@.len() == m@.len()
                        &&& forall|k: int|
                            0 <= k < m@.len() ==> final(self).last_peers_asked_for_chunks@[k]
                                == (#[trigger] request_map_view(m@)[k]).0
                    },
                })
                &&& forall|k: int|
                    0 <= k < final(self).chunks_requested@.len() ==> cleaned.contains(
                        #[trigger] final(self).chunks_requested@[k],
                    ) || final(self).chunks_requested@[k].1 == now
            },
    {
        if self.download_metadata.is_none() {
            return None;
        }
        self.expire_requests(now);
        self.drop_empty_peers();
        let ghost cleaned = self.chunks_requested@;
        let ghost table0 = table_view(self.peers_with_available_chunks@);
        proof {
            assert(cleaned == live_requests(old(self).chunks_requested@, now));
            assert(table0 == nonempty_peers(table_view(old(self).peers_with_available_chunks@)));
        }
        if self.chunks_requested.len() >= R_MAX {
            return None;
        }
        let mut budget: usize = R_MAX - self.chunks_requested.len();
        if budget < self.peers_with_available_chunks.len() {
            return Some(Vec::new());
        }
        let mut assigned: Vec<Vec<(usize, u64)>> = Vec::new();
        let peer_count = self.peers_with_available_chunks.len();
        while assigned.len() < peer_count
            invariant
                assigned@.len() <= peer_count,
                sum_lens(assigned@) == 0,
                forall|k: int| 0 <= k < assigned@.len() ==> (#[trigger] assigned@[k])@.len() == 0,
            decreases peer_count - assigned@.len(),
        {
            let ghost before = assigned@;
            let e: Vec<(usize, u64)> = Vec::new();
            let ghost ev = e;
            assigned.push(e);
            proof {
                assert(assigned@.drop_last() =~= before);
            }
        }
        let mut total: usize = 0;
        proof {
            assert(self.chunks_requested@.take(cleaned.len() as int) =~= cleaned);
            assert(self.assigned_ok(assigned@, cleaned));
        }
        let mut done = false;
        while !done
            invariant
                self.wf(),
                self.download_metadata == old(self).download_metadata,
                self.download_metadata is Some,
                self.file_size == old(self).file_size,
                self.file_completion == old(self).file_completion,
                self.status == old(self).status,
                self.status_last_updated_time == old(self).status_last_updated_time,
                self.file_name == old(self).file_name,
                table_view(self.peers_with_available_chunks@) == table0,
                self.peers_with_available_chunks@.len() == peer_count,
                self.last_peers_asked_for_chunks == old(self).last_peers_asked_for_chunks,
                assigned@.len() == self.peers_with_available_chunks@.len(),
                budget + self.chunks_requested@.len() == R_MAX,
                total == sum_lens(assigned@),
                self.chunks_requested@.len() == cleaned.len() + total,
                self.chunks_requested@.take(cleaned.len() as int) == cleaned,
                total == 0 ==> self.chunks_requested@ == cleaned,
                forall|k: int|
                    0 <= k < self.chunks_requested@.len() ==> cleaned.contains(
                        #[trigger] self.chunks_requested@[k],
                    ) || self.chunks_requested@[k].1 == now,
                self.assigned_ok(assigned@, cleaned),
                reqs_unique(cleaned),
                done ==> (total == 0 ==> self.chunks_requested@ == cleaned
                    && self.no_offer_schedulable()),
            decreases (if done {
                0int
            } else {
                1int
            }), budget,
        {
            if budget == 0 {
                proof {
                    assert(total > 0);
                }
                done = true;
            } else {
                let (progress, new_budget, new_total) = self.sweep_once(
                    &mut assigned,
                    budget,
                    total,
                    now,
                    Ghost(cleaned),
                );
                budget = new_budget;
                total = new_total;
                if !progress {
                    done = true;
                }
            }
        }
        if total == 0 {
            return None;
        }
        let mut map: Vec<(PeerAddress, Vec<(usize, u64)>)> = Vec::new();
        let mut pi: usize = 0;
        let ghost assigned_final = assigned@;
        while pi < peer_count
            invariant
                0 <= pi <= peer_count,
                peer_count == self.peers_with_available_chunks@.len(),
                assigned@ == assigned_final,
                assigned@.len() == peer_count,
                forall|k: int|
                    0 <= k < map@.len() ==> exists|t: int|
                        0 <= t < peer_count && (#[trigger] request_map_view(map@)[k]).0
                            == self.peers_with_available_chunks@[t].0 && request_map_view(
                            map@,
                        )[k].1 == assigned_final[t]@,
                forall|k: int|
                    0 <= k < map@.len() ==> (#[trigger] request_map_view(map@)[k]).1.len() > 0,
                map@.len() == 0 ==> forall|t: int|
                    0 <= t < pi ==> (#[trigger] assigned_final[t])@.len() == 0,
            decreases peer_count - pi,
        {
            if assigned[pi].len() > 0 {
                let entry = clone_reqs(&assigned[pi]);
                let peer = self.peers_with_available_chunks[pi].0;
                let ghost mbefore = request_map_view(map@);
                map.push((peer, entry));
                proof {
                    assert(request_map_view(map@) =~= mbefore.push((peer, entry@)));
                }
            }
            pi = pi + 1;
        }
        proof {
            if map@.len() == 0 {
                lemma_sum_lens_all_empty(assigned_final);
            }
        }
        let mut peers_asked: Vec<PeerAddress> = Vec::new();
        let mut mi: usize = 0;
        while mi < map.len()
            invariant
                0 <= mi <= map@.len(),
                peers_asked@.len() == mi,
                forall|k: int|
                    0 <= k < mi ==> peers_asked@[k] == (#[trigger] request_map_view(map@)[k]).0,
            decreases map@.len() - mi,
        {
            let peer = map[mi].0;
            peers_asked.push(peer);
            proof {
                assert(request_map_view(map@)[mi as int].0 == peer);
            }
            mi = mi + 1;
        }
        self.last_peers_asked_for_chunks = peers_asked;
        proof {
            let mv = request_map_view(map@);
            assert(nonempty_peers(table_view(old(self).peers_with_available_chunks@)) == table0);
            assert forall|k: int| 0 <= k < map@.len() implies peer_in_table(
                table0,
                (#[trigger] request_map_view(map@)[k]).0,
            ) by {
                let t = choose|t: int|
                    0 <= t < peer_count && mv[k].0 == self.peers_with_available_chunks@[t].0
                        && mv[k].1 == assigned_final[t]@;
                assert(table_view(self.peers_with_available_chunks@)[t]
                    == (self.peers_with_available_chunks@[t].0,
                self.peers_with_available_chunks@[t].1@));
                assert(0 <= t < table0.len() && mv[k].0 == table0[t].0);
            }
            let dm = self.download_metadata->Some_0;
            assert forall|k: int, j: int|
                0 <= k < mv.len() && 0 <= j < mv[k].1.len() implies {
                let e = (#[trigger] mv[k].1[j]);
                &&& e.0 < dm.file_chunks@.len()
                &&& e.1 == dm.file_chunks@[e.0 as int].position
                &&& !dm.file_chunks@[e.0 as int].downloaded
                &&& !req_contains(cleaned, e.0)
                &&& req_contains(self.chunks_requested@, e.0)
            } by {
                let t = choose|t: int|
                    0 <= t < peer_count && mv[k].0 == self.peers_with_available_chunks@[t].0
                        && mv[k].1 == assigned_final[t]@;
                assert(mv[k].1[j] == assigned_final[t]@[j]);
            }
            assert(mv.len() > 0) by {
                if map@.len() == 0 {
                    lemma_sum_lens_all_empty(assigned_final);
                }
            }
        }
        Some(map)
    }
}


/// Copies a request vector element by element.
pub fn clone_reqs(v: &Vec<(usize, u64)>) -> (r: Vec<(usize, u64)>)
    ensures
        r@ == v@,
{
    let mut r: Vec<(usize, u64)> = Vec::new();
    let mut i: usize = 0;
    while i < v.len()
        invariant
            0 <= i <= v@.len(),
            r@ == v@.take(i as int),
        decreases v@.len() - i,
    {
        r.push(v[i]);
        proof {
            assert(v@.take(i + 1) =~= v@.take(i as int).push(v@[i as int]));
        }
        i = i + 1;
    }
    proof {
        assert(v@.take(v@.len() as int) =~= v@);
    }
    r
}

/// When every entry is empty the total is zero.
pub proof fn lemma_sum_lens_all_empty(s: Seq<Vec<(usize, u64)>>)
    requires
        forall|k: int| 0 <= k < s.len() ==> (#[trigger] s[k])@.len() == 0,
    ensures
        sum_lens(s) == 0,
    decreases s.len(),
{
    if s.len() > 0 {
        lemma_sum_lens_all_empty(s.drop_last());
    }
}

} // verus!

verus! {

use crate::hash::{blake3_hash, blake3_of};

/// Every kept index survives the filter, is an index of the original, and
/// satisfies the predicate.
pub proof fn lemma_usizes_filter(v: Seq<usize>, pred: spec_fn(usize) -> bool)
    ensures
        ({
            let f = v.filter(pred);
            &&& forall|k: int|
                0 <= k < f.len() ==> exists|j: int| 0 <= j < v.len() && #[trigger] f[k] == v[j]
            &&& forall|k: int| 0 <= k < f.len() ==> pred(#[trigger] f[k])
        }),
    decreases v.len(),
{
    reveal_with_fuel(Seq::filter, 2);
    let f = v.filter(pred);
    if v.len() == 0 {
    } else {
        let vd = v.drop_last();
        lemma_usizes_filter(vd, pred);
        let fd = vd.filter(pred);
        assert forall|k: int| 0 <= k < f.len() implies exists|j: int|
            0 <= j < v.len() && #[trigger] f[k] == v[j] by {
            if k < fd.len() {
                assert(f[k] == fd[k]);
                let j = choose|j: int| 0 <= j < vd.len() && fd[k] == vd[j];
                assert(f[k] == v[j]);
            } else {
                assert(f[k] == v[v.len() - 1]);
            }
        }
    }
}

/// Removes every request for chunk `idx`.
pub fn remove_req(reqs: &mut Vec<(usize, u64)>, idx: usize)
    ensures
        final(reqs)@ == old(reqs)@.filter(|q: (usize, u64)| q.0 != idx),
{
    let ghost orig = reqs@;
    let ghost pred = |q: (usize, u64)| q.0 != idx;
    let mut out: Vec<(usize, u64)> = Vec::new();
    let mut i: usize = 0;
    while i < reqs.len()
        invariant
            0 <= i <= reqs@.len(),
            reqs@ == orig,
            pred == (|q: (usize, u64)| q.0 != idx),
            out@ == orig.take(i as int).filter(pred),
        decreases reqs@.len() - i,
    {
        proof {
            assert(orig.take(i + 1).drop_last() == orig.take(i as int));
            assert(orig.take(i + 1).last() == orig[i as int]);
            reveal_with_fuel(Seq::filter, 2);
        }
        let q = reqs[i];
        if q.0 != idx {
            out.push(q);
        }
        i = i + 1;
    }
    proof {
        assert(orig.take(orig.len() as int) == orig);
    }
    *reqs = out;
}

/// Removes chunk `idx` from every peer's offered set.
pub fn remove_offer_everywhere(table: &mut Vec<(PeerAddress, Vec<usize>)>, idx: usize)
    ensures
        final(table)@.len() == old(table)@.len(),
        forall|k: int|
            0 <= k < old(table)@.len() ==> (#[trigger] table_view(final(table)@)[k]).0
                == table_view(old(table)@)[k].0 && table_view(final(table)@)[k].1 == table_view(
                old(table)@,
            )[k].1.filter(|x: usize| x != idx),
{
    let ghost vorig = table_view(table@);
    let ghost pred = |x: usize| x != idx;
    let mut pi: usize = 0;
    while pi < table.len()
        invariant
            0 <= pi <= table@.len(),
            table@.len() == vorig.len(),
            pred == (|x: usize| x != idx),
            forall|k: int| pi <= k < table@.len() ==> #[trigger] table_view(table@)[k] == vorig[k],
            forall|k: int|
                0 <= k < pi ==> (#[trigger] table_view(table@)[k]).0 == vorig[k].0 && table_view(
                    table@,
                )[k].1 == vorig[k].1.filter(pred),
        decreases table@.len() - pi,
    {
        let ghost vstart = table_view(table@);
        let mut tmp: (PeerAddress, Vec<usize>) = (PeerAddress { ip: 0, port: 0 }, Vec::new());
        table.set_and_swap(pi, &mut tmp);
        let ghost offers0 = tmp.1@;
        let ghost mid = table_view(table@);
        proof {
            assert(vstart[pi as int] == vorig[pi as int]);
            assert((tmp.0, tmp.1@) == vstart[pi as int]);
            assert forall|k: int|
                0 <= k < table@.len() && k != pi implies #[trigger] mid[k] == vstart[k] by {
            }
        }
        let mut out: Vec<usize> = Vec::new();
        let mut j: usize = 0;
        while j < tmp.1.len()
            invariant
                0 <= j <= tmp.1@.len(),
                tmp.1@ == offers0,
                pred == (|x: usize| x != idx),
                out@ == offers0.take(j as int).filter(pred),
            decreases tmp.1@.len() - j,
        {
            proof {
                assert(offers0.take(j + 1).drop_last() == offers0.take(j as int));
                assert(offers0.take(j + 1).last() == offers0[j as int]);
                reveal_with_fuel(Seq::filter, 2);
            }
            let x = tmp.1[j];
            if x != idx {
                out.push(x);
            }
            j = j + 1;
        }
        proof {
            assert(offers0.take(offers0.len() as int) == offers0);
        }
        let p = tmp.0;
        table.set(pi, (p, out));
        proof {
            let vnow = table_view(table@);
            assert(vnow =~= mid.update(pi as int, (p, offers0.filter(pred))));
            assert((p, offers0) == vorig[pi as int]);
            assert(vnow[pi as int] == (vorig[pi as int].0, vorig[pi as int].1.filter(pred)));
            assert forall|k: int|
                0 <= k < table@.len() && k != pi implies #[trigger] vnow[k] == vstart[k] by {
                assert(vnow[k] == mid[k]);
            }
        }
        pi = pi + 1;
    }
}

} // verus!

verus! {

/// The mathematical value of a write batch: each write as its byte
/// position and its bytes.
pub open spec fn writes_view(v: Seq<(u64, Vec<u8>)>) -> Seq<(u64, Seq<u8>)> {
    v.map_values(|w: (u64, Vec<u8>)| (w.0, w.1@))
}

/// The chunk flags and byte writes that accepting a batch of received
/// chunks produces: each pair whose index is known, not yet downloaded and
/// whose bytes carry the expected digest is accepted in arrival order, and
/// acceptance stops once the last missing chunk has arrived.
pub open spec fn spec_append(chunks: Seq<FileChunk>, received: Seq<(usize, Seq<u8>)>) -> (
    Seq<FileChunk>,
    Seq<(u64, Seq<u8>)>,
)
    decreases received.len(),
{
    if received.len() == 0 {
        (chunks, Seq::<(u64, Seq<u8>)>::empty())
    } else {
        let idx = received[0].0;
        let data = received[0].1;
        if idx < chunks.len() && !chunks[idx as int].downloaded && blake3_of(data)
            == chunks[idx as int].hash.words() {
            let chunks2 = chunks.update(
                idx as int,
                FileChunk {
                    position: chunks[idx as int].position,
                    hash: chunks[idx as int].hash,
                    downloaded: true,
                },
            );
            let w = (chunks[idx as int].position, data);
            if count_downloaded(chunks2) == chunks2.len() {
                (chunks2, seq![w])
            } else {
                let rest = spec_append(chunks2, received.drop_first());
                (rest.0, seq![w] + rest.1)
            }
        } else {
            spec_append(chunks, received.drop_first())
        }
    }
}

/// What acting on a batch of received chunks requires of the caller: the
/// byte writes to perform on the backing file, the trailer to rewrite at
/// the payload boundary when the download is still in progress, and
/// whether the file just completed, in which case the caller truncates the
/// trailer away and renames the file.
pub struct AppendOutcome {
    pub writes: Vec<(u64, Vec<u8>)>,
    pub trailer: Option<Vec<u8>>,
    pub finished: bool,
}

/// True when a write carries data whose BLAKE3 digest equals the expected
/// digest of some not-yet-downloaded chunk, at that chunk's position.
pub open spec fn verified_write(chunks: Seq<FileChunk>, pos: u64, data: Seq<u8>) -> bool {
    exists|i: int|
        0 <= i < chunks.len() && blake3_of(data) == (#[trigger] chunks[i]).hash.words() && pos
            == chunks[i].position && !chunks[i].downloaded
}

impl SharedFile {
    /// Checks one received chunk without changing any state: the write
    /// position when its index is known, it is still missing, and its
    /// bytes hash to the digest the manifest expects; nothing otherwise.
    /// The caller writes the bytes at that position first and records the
    /// chunk as downloaded only afterwards, so a failed write leaves the
    /// chunk missing and refetchable.
    pub fn verify_chunk(&self, idx: usize, data: &Vec<u8>) -> (r: Option<u64>)
        requires
            self.wf(),
        ensures
            match r {
                Some(pos) => self.download_metadata matches Some(dm) && idx
                    < dm.file_chunks@.len() && !dm.file_chunks@[idx as int].downloaded
                    && blake3_of(data@) == dm.file_chunks@[idx as int].hash.words() && pos
                    == dm.file_chunks@[idx as int].position,
                None => !(self.download_metadata matches Some(dm) && idx < dm.file_chunks@.len()
                    && !dm.file_chunks@[idx as int].downloaded && blake3_of(data@)
                    == dm.file_chunks@[idx as int].hash.words()),
            },
    {
        match &self.download_metadata {
            None => None,
            Some(dm) => {
                if idx >= dm.file_chunks.len() {
                    return None;
                }
                let c = dm.file_chunks[idx];
                if c.downloaded {
                    return None;
                }
                let h = blake3_hash(data.as_slice());
                if h.w0 == c.hash.w0 && h.w1 == c.hash.w1 && h.w2 == c.hash.w2 && h.w3
                    == c.hash.w3 {
                    Some(c.position)
                } else {
                    None
                }
            },
        }
    }

    /// Verifies and accepts a batch of received chunks. A chunk is accepted
    /// only when its index is known, it is not yet downloaded, and its
    /// bytes hash to the digest the manifest expects; anything else is
    /// dropped silently. Accepted chunks are marked downloaded and removed
    /// from the in-flight set and from every peer's offers. On reaching
    /// full completion the manifest is dropped from memory and the peer and
    /// request state is cleared.
    #[verifier::loop_isolation(false)]
    #[verifier::rlimit(100)]
    #[verifier::spinoff_prover]
    pub fn append_chunks_to_file(&mut self, received: &Vec<(usize, Vec<u8>)>, now: u64) -> (out:
        AppendOutcome)
        requires
            old(self).wf(),
        ensures
            final(self).wf(),
            old(self).download_metadata is None ==> *final(self) == *old(self)
                && out.writes@.len() == 0 && out.trailer is None && !out.finished,
            old(self).download_metadata matches Some(dm0) ==> {
                &&& forall|k: int|
                    0 <= k < out.writes@.len() ==> verified_write(
                        dm0.file_chunks@,
                        (#[trigger] out.writes@[k]).0,
                        out.writes@[k].1@,
                    )
                &&& out.writes@.len() == 0 ==> *final(self) == *old(self) && out.trailer is None
                    && !out.finished
                &&& out.finished ==> final(self).download_metadata is None && final(self).file_completion == 100 && final(self).chunks_requested@.len() == 0 && final(self).peers_with_available_chunks@.len() == 0 && final(self).status
                    == FileStatus::Idle && out.trailer is None
                &&& !out.finished ==> (final(self).download_metadata matches Some(d) && {
                    &&& d.file_chunks@.len() == dm0.file_chunks@.len()
                    &&& forall|i: int|
                        0 <= i < d.file_chunks@.len() ==> (#[trigger] d.file_chunks@[i]).hash
                            == dm0.file_chunks@[i].hash && d.file_chunks@[i].position
                            == dm0.file_chunks@[i].position
                    &&& forall|i: int|
                        0 <= i < d.file_chunks@.len()
                            ==> ((#[trigger] dm0.file_chunks@[i]).downloaded
                            ==> d.file_chunks@[i].downloaded)
                    &&& d.chunks_downloaded == dm0.chunks_downloaded + out.writes@.len()
                    &&& (out.writes@.len() > 0 ==> (out.trailer matches Some(t) && t@
                        == trailer_bytes(d@, final(self).file_size) && final(self).status
                        == FileStatus::Peering && final(self).status_last_updated_time == now))
                })
                &&& final(self).file_size == old(self).file_size
                &&& final(self).file_name == old(self).file_name
                &&& ({
                    let outcome = spec_append(
                        dm0.file_chunks@,
                        crate::message::chunk_datas_view(received@),
                    );
                    &&& writes_view(out.writes@) == outcome.1
                    &&& out.finished == (count_downloaded(outcome.0) == outcome.0.len())
                    &&& (!out.finished ==> (final(self).download_metadata matches Some(d)
                        && d.file_chunks@ == outcome.0))
                })
            },
    {
        if self.download_metadata.is_none() {
            return AppendOutcome { writes: Vec::new(), trailer: None, finished: false };
        }
        let dm_taken = self.download_metadata.take();
        let mut dm = dm_taken.unwrap();
        let ghost dm0 = dm;
        let ghost rv = crate::message::chunk_datas_view(received@);
        let total = dm.file_chunks.len();
        proof {
            crate::chunks::lemma_count_downloaded_bounds(dm.file_chunks@);
        }
        let mut writes: Vec<(u64, Vec<u8>)> = Vec::new();
        let mut finished = false;
        let mut q: usize = 0;
        proof {
            assert(rv.skip(0) =~= rv);
            assert(writes_view(writes@) =~= Seq::<(u64, Seq<u8>)>::empty());
            assert(writes_view(writes@) + spec_append(dm.file_chunks@, rv.skip(0)).1
                =~= spec_append(dm0.file_chunks@, rv).1);
        }
        while q < received.len() && !finished
            invariant
                0 <= q <= received@.len(),
                rv == crate::message::chunk_datas_view(received@),
                rv.len() == received@.len(),
                total == dm.file_chunks@.len(),
                dm.file_chunks@.len() == dm0.file_chunks@.len(),
                forall|i: int|
                    0 <= i < total ==> (#[trigger] dm.file_chunks@[i]).hash
                        == dm0.file_chunks@[i].hash && dm.file_chunks@[i].position
                        == dm0.file_chunks@[i].position,
                forall|i: int|
                    0 <= i < total ==> ((#[trigger] dm0.file_chunks@[i]).downloaded
                        ==> dm.file_chunks@[i].downloaded),
                dm.chunks_downloaded == count_downloaded(dm.file_chunks@),
                dm.chunks_downloaded == dm0.chunks_downloaded + writes@.len(),
                !finished ==> dm.chunks_downloaded < total,
                dm.file_hash == dm0.file_hash,
                self.download_metadata is None,
                self.file_size == old(self).file_size,
                self.file_name == old(self).file_name,
                self.file_completion == crate::chunks::spec_completion(
                    dm.chunks_downloaded as int,
                    total as int,
                ),
                !finished ==> self.file_completion < 100,
                !finished ==> spec_append(dm0.file_chunks@, rv) == ({
                    let rest = spec_append(dm.file_chunks@, rv.skip(q as int));
                    (rest.0, writes_view(writes@) + rest.1)
                }),
                finished ==> spec_append(dm0.file_chunks@, rv) == (
                    dm.file_chunks@,
                    writes_view(writes@),
                ),
                finished ==> count_downloaded(dm.file_chunks@) == dm.file_chunks@.len(),
                finished ==> self.file_completion == 100 && self.chunks_requested@.len() == 0
                    && self.peers_with_available_chunks@.len() == 0 && self.status
                    == FileStatus::Idle,
                writes@.len() == 0 ==> dm == dm0 && self.chunks_requested
                    == old(self).chunks_requested && self.peers_with_available_chunks == old(self).peers_with_available_chunks && self.status == old(self).status
                    && self.status_last_updated_time == old(self).status_last_updated_time
                    && self.file_completion == old(self).file_completion
                    && self.last_peers_asked_for_chunks == old(self).last_peers_asked_for_chunks,
                !finished && writes@.len() > 0 ==> self.status == FileStatus::Peering
                    && self.status_last_updated_time == now,
                forall|k: int|
                    0 <= k < writes@.len() ==> verified_write(
                        dm0.file_chunks@,
                        (#[trigger] writes@[k]).0,
                        writes@[k].1@,
                    ),
                reqs_unique(self.chunks_requested@),
                self.chunks_requested@.len() <= R_MAX,
                forall|k: int|
                    0 <= k < self.chunks_requested@.len()
                        ==> (#[trigger] self.chunks_requested@[k]).0 < total
                        && !dm.file_chunks@[self.chunks_requested@[k].0 as int].downloaded,
                forall|a: int, b: int|
                    0 <= a < b < self.peers_with_available_chunks@.len()
                        ==> #[trigger] self.peers_with_available_chunks@[a].0
                        != #[trigger] self.peers_with_available_chunks@[b].0,
                forall|k: int, j: int|
                    0 <= k < self.peers_with_available_chunks@.len() && 0 <= j
                        < self.peers_with_available_chunks@[k].1@.len()
                        ==> #[trigger] self.peers_with_available_chunks@[k].1@[j] < total,
            decreases received@.len() - q, (if finished {
                0int
            } else {
                1int
            }),
        {
            let ghost chunks_entry = dm.file_chunks@;
            let ghost writes_entry = writes@;
            let ghost mut accepted = false;
            proof {
                assert(rv[q as int] == (received@[q as int].0, received@[q as int].1@));
                assert(rv.skip(q as int)[0] == rv[q as int]);
                assert(rv.skip(q as int).drop_first() =~= rv.skip(q + 1));
            }
            let idx = received[q].0;
            if idx < total {
                let c = dm.file_chunks[idx];
                if !c.downloaded {
                    let h = blake3_hash(received[q].1.as_slice());
                    if h.w0 == c.hash.w0 && h.w1 == c.hash.w1 && h.w2 == c.hash.w2 && h.w3
                        == c.hash.w3 {
                        proof {
                            accepted = true;
                            assert(h.words() == c.hash.words());
                            assert(blake3_of(rv[q as int].1) == chunks_entry[idx as int].hash.words());
                        }
                        let data = vstd::slice::slice_to_vec(received[q].1.as_slice());
                        let ghost chunks_before = dm.file_chunks@;
                        writes.push((c.position, data));
                        dm.file_chunks.set(
                            idx,
                            FileChunk { position: c.position, hash: c.hash, downloaded: true },
                        );
                        proof {
                            crate::chunks::lemma_count_downloaded_update(
                                chunks_before,
                                idx as int,
                                FileChunk { position: c.position, hash: c.hash, downloaded: true },
                            );
                            assert(dm.file_chunks@ == chunks_entry.update(
                                idx as int,
                                FileChunk {
                                    position: chunks_entry[idx as int].position,
                                    hash: chunks_entry[idx as int].hash,
                                    downloaded: true,
                                },
                            ));
                            assert(writes_view(writes@) =~= writes_view(writes_entry).push(
                                (chunks_entry[idx as int].position, rv[q as int].1),
                            ));
                        }
                        dm.chunks_downloaded = dm.chunks_downloaded + 1;
                        let ghost reqs_before = self.chunks_requested@;
                        remove_req(&mut self.chunks_requested, idx);
                        proof {
                            lemma_reqs_filter_unique(reqs_before, |r0: (usize, u64)| r0.0 != idx);
                            reqs_before.lemma_filter_len(|r0: (usize, u64)| r0.0 != idx);
                            let reqs_now = self.chunks_requested@;
                            assert forall|k: int|
                                0 <= k < reqs_now.len() implies (#[trigger] reqs_now[k]).0 < total
                                && !dm.file_chunks@[reqs_now[k].0 as int].downloaded by {
                                let j = choose|j: int|
                                    0 <= j < reqs_before.len() && reqs_now[k] == reqs_before[j];
                                assert(reqs_now[k].0 != idx);
                            }
                        }
                        let ghost tbl_before = table_view(self.peers_with_available_chunks@);
                        remove_offer_everywhere(&mut self.peers_with_available_chunks, idx);
                        proof {
                            let fsp = self.peers_with_available_chunks@;
                            let vt = table_view(fsp);
                            assert forall|k: int, j: int|
                                0 <= k < fsp.len() && 0 <= j < fsp[k].1@.len() implies #[trigger] fsp[k].1@[j]
                                < total by {
                                assert(vt[k].1 == fsp[k].1@);
                                assert(vt[k].1 == tbl_before[k].1.filter(|x: usize| x != idx));
                                lemma_usizes_filter(tbl_before[k].1, |x: usize| x != idx);
                                let j0 = choose|j0: int|
                                    0 <= j0 < tbl_before[k].1.len() && vt[k].1[j]
                                        == tbl_before[k].1[j0];
                            }
                            assert forall|a: int, b: int|
                                0 <= a < b < fsp.len() implies #[trigger] fsp[a].0
                                != #[trigger] fsp[b].0 by {
                                assert(vt[a].0 == tbl_before[a].0 && vt[b].0 == tbl_before[b].0);
                            }
                        }
                        proof {
                            crate::chunks::lemma_count_downloaded_bounds(dm.file_chunks@);
                        }
                        let completion = completion_percent(&dm, self.file_size);
                        if completion == 100 {
                            finished = true;
                            self.file_completion = 100;
                            self.peers_with_available_chunks = Vec::new();
                            self.chunks_requested = Vec::new();
                            self.status = FileStatus::Idle;
                            proof {
                                assert(count_downloaded(dm.file_chunks@)
                                    == dm.file_chunks@.len());
                                assert(spec_append(chunks_entry, rv.skip(q as int)) == (
                                    dm.file_chunks@,
                                    seq![(chunks_entry[idx as int].position, rv[q as int].1)],
                                ));
                                assert(writes_view(writes_entry) + seq![
                                    (chunks_entry[idx as int].position, rv[q as int].1),
                                ] =~= writes_view(writes@));
                                assert(spec_append(dm0.file_chunks@, rv) == (
                                    dm.file_chunks@,
                                    writes_view(writes@),
                                ));
                            }
                        } else {
                            self.file_completion = completion;
                            self.status = FileStatus::Peering;
                            self.status_last_updated_time = now;
                            proof {
                                let w = (chunks_entry[idx as int].position, rv[q as int].1);
                                let rest2 = spec_append(dm.file_chunks@, rv.skip(q + 1));
                                assert(spec_append(chunks_entry, rv.skip(q as int)) == (
                                    rest2.0,
                                    seq![w] + rest2.1,
                                ));
                                assert(writes_view(writes_entry) + (seq![w] + rest2.1)
                                    =~= writes_view(writes@) + rest2.1);
                            }
                        }
                    }
                }
            }
            proof {
                if !accepted {
                    assert(dm.file_chunks@ == chunks_entry);
                    assert(!(rv[q as int].0 < chunks_entry.len()
                        && !chunks_entry[rv[q as int].0 as int].downloaded && blake3_of(
                        rv[q as int].1,
                    ) == chunks_entry[rv[q as int].0 as int].hash.words()));
                    assert(spec_append(chunks_entry, rv.skip(q as int)) == spec_append(
                        chunks_entry,
                        rv.skip(q + 1),
                    ));
                }
            }
            if !finished {
                q = q + 1;
            }
        }
        if finished {
            self.download_metadata = None;
            proof {
                assert(spec_append(dm0.file_chunks@, rv).1 == writes_view(writes@));
            }
            return AppendOutcome { writes, trailer: None, finished: true };
        }
        proof {
            assert(rv.skip(q as int) =~= Seq::<(usize, Seq<u8>)>::empty());
            assert(spec_append(dm.file_chunks@, rv.skip(q as int)) == (
                dm.file_chunks@,
                Seq::<(u64, Seq<u8>)>::empty(),
            ));
            assert(writes_view(writes@) + Seq::<(u64, Seq<u8>)>::empty() =~= writes_view(writes@));
        }
        if writes.len() > 0 {
            let trailer = encode_trailer(&dm, self.file_size);
            self.download_metadata = Some(dm);
            AppendOutcome { writes, trailer: Some(trailer), finished: false }
        } else {
            self.download_metadata = Some(dm);
            AppendOutcome { writes, trailer: None, finished: false }
        }
    }
}

} // verus!
