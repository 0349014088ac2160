use vstd::prelude::*;
use crate::hash::ChunkHash;
use crate::{spec_chunk_count, FILE_PIECE_SIZE};

verus! {

/// One piece of a shared file: its byte offset in the file, the BLAKE3
/// digest of its contents, and whether this node already holds it.
#[derive(Clone, Copy, PartialEq, Eq, Structural, Debug)]
pub struct FileChunk {
    pub position: u64,
    pub hash: ChunkHash,
    pub downloaded: bool,
}

/// The manifest of a shared file: the ordered chunks, the digest of the
/// whole file, and how many chunks this node has downloaded.
#[derive(Debug)]
pub struct DownloadMetadata {
    pub file_chunks: Vec<FileChunk>,
    pub file_hash: ChunkHash,
    pub chunks_downloaded: usize,
}

/// How many chunks in `chunks` are marked downloaded.
pub open spec fn count_downloaded(chunks: Seq<FileChunk>) -> int
    decreases chunks.len(),
{
    if chunks.len() == 0 {
        0
    } else {
        count_downloaded(chunks.drop_last()) + if chunks.last().downloaded {
            1int
        } else {
            0int
        }
    }
}

pub proof fn lemma_count_downloaded_bounds(chunks: Seq<FileChunk>)
    ensures
        0 <= count_downloaded(chunks) <= chunks.len(),
    decreases chunks.len(),
{
    if chunks.len() > 0 {
        lemma_count_downloaded_bounds(chunks.drop_last());
    }
}

/// Updating one chunk's flag moves the count by the difference at that index.
pub proof fn lemma_count_downloaded_update(chunks: Seq<FileChunk>, i: int, c: FileChunk)
    requires
        0 <= i < chunks.len(),
    ensures
        count_downloaded(chunks.update(i, c)) == count_downloaded(chunks) + (if c.downloaded {
            1int
        } else {
            0int
        }) - (if chunks[i].downloaded {
            1int
        } else {
            0int
        }),
    decreases chunks.len(),
{
    let upd = chunks.update(i, c);
    if i == chunks.len() - 1 {
        assert(upd.drop_last() =~= chunks.drop_last());
    } else {
        assert(upd.drop_last() =~= chunks.drop_last().update(i, c));
        lemma_count_downloaded_update(chunks.drop_last(), i, c);
    }
}

/// The chunk layout of a file of `file_size` bytes: one chunk per piece,
/// each positioned at a multiple of the piece size.
pub open spec fn chunks_wf(chunks: Seq<FileChunk>, file_size: u64) -> bool {
    &&& chunks.len() == spec_chunk_count(file_size)
    &&& forall|i: int|
        0 <= i < chunks.len() ==> #[trigger] chunks[i].position == i * (FILE_PIECE_SIZE as int)
}

/// A manifest for a file of `file_size` bytes is well formed when the chunk
/// layout fits the size and the downloaded counter equals the number of
/// chunks marked downloaded.
pub open spec fn dm_wf(dm: DownloadMetadata, file_size: u64) -> bool {
    &&& chunks_wf(dm.file_chunks@, file_size)
    &&& dm.chunks_downloaded == count_downloaded(dm.file_chunks@)
}

/// The chunk count of any file size fits comfortably in 64 bits.
pub proof fn lemma_chunk_count_bound(file_size: u64)
    ensures
        0 <= spec_chunk_count(file_size) <= 0x4000_0000_0000,
{
    vstd::arithmetic::div_mod::lemma_div_is_ordered(
        file_size as int,
        u64::MAX as int,
        FILE_PIECE_SIZE as int,
    );
    vstd::arithmetic::div_mod::lemma_div_pos_is_pos(file_size as int, FILE_PIECE_SIZE as int);
}

/// The completion percentage: the floor of `100 * downloaded / total`.
pub open spec fn spec_completion(downloaded: int, total: int) -> int {
    100 * downloaded / total
}

/// Computes the completion percentage of a manifest.
pub fn completion_percent(dm: &DownloadMetadata, file_size: u64) -> (r: u8)
    requires
        dm_wf(*dm, file_size),
        dm.file_chunks@.len() > 0,
    ensures
        r == spec_completion(dm.chunks_downloaded as int, dm.file_chunks@.len() as int),
        0 <= r <= 100,
        (r == 100) == (dm.chunks_downloaded == dm.file_chunks@.len()),
{
    proof {
        lemma_chunk_count_bound(file_size);
        lemma_count_downloaded_bounds(dm.file_chunks@);
    }
    let total: u64 = dm.file_chunks.len() as u64;
    let down: u64 = dm.chunks_downloaded as u64;
    let pct: u64 = (100 * down) / total;
    proof {
        let t = total as int;
        let d = down as int;
        assert(100 * d / t <= 100 * t / t) by {
            vstd::arithmetic::div_mod::lemma_div_is_ordered(100 * d, 100 * t, t);
        }
        assert(100 * t / t == 100) by {
            vstd::arithmetic::div_mod::lemma_div_multiples_vanish(100, t);
        }
        if d == t {
            assert(100 * d / t == 100) by {
                vstd::arithmetic::div_mod::lemma_div_multiples_vanish(100, t);
            }
        }
        if d < t {
            assert(100 * d / t < 100) by {
                vstd::arithmetic::div_mod::lemma_multiply_divide_lt(100 * d, t, 100);
            }
        }
    }
    pct as u8
}

} // verus!

verus! {

/// Copies a chunk vector element by element.
pub fn clone_chunks(v: &Vec<FileChunk>) -> (r: Vec<FileChunk>)
    ensures
        r@ == v@,
{
    let mut r: Vec<FileChunk> = Vec::new();
    let mut i: usize = 0;
    while i < v.len()
        invariant
            0 <= i <= v@.len(),
            r@ == v@.take(i as int),
        decreases v@.len() - i,
    {
        r.push(v[i]);
        proof {
            assert(v@.take(i + 1) =~= v@.take(i as int).push(v@[i as int]));
        }
        i = i + 1;
    }
    proof {
        assert(v@.take(v@.len() as int) =~= v@);
    }
    r
}

impl Clone for DownloadMetadata {
    /// A clone carries the same mathematical value.
    fn clone(&self) -> (r: Self)
        ensures
            r@ == self@,
    {
        DownloadMetadata {
            file_chunks: clone_chunks(&self.file_chunks),
            file_hash: self.file_hash,
            chunks_downloaded: self.chunks_downloaded,
        }
    }
}

} // verus!

verus! {

/// When no chunk is marked downloaded the count is zero.
pub proof fn lemma_count_downloaded_none(chunks: Seq<FileChunk>)
    requires
        forall|i: int| 0 <= i < chunks.len() ==> !chunks[i].downloaded,
    ensures
        count_downloaded(chunks) == 0,
    decreases chunks.len(),
{
    if chunks.len() > 0 {
        lemma_count_downloaded_none(chunks.drop_last());
    }
}

} // verus!
