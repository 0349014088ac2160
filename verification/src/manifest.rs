use vstd::prelude::*;
use crate::chunks::{count_downloaded, DownloadMetadata, FileChunk};
use crate::hash::{blake3_of, hasher_finalize, hasher_new, hasher_update, ChunkHash};
use crate::FILE_PIECE_SIZE;

verus! {

/// Builds the manifest of a complete local file from its bytes, streamed
/// in pieces: each piece is digested on its own, and the whole stream is
/// digested for the file hash. Every chunk of a manifest built this way is
/// marked downloaded.
pub struct ManifestBuilder {
    pub chunks: Vec<FileChunk>,
    pub file_hasher: blake3::Hasher,
    pub position: u64,
    pub sealed: bool,
    pub fed: Ghost<Seq<u8>>,
}

impl ManifestBuilder {
    /// The builder's bookkeeping: positions advance one full piece per
    /// chunk, except that a final shorter piece seals the builder.
    pub open spec fn wf(self) -> bool {
        &&& crate::hash::hasher_input(self.file_hasher) == self.fed@
        &&& self.chunks@.len() * (FILE_PIECE_SIZE as int) >= self.position
        &&& !self.sealed ==> self.position == self.chunks@.len() * (FILE_PIECE_SIZE as int)
        &&& self.sealed ==> (self.chunks@.len() - 1) * (FILE_PIECE_SIZE as int) < self.position
        &&& self.fed@.len() == self.position
        &&& forall|i: int|
            0 <= i < self.chunks@.len() ==> (#[trigger] self.chunks@[i]).position == i * (
            FILE_PIECE_SIZE as int) && self.chunks@[i].downloaded
        &&& count_downloaded(self.chunks@) == self.chunks@.len()
    }

    /// The bytes fed so far.
    pub open spec fn spec_fed(self) -> Seq<u8> {
        self.fed@
    }

    /// How many bytes have been fed so far.
    pub open spec fn spec_position(self) -> int {
        self.position as int
    }

    pub fn new() -> (r: ManifestBuilder)
        ensures
            r.wf(),
            r.spec_fed() == Seq::<u8>::empty(),
            r.spec_position() == 0,
    {
        let h = hasher_new();
        let r = ManifestBuilder {
            chunks: Vec::new(),
            file_hasher: h,
            position: 0,
            sealed: false,
            fed: Ghost(Seq::empty()),
        };
        proof {
            crate::chunks::lemma_count_downloaded_bounds(r.chunks@);
        }
        r
    }

    /// Feeds the next piece of the file: a full piece, or a shorter final
    /// one.
    pub fn add_chunk(&mut self, data: &Vec<u8>)
        requires
            old(self).wf(),
            !old(self).sealed,
            0 < data@.len() <= FILE_PIECE_SIZE,
            old(self).position + data@.len() <= u64::MAX,
            old(self).chunks@.len() + 1 <= u64::MAX,
        ensures
            final(self).wf(),
            final(self).spec_fed() == old(self).spec_fed() + data@,
            final(self).spec_position() == old(self).spec_position() + data@.len(),
            final(self).chunks@.len() == old(self).chunks@.len() + 1,
            final(self).chunks@.last().hash.words() == blake3_of(data@),
            final(self).chunks@.last().position == old(self).spec_position(),
            final(self).sealed == (data@.len() < FILE_PIECE_SIZE),
    {
        let h = crate::hash::blake3_hash(data.as_slice());
        let ghost chunks_before = self.chunks@;
        self.chunks.push(FileChunk { position: self.position, hash: h, downloaded: true });
        hasher_update(&mut self.file_hasher, data.as_slice());
        proof {
            self.fed@ = self.fed@ + data@;
        }
        if data.len() < FILE_PIECE_SIZE as usize {
            self.sealed = true;
        }
        self.position = self.position + data.len() as u64;
        proof {
            assert(self.chunks@.drop_last() == chunks_before);
            crate::chunks::lemma_count_downloaded_bounds(chunks_before);
        }
    }

    /// Closes the builder and returns the manifest of everything fed.
    pub fn finish(self) -> (r: DownloadMetadata)
        requires
            self.wf(),
        ensures
            r@.chunks == self.chunks@,
            r@.file_hash.words() == blake3_of(self.spec_fed()),
            r@.chunks_downloaded == self.chunks@.len(),
            crate::chunks::dm_wf(r, self.position) || self.position == 0,
    {
        let file_hash = hasher_finalize(&self.file_hasher);
        let n = self.chunks.len();
        proof {
            if self.position > 0 {
                lemma_full_chunks_layout(self.chunks@, self.position, self.sealed);
            }
        }
        DownloadMetadata { file_chunks: self.chunks, file_hash, chunks_downloaded: n }
    }
}

/// A chunk list whose positions step by one piece and whose total reaches
/// `size` covers exactly the chunks of a file of `size` bytes.
proof fn lemma_full_chunks_layout(chunks: Seq<FileChunk>, size: u64, sealed: bool)
    requires
        size > 0,
        chunks.len() * (FILE_PIECE_SIZE as int) >= size,
        !sealed ==> size == chunks.len() * (FILE_PIECE_SIZE as int),
        sealed ==> (chunks.len() - 1) * (FILE_PIECE_SIZE as int) < size,
    ensures
        chunks.len() == crate::spec_chunk_count(size),
{
    let p = FILE_PIECE_SIZE as int;
    let n = chunks.len() as int;
    let sz = size as int;
    if !sealed {
        assert(sz % p == 0) by (nonlinear_arith)
            requires
                sz == n * p && p > 0 && n >= 0,
        ;
        assert(sz / p == n) by {
            vstd::arithmetic::div_mod::lemma_div_multiples_vanish(n, p);
            assert(p * n == n * p) by (nonlinear_arith);
        }
    } else {
        if sz % p == 0 {
            let q = sz / p;
            vstd::arithmetic::div_mod::lemma_fundamental_div_mod(sz, p);
            assert(q == n) by (nonlinear_arith)
                requires
                    p > 0 && sz == p * q && (n - 1) * p < sz && sz <= n * p,
            ;
        } else {
            assert(sz < n * p) by {
                if sz == n * p {
                    assert(sz % p == 0) by (nonlinear_arith)
                        requires
                            sz == n * p && p > 0 && n >= 0,
                    ;
                }
            }
            vstd::arithmetic::div_mod::lemma_fundamental_div_mod_converse(
                sz,
                p,
                n - 1,
                sz - (n - 1) * p,
            );
        }
    }
}

} // verus!
