pub mod peer;
pub mod hash;
pub mod chunks;
pub mod message;
pub mod codec;
pub mod shared_file;
pub mod node_status;
pub mod handshake;
pub mod connection;
pub mod manifest;
pub mod manager;
pub mod node;
pub mod kv;
pub mod cli;
pub mod contacts;
pub mod frame;
pub mod log;
pub mod protocol;
pub mod games;
pub mod vfs;
pub mod chat;

use vstd::prelude::*;

verus! {

/// The fixed chunk size in bytes: files are split into pieces of this size,
/// except possibly the last piece.
pub const FILE_PIECE_SIZE: u64 = 262144;

/// How many peers a node keeps connected at once.
pub const MAX_CONNECTIONS_AT_ONCE: usize = 5;

/// How many files a node shares at once.
pub const MAX_FILES_TO_SHARE_AT_ONCE: usize = 5;

/// How many chunk requests may be in flight per file.
pub const MAX_CHUNKS_REQUESTED_AT_ONCE: usize = 10;

/// A chunk request is considered lost after this many milliseconds.
pub const CHUNK_REQUEST_TIMEOUT_MS: u64 = 20000;

/// A file falls back to the idle status after this many milliseconds
/// without a transfer.
pub const IDLE_TIME_UNTIL_STATUS_CHANGE_MS: u64 = 15000;

/// Number of whole chunks a file of `size` bytes has, plus one for a
/// shorter final chunk when the size is not a multiple of the piece size.
pub open spec fn spec_chunk_count(size: u64) -> int {
    if size as int % (FILE_PIECE_SIZE as int) == 0 {
        size as int / (FILE_PIECE_SIZE as int)
    } else {
        size as int / (FILE_PIECE_SIZE as int) + 1
    }
}

/// Number of chunks of a file of `size` bytes.
pub fn chunk_count(size: u64) -> (n: u64)
    ensures
        n == spec_chunk_count(size),
{
    if size % FILE_PIECE_SIZE == 0 {
        size / FILE_PIECE_SIZE
    } else {
        size / FILE_PIECE_SIZE + 1
    }
}

} // verus!
