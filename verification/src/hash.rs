use vstd::prelude::*;

verus! {

/// A 32-byte BLAKE3 digest, held as four 64-bit words in little-endian
/// order of the digest bytes.
#[derive(Clone, Copy, PartialEq, Eq, Structural, Debug, Hash)]
pub struct ChunkHash {
    pub w0: u64,
    pub w1: u64,
    pub w2: u64,
    pub w3: u64,
}

impl ChunkHash {
    pub open spec fn words(self) -> (u64, u64, u64, u64) {
        (self.w0, self.w1, self.w2, self.w3)
    }
}

/// The BLAKE3 digest of a byte string, as the four 64-bit words of
/// `ChunkHash`. The digest is a function of the input bytes alone.
pub uninterp spec fn blake3_of(data: Seq<u8>) -> (u64, u64, u64, u64);

/// Relies on blake3::hash: the 32-byte BLAKE3 digest of the input, which
/// depends on the input bytes alone.
#[verifier::external_body]
pub fn blake3_hash(data: &[u8]) -> (r: ChunkHash)
    ensures
        r.words() == blake3_of(data@),
{
    let digest = blake3::hash(data);
    let b = digest.as_bytes();
    ChunkHash {
        w0: u64::from_le_bytes(b[0..8].try_into().unwrap()),
        w1: u64::from_le_bytes(b[8..16].try_into().unwrap()),
        w2: u64::from_le_bytes(b[16..24].try_into().unwrap()),
        w3: u64::from_le_bytes(b[24..32].try_into().unwrap()),
    }
}

#[verifier::external_type_specification]
#[verifier::external_body]
pub struct ExBlake3Hasher(blake3::Hasher);

/// The bytes fed into a streaming hasher so far.
pub uninterp spec fn hasher_input(h: blake3::Hasher) -> Seq<u8>;

/// Relies on blake3::Hasher::new: a fresh hasher has seen no input.
#[verifier::external_body]
pub fn hasher_new() -> (h: blake3::Hasher)
    ensures
        hasher_input(h) == Seq::<u8>::empty(),
{
    blake3::Hasher::new()
}

/// Relies on blake3::Hasher::update: appends the bytes to the hasher's
/// input.
#[verifier::external_body]
pub fn hasher_update(h: &mut blake3::Hasher, data: &[u8])
    ensures
        hasher_input(*final(h)) == hasher_input(*old(h)) + data@,
{
    h.update(data);
}

/// Relies on blake3::Hasher::finalize, and on the documented equivalence
/// of `Hasher::new().update(input).finalize()` with `blake3::hash(input)`.
#[verifier::external_body]
pub fn hasher_finalize(h: &blake3::Hasher) -> (r: ChunkHash)
    ensures
        r.words() == blake3_of(hasher_input(*h)),
{
    let digest = h.finalize();
    let b = digest.as_bytes();
    ChunkHash {
        w0: u64::from_le_bytes(b[0..8].try_into().unwrap()),
        w1: u64::from_le_bytes(b[8..16].try_into().unwrap()),
        w2: u64::from_le_bytes(b[16..24].try_into().unwrap()),
        w3: u64::from_le_bytes(b[24..32].try_into().unwrap()),
    }
}

} // verus!

