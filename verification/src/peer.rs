use vstd::prelude::*;

verus! {

/// The address of a peer on the local network: an IPv4 address held as one
/// 32-bit integer (big-endian octet order) and the TCP port the peer listens
/// on.
#[derive(Clone, Copy, PartialEq, Eq, Structural, Debug, Hash)]
pub struct PeerAddress {
    pub ip: u32,
    pub port: u16,
}

impl PeerAddress {
    pub fn new(ip: u32, port: u16) -> (r: PeerAddress)
        ensures
            r.ip == ip,
            r.port == port,
    {
        PeerAddress { ip, port }
    }

    /// Builds the address from the four dotted octets, highest first.
    pub fn from_octets(a: u8, b: u8, c: u8, d: u8, port: u16) -> (r: PeerAddress)
        ensures
            r.ip == a * 0x1000000 + b * 0x10000 + c * 0x100 + d,
            r.port == port,
    {
        let ip: u32 = (a as u32) * 0x1000000 + (b as u32) * 0x10000 + (c as u32) * 0x100
            + (d as u32);
        PeerAddress { ip, port }
    }
}

/// True when `peers` holds no address twice.
pub open spec fn peers_unique(peers: Seq<PeerAddress>) -> bool {
    forall|i: int, j: int| 0 <= i < j < peers.len() ==> peers[i] != peers[j]
}

/// True when `peer` occurs in `peers`.
pub open spec fn peers_contain(peers: Seq<PeerAddress>, peer: PeerAddress) -> bool {
    exists|i: int| 0 <= i < peers.len() && peers[i] == peer
}

/// Whether `peer` occurs in `peers`.
pub fn peers_find(peers: &Vec<PeerAddress>, peer: PeerAddress) -> (r: bool)
    ensures
        r == peers_contain(peers@, peer),
{
    let mut i: usize = 0;
    while i < peers.len()
        invariant
            0 <= i <= peers@.len(),
            forall|k: int| 0 <= k < i ==> peers@[k] != peer,
        decreases peers@.len() - i,
    {
        if peers[i].ip == peer.ip && peers[i].port == peer.port {
            return true;
        }
        i = i + 1;
    }
    false
}

/// Removes every occurrence of `peer` from `peers`.
pub fn peers_remove(peers: &mut Vec<PeerAddress>, peer: PeerAddress)
    ensures
        final(peers)@ == old(peers)@.filter(|p: PeerAddress| p != peer),
{
    let ghost orig = peers@;
    let mut out: Vec<PeerAddress> = Vec::new();
    let mut i: usize = 0;
    while i < peers.len()
        invariant
            0 <= i <= peers@.len(),
            peers@ == orig,
            out@ == orig.take(i as int).filter(|p: PeerAddress| p != peer),
        decreases peers@.len() - i,
    {
        proof {
            assert(orig.take(i + 1).drop_last() == orig.take(i as int));
            reveal_with_fuel(Seq::filter, 2);
        }
        let cur = peers[i];
        if !(cur.ip == peer.ip && cur.port == peer.port) {
            out.push(cur);
        }
        i = i + 1;
    }
    proof {
        assert(orig.take(orig.len() as int) == orig);
    }
    *peers = out;
}

/// Inserts an address into a duplicate-free list unless already present.
pub fn peers_insert(peers: &mut Vec<PeerAddress>, peer: PeerAddress)
    requires
        peers_unique(old(peers)@),
    ensures
        peers_unique(final(peers)@),
        forall|x: PeerAddress|
            peers_contain(final(peers)@, x) <==> (peers_contain(old(peers)@, x) || x == peer),
        final(peers)@.len() <= old(peers)@.len() + 1,
{
    if !peers_find(peers, peer) {
        let ghost before = peers@;
        peers.push(peer);
        proof {
            assert(peers@[peers@.len() - 1] == peer);
            assert forall|a: int, b: int|
                0 <= a < b < peers@.len() implies peers@[a] != peers@[b] by {
                if b == peers@.len() - 1 {
                    assert(peers@[a] == before[a]);
                    if before[a] == peer {
                        assert(peers_contain(before, peer));
                    }
                }
            }
            assert forall|x: PeerAddress|
                peers_contain(peers@, x) <==> (peers_contain(before, x) || x == peer) by {
                if peers_contain(peers@, x) {
                    let k = choose|k: int| 0 <= k < peers@.len() && peers@[k] == x;
                    if k < before.len() {
                        assert(peers_contain(before, x));
                    }
                }
                if peers_contain(before, x) {
                    let k = choose|k: int| 0 <= k < before.len() && before[k] == x;
                    assert(peers@[k] == x);
                }
                if x == peer {
                    assert(peers@[peers@.len() - 1] == x);
                }
            }
        }
    }
}

} // verus!
