use vstd::prelude::*;
use crate::peer::{peers_contain, peers_find, peers_insert, peers_remove, peers_unique, PeerAddress};
use crate::MAX_CONNECTIONS_AT_ONCE;

verus! {

/// The node's view of its peers: who is connected, who is mid-handshake,
/// and who might be worth connecting to, plus the node's own listening
/// address.
pub struct Status {
    pub current_connected_peers: Vec<PeerAddress>,
    pub peers_during_handshake: Vec<PeerAddress>,
    pub potential_peers: Vec<PeerAddress>,
    pub node_address: PeerAddress,
}

/// The outbound-connection candidates that draining the potential set
/// yields: the entries that are not connected, in order, until the free
/// connection slots are used up.
pub open spec fn drain_plan(
    potential: Seq<PeerAddress>,
    connected: Seq<PeerAddress>,
    budget: int,
) -> Seq<PeerAddress>
    decreases potential.len(),
{
    if potential.len() == 0 || budget <= 0 {
        Seq::<PeerAddress>::empty()
    } else if !peers_contain(connected, potential[0]) {
        seq![potential[0]] + drain_plan(potential.drop_first(), connected, budget - 1)
    } else {
        drain_plan(potential.drop_first(), connected, budget)
    }
}

impl Status {
    /// The node never exceeds its connection cap, and no address is both
    /// connected and mid-handshake.
    pub open spec fn wf(self) -> bool {
        &&& peers_unique(self.current_connected_peers@)
        &&& peers_unique(self.peers_during_handshake@)
        &&& peers_unique(self.potential_peers@)
        &&& self.current_connected_peers@.len() <= MAX_CONNECTIONS_AT_ONCE
        &&& forall|p: PeerAddress|
            peers_contain(self.current_connected_peers@, p) ==> !peers_contain(
                self.peers_during_handshake@,
                p,
            )
    }

    pub fn create(node_address: PeerAddress) -> (r: Status)
        ensures
            r.wf(),
            r.current_connected_peers@.len() == 0,
            r.peers_during_handshake@.len() == 0,
            r.potential_peers@.len() == 0,
            r.node_address == node_address,
    {
        Status {
            current_connected_peers: Vec::new(),
            peers_during_handshake: Vec::new(),
            potential_peers: Vec::new(),
            node_address,
        }
    }

    pub fn get_node_address(&self) -> (r: PeerAddress)
        ensures
            r == self.node_address,
    {
        self.node_address
    }

    /// Drains the potential-peer set and returns those worth an outbound
    /// connection attempt: the not-yet-connected entries in order, up to
    /// the free connection slots. The rest are discarded.
    pub fn get_potential_peers(&mut self) -> (r: Vec<PeerAddress>)
        requires
            old(self).wf(),
        ensures
            final(self).wf(),
            final(self).potential_peers@.len() == 0,
            final(self).current_connected_peers == old(self).current_connected_peers,
            final(self).peers_during_handshake == old(self).peers_during_handshake,
            final(self).node_address == old(self).node_address,
            old(self).current_connected_peers@.len() >= MAX_CONNECTIONS_AT_ONCE ==> r@.len() == 0,
            old(self).current_connected_peers@.len() < MAX_CONNECTIONS_AT_ONCE ==> r@
                == drain_plan(
                old(self).potential_peers@,
                old(self).current_connected_peers@,
                MAX_CONNECTIONS_AT_ONCE - old(self).current_connected_peers@.len(),
            ),
            forall|k: int|
                0 <= k < r@.len() ==> peers_contain(
                    old(self).potential_peers@,
                    #[trigger] r@[k],
                ) && !peers_contain(old(self).current_connected_peers@, r@[k]),
            r@.len() + old(self).current_connected_peers@.len() <= MAX_CONNECTIONS_AT_ONCE,
    {
        let mut r: Vec<PeerAddress> = Vec::new();
        let connected = self.current_connected_peers.len();
        if connected >= MAX_CONNECTIONS_AT_ONCE {
            self.potential_peers = Vec::new();
            return r;
        }
        let ghost pot0 = self.potential_peers@;
        let ghost conn0 = self.current_connected_peers@;
        let ghost budget0 = MAX_CONNECTIONS_AT_ONCE - connected;
        let mut count = connected;
        let mut i: usize = 0;
        proof {
            assert(pot0.skip(0) =~= pot0);
            assert(r@ + drain_plan(pot0.skip(0), conn0, budget0) =~= drain_plan(
                pot0,
                conn0,
                budget0,
            ));
        }
        while i < self.potential_peers.len() && count < MAX_CONNECTIONS_AT_ONCE
            invariant
                0 <= i <= self.potential_peers@.len(),
                self.potential_peers == old(self).potential_peers,
                self.current_connected_peers == old(self).current_connected_peers,
                self.peers_during_handshake == old(self).peers_during_handshake,
                self.node_address == old(self).node_address,
                pot0 == old(self).potential_peers@,
                conn0 == old(self).current_connected_peers@,
                budget0 == MAX_CONNECTIONS_AT_ONCE - connected,
                count == connected + r@.len(),
                count <= MAX_CONNECTIONS_AT_ONCE,
                connected == old(self).current_connected_peers@.len(),
                connected < MAX_CONNECTIONS_AT_ONCE,
                drain_plan(pot0, conn0, budget0) == r@ + drain_plan(
                    pot0.skip(i as int),
                    conn0,
                    budget0 - r@.len(),
                ),
                forall|k: int|
                    0 <= k < r@.len() ==> peers_contain(
                        old(self).potential_peers@,
                        #[trigger] r@[k],
                    ) && !peers_contain(old(self).current_connected_peers@, r@[k]),
            decreases self.potential_peers@.len() - i,
        {
            let ghost r_entry = r@;
            proof {
                assert(pot0.skip(i as int)[0] == pot0[i as int]);
                assert(pot0.skip(i as int).drop_first() =~= pot0.skip(i + 1));
            }
            let p = self.potential_peers[i];
            if !peers_find(&self.current_connected_peers, p) {
                proof {
                    assert(peers_contain(old(self).potential_peers@, p));
                }
                r.push(p);
                count = count + 1;
                proof {
                    assert(r_entry + (seq![p] + drain_plan(
                        pot0.skip(i + 1),
                        conn0,
                        budget0 - r@.len(),
                    )) =~= r@ + drain_plan(pot0.skip(i + 1), conn0, budget0 - r@.len()));
                }
            }
            i = i + 1;
        }
        proof {
            if i == pot0.len() {
                assert(pot0.skip(i as int) =~= Seq::<PeerAddress>::empty());
            }
            assert(drain_plan(pot0.skip(i as int), conn0, budget0 - r@.len())
                =~= Seq::<PeerAddress>::empty());
            assert(r@ + Seq::<PeerAddress>::empty() =~= r@);
        }
        self.potential_peers = Vec::new();
        r
    }

    /// Remembers peers that might be worth connecting to later.
    pub fn add_potential_peers(&mut self, peers: &Vec<PeerAddress>)
        requires
            old(self).wf(),
        ensures
            final(self).wf(),
            final(self).current_connected_peers == old(self).current_connected_peers,
            final(self).peers_during_handshake == old(self).peers_during_handshake,
            final(self).node_address == old(self).node_address,
            forall|p: PeerAddress|
                peers_contain(final(self).potential_peers@, p) <==> (peers_contain(
                    old(self).potential_peers@,
                    p,
                ) || peers_contain(peers@, p)),
    {
        let mut i: usize = 0;
        while i < peers.len()
            invariant
                0 <= i <= peers@.len(),
                self.wf(),
                self.current_connected_peers == old(self).current_connected_peers,
                self.peers_during_handshake == old(self).peers_during_handshake,
                self.node_address == old(self).node_address,
                forall|p: PeerAddress|
                    peers_contain(self.potential_peers@, p) <==> (peers_contain(
                        old(self).potential_peers@,
                        p,
                    ) || peers_contain(peers@.take(i as int), p)),
            decreases peers@.len() - i,
        {
            let p = peers[i];
            let ghost mid = self.potential_peers@;
            peers_insert(&mut self.potential_peers, p);
            proof {
                assert forall|x: PeerAddress| #![trigger peers_contain(self.potential_peers@, x)]
                    peers_contain(self.potential_peers@, x) <==> (peers_contain(
                        old(self).potential_peers@,
                        x,
                    ) || peers_contain(peers@.take(i + 1), x)) by {
                    if peers_contain(peers@.take(i + 1), x) {
                        let k = choose|k: int| 0 <= k < i + 1 && #[trigger] peers@.take(i + 1)[k] == x;
                        if k < i {
                            assert(peers@.take(i as int)[k] == x);
                            assert(peers_contain(peers@.take(i as int), x));
                        } else {
                            assert(x == p);
                        }
                    }
                    if peers_contain(peers@.take(i as int), x) {
                        let k = choose|k: int| 0 <= k < i && #[trigger] peers@.take(i as int)[k] == x;
                        assert(peers@.take(i + 1)[k] == x);
                    }
                    if x == p {
                        assert(peers@.take(i + 1)[i as int] == x);
                    }
                }
            }
            i = i + 1;
        }
        proof {
            assert(peers@.take(peers@.len() as int) =~= peers@);
        }
    }

    /// Remembers one peer that might be worth connecting to later.
    pub fn add_potential_peer(&mut self, peer: PeerAddress)
        requires
            old(self).wf(),
        ensures
            final(self).wf(),
            final(self).current_connected_peers == old(self).current_connected_peers,
            final(self).peers_during_handshake == old(self).peers_during_handshake,
            final(self).node_address == old(self).node_address,
            forall|p: PeerAddress|
                peers_contain(final(self).potential_peers@, p) <==> (peers_contain(
                    old(self).potential_peers@,
                    p,
                ) || p == peer),
    {
        let single = vec![peer];
        let ghost sv = single@;
        self.add_potential_peers(&single);
        proof {
            assert forall|p: PeerAddress| #![trigger peers_contain(self.potential_peers@, p)]
                peers_contain(self.potential_peers@, p) <==> (peers_contain(
                    old(self).potential_peers@,
                    p,
                ) || p == peer) by {
                if peers_contain(sv, p) {
                    let k = choose|k: int| 0 <= k < sv.len() && #[trigger] sv[k] == p;
                    assert(p == peer);
                }
                if p == peer {
                    assert(sv[0] == p);
                    assert(peers_contain(sv, p));
                }
            }
        }
    }

    /// Whether the connection cap is reached.
    pub fn reached_connections_number_limit(&self) -> (r: bool)
        ensures
            r == (self.current_connected_peers@.len() >= MAX_CONNECTIONS_AT_ONCE),
    {
        self.current_connected_peers.len() >= MAX_CONNECTIONS_AT_ONCE
    }

    /// Whether the node has no peer connected or mid-handshake.
    pub fn peer_has_no_connections(&self) -> (r: bool)
        ensures
            r == (self.current_connected_peers@.len() == 0 && self.peers_during_handshake@.len()
                == 0),
    {
        self.current_connected_peers.is_empty() && self.peers_during_handshake.is_empty()
    }

    /// Whether `peer` is in the connected set.
    pub fn is_peer_already_connected(&self, peer: PeerAddress) -> (r: bool)
        ensures
            r == peers_contain(self.current_connected_peers@, peer),
    {
        peers_find(&self.current_connected_peers, peer)
    }

    /// Drops `peer` from the handshake set.
    pub fn remove_peer_from_handshake_set(&mut self, peer: PeerAddress)
        requires
            old(self).wf(),
        ensures
            final(self).wf(),
            final(self).current_connected_peers == old(self).current_connected_peers,
            final(self).potential_peers == old(self).potential_peers,
            final(self).node_address == old(self).node_address,
            !peers_contain(final(self).peers_during_handshake@, peer),
    {
        peers_remove(&mut self.peers_during_handshake, peer);
        proof {
            lemma_peers_filter(old(self).peers_during_handshake@, peer);
        }
    }

    /// Drops `peer` from both the handshake set and the connected set.
    pub fn remove_peer(&mut self, peer: PeerAddress)
        requires
            old(self).wf(),
        ensures
            final(self).wf(),
            final(self).potential_peers == old(self).potential_peers,
            final(self).node_address == old(self).node_address,
            !peers_contain(final(self).current_connected_peers@, peer),
            !peers_contain(final(self).peers_during_handshake@, peer),
            forall|p: PeerAddress|
                p != peer ==> (peers_contain(final(self).current_connected_peers@, p)
                    <==> peers_contain(old(self).current_connected_peers@, p)),
            final(self).current_connected_peers@.len() <= old(self).current_connected_peers@.len(),
            final(self).current_connected_peers@ == old(self).current_connected_peers@.filter(
                |p: PeerAddress| p != peer,
            ),
    {
        peers_remove(&mut self.peers_during_handshake, peer);
        proof {
            lemma_peers_filter(old(self).peers_during_handshake@, peer);
        }
        let ghost conn0 = self.current_connected_peers@;
        peers_remove(&mut self.current_connected_peers, peer);
        proof {
            lemma_peers_filter(conn0, peer);
        }
    }

    /// Evicts one connected peer to make room; returns which.
    pub fn remove_random_peer(&mut self) -> (r: PeerAddress)
        requires
            old(self).wf(),
            old(self).current_connected_peers@.len() > 0,
        ensures
            final(self).wf(),
            peers_contain(old(self).current_connected_peers@, r),
            !peers_contain(final(self).current_connected_peers@, r),
            final(self).current_connected_peers@.len() < old(self).current_connected_peers@.len(),
            final(self).potential_peers == old(self).potential_peers,
            final(self).node_address == old(self).node_address,
            forall|p: PeerAddress|
                p != r ==> (peers_contain(final(self).current_connected_peers@, p)
                    <==> peers_contain(old(self).current_connected_peers@, p)),
    {
        let victim = self.current_connected_peers[0];
        proof {
            assert(peers_contain(self.current_connected_peers@, victim));
        }
        self.remove_peer(victim);
        proof {
            lemma_peers_filter_shrinks(old(self).current_connected_peers@, victim);
        }
        victim
    }

    /// A copy of the connected peer set.
    pub fn get_current_connected_peers(&self) -> (r: Vec<PeerAddress>)
        ensures
            r@ == self.current_connected_peers@,
    {
        let mut r: Vec<PeerAddress> = Vec::new();
        let mut i: usize = 0;
        while i < self.current_connected_peers.len()
            invariant
                0 <= i <= self.current_connected_peers@.len(),
                r@ == self.current_connected_peers@.take(i as int),
            decreases self.current_connected_peers@.len() - i,
        {
            r.push(self.current_connected_peers[i]);
            proof {
                assert(self.current_connected_peers@.take(i + 1)
                    =~= self.current_connected_peers@.take(i as int).push(
                    self.current_connected_peers@[i as int],
                ));
            }
            i = i + 1;
        }
        proof {
            assert(self.current_connected_peers@.take(self.current_connected_peers@.len() as int)
                =~= self.current_connected_peers@);
        }
        r
    }

    /// Registers a peer whose handshake has begun. A peer already in the
    /// connected set is not registered, so that no address is ever in both
    /// sets at once.
    pub fn peer_begins_handshake(&mut self, peer: PeerAddress)
        requires
            old(self).wf(),
        ensures
            final(self).wf(),
            final(self).current_connected_peers == old(self).current_connected_peers,
            final(self).potential_peers == old(self).potential_peers,
            final(self).node_address == old(self).node_address,
            peers_contain(old(self).current_connected_peers@, peer) || peers_contain(
                final(self).peers_during_handshake@,
                peer,
            ),
    {
        if !peers_find(&self.current_connected_peers, peer) && !peers_find(
            &self.peers_during_handshake,
            peer,
        ) {
            let ghost before = self.peers_during_handshake@;
            self.peers_during_handshake.push(peer);
            proof {
                assert(self.peers_during_handshake@[self.peers_during_handshake@.len() - 1]
                    == peer);
                assert forall|a: int, b: int|
                    0 <= a < b < self.peers_during_handshake@.len() implies self.peers_during_handshake@[a]
                    != self.peers_during_handshake@[b] by {
                    if b == self.peers_during_handshake@.len() - 1 {
                        assert(self.peers_during_handshake@[a] == before[a]);
                        if before[a] == peer {
                            assert(peers_contain(before, peer));
                        }
                    }
                }
                assert forall|p: PeerAddress|
                    peers_contain(self.current_connected_peers@, p) implies !peers_contain(
                    self.peers_during_handshake@,
                    p,
                ) by {
                    if peers_contain(self.peers_during_handshake@, p) {
                        let k = choose|k: int|
                            0 <= k < self.peers_during_handshake@.len()
                                && self.peers_during_handshake@[k] == p;
                        if k < before.len() {
                            assert(peers_contain(before, p));
                        } else {
                            assert(p == peer);
                        }
                    }
                }
            }
        }
    }

    /// Promotes a peer into the connected set after a successful
    /// handshake. The caller must have made room first.
    pub fn peer_handshaked_successfully(&mut self, peer: PeerAddress)
        requires
            old(self).wf(),
            old(self).current_connected_peers@.len() < MAX_CONNECTIONS_AT_ONCE,
        ensures
            final(self).wf(),
            peers_contain(final(self).current_connected_peers@, peer),
            !peers_contain(final(self).peers_during_handshake@, peer),
            final(self).potential_peers == old(self).potential_peers,
            final(self).node_address == old(self).node_address,
            forall|p: PeerAddress|
                p != peer ==> (peers_contain(final(self).current_connected_peers@, p)
                    <==> peers_contain(old(self).current_connected_peers@, p)),
            final(self).current_connected_peers@.len() <= old(self).current_connected_peers@.len() + 1,
    {
        peers_remove(&mut self.peers_during_handshake, peer);
        proof {
            lemma_peers_filter(old(self).peers_during_handshake@, peer);
        }
        if !peers_find(&self.current_connected_peers, peer) {
            let ghost before = self.current_connected_peers@;
            self.current_connected_peers.push(peer);
            proof {
                assert(self.current_connected_peers@[self.current_connected_peers@.len() - 1]
                    == peer);
                assert forall|a: int, b: int|
                    0 <= a < b < self.current_connected_peers@.len() implies self.current_connected_peers@[a]
                    != self.current_connected_peers@[b] by {
                    if b == self.current_connected_peers@.len() - 1 {
                        assert(self.current_connected_peers@[a] == before[a]);
                        if before[a] == peer {
                            assert(peers_contain(before, peer));
                        }
                    }
                }
                assert forall|p: PeerAddress|
                    peers_contain(self.current_connected_peers@, p) implies !peers_contain(
                    self.peers_during_handshake@,
                    p,
                ) by {
                    let k = choose|k: int|
                        0 <= k < self.current_connected_peers@.len()
                            && self.current_connected_peers@[k] == p;
                    if k < before.len() {
                        assert(peers_contain(before, p));
                    } else {
                        assert(p == peer);
                    }
                }
                assert forall|p: PeerAddress|
                    p != peer implies (peers_contain(self.current_connected_peers@, p)
                    <==> peers_contain(before, p)) by {
                    if peers_contain(self.current_connected_peers@, p) {
                        let k = choose|k: int|
                            0 <= k < self.current_connected_peers@.len()
                                && self.current_connected_peers@[k] == p;
                        if k < before.len() {
                            assert(peers_contain(before, p));
                        }
                    }
                    if peers_contain(before, p) {
                        let k = choose|k: int| 0 <= k < before.len() && before[k] == p;
                        assert(self.current_connected_peers@[k] == p);
                    }
                }
            }
        }
    }
}

/// Filtering an address out of a unique peer list keeps it unique, keeps
/// the other addresses, and drops every occurrence of the address.
pub proof fn lemma_peers_filter(orig: Seq<PeerAddress>, peer: PeerAddress)
    requires
        peers_unique(orig),
    ensures
        ({
            let f = orig.filter(|p: PeerAddress| p != peer);
            &&& peers_unique(f)
            &&& !peers_contain(f, peer)
            &&& forall|k: int|
                0 <= k < f.len() ==> exists|j: int| 0 <= j < orig.len() && #[trigger] f[k]
                    == orig[j]
            &&& forall|p: PeerAddress| p != peer ==> (peers_contain(f, p) <==> peers_contain(orig, p))
            &&& f.len() <= orig.len()
        }),
    decreases orig.len(),
{
    reveal_with_fuel(Seq::filter, 2);
    let pred = |p: PeerAddress| p != peer;
    let f = orig.filter(pred);
    orig.lemma_filter_len(pred);
    if orig.len() == 0 {
    } else {
        let od = orig.drop_last();
        assert(forall|a: int, b: int| 0 <= a < b < od.len() ==> od[a] == orig[a] && od[b] == orig[b]);
        lemma_peers_filter(od, peer);
        let fd = od.filter(pred);
        assert forall|k: int| 0 <= k < f.len() implies exists|j: int|
            0 <= j < orig.len() && #[trigger] f[k] == orig[j] by {
            if k < fd.len() {
                assert(f[k] == fd[k]);
                let j = choose|j: int| 0 <= j < od.len() && fd[k] == od[j];
                assert(f[k] == orig[j]);
            } else {
                assert(f[k] == orig[orig.len() - 1]);
            }
        }
        assert forall|a: int, b: int| 0 <= a < b < f.len() implies f[a] != f[b] by {
            if b < fd.len() {
                assert(f[a] == fd[a] && f[b] == fd[b]);
            } else {
                assert(f[a] == fd[a]);
                let j = choose|j: int| 0 <= j < od.len() && fd[a] == od[j];
                assert(f[a] == orig[j]);
                assert(f[b] == orig.last());
            }
        }
        assert forall|p: PeerAddress|
            p != peer implies (peers_contain(f, p) <==> peers_contain(orig, p)) by {
            if peers_contain(f, p) {
                let k = choose|k: int| 0 <= k < f.len() && f[k] == p;
                let j = choose|j: int| 0 <= j < orig.len() && f[k] == orig[j];
                assert(orig[j] == p);
            }
            if peers_contain(orig, p) {
                let k = choose|k: int| 0 <= k < orig.len() && orig[k] == p;
                if k == orig.len() - 1 {
                    assert(f.last() == p);
                    assert(peers_contain(f, p));
                } else {
                    assert(od[k] == p);
                    assert(peers_contain(od, p));
                    assert(peers_contain(fd, p));
                    let w = choose|w: int| 0 <= w < fd.len() && fd[w] == p;
                    assert(f[w] == p);
                }
            }
        }
        assert(!peers_contain(f, peer)) by {
            if peers_contain(f, peer) {
                let k = choose|k: int| 0 <= k < f.len() && f[k] == peer;
            }
        }
    }
}

/// Removing an address that the list holds strictly shrinks it.
pub proof fn lemma_peers_filter_shrinks(orig: Seq<PeerAddress>, peer: PeerAddress)
    requires
        peers_unique(orig),
        peers_contain(orig, peer),
    ensures
        orig.filter(|p: PeerAddress| p != peer).len() < orig.len(),
    decreases orig.len(),
{
    reveal_with_fuel(Seq::filter, 2);
    let pred = |p: PeerAddress| p != peer;
    if orig.len() > 0 {
        let od = orig.drop_last();
        od.lemma_filter_len(pred);
        if orig.last() == peer {
        } else {
            assert(forall|a: int, b: int|
                0 <= a < b < od.len() ==> od[a] == orig[a] && od[b] == orig[b]);
            let k = choose|k: int| 0 <= k < orig.len() && orig[k] == peer;
            assert(od[k] == peer);
            assert(peers_contain(od, peer));
            lemma_peers_filter_shrinks(od, peer);
        }
    }
}

} // verus!
