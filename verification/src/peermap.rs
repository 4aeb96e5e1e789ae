//! What is known of each peer, peer by peer.
use crate::peer::PeerId;
use vstd::prelude::*;

verus! {

/// A value for each of some peers, kept in the order in which the peers came.
pub struct PeerMap<V> {
    entries: Vec<(PeerId, V)>,
}

/// The peers of these entries, in order.
pub open spec fn peers_of<V>(entries: Seq<(PeerId, V)>) -> Seq<Seq<u8>> {
    Seq::new(entries.len(), |i: int| entries[i].0@)
}

/// What these entries say of each peer.
pub open spec fn map_of<V>(entries: Seq<(PeerId, V)>) -> Map<Seq<u8>, V> {
    Map::new(
        |p: Seq<u8>| peers_of(entries).contains(p),
        |p: Seq<u8>| entries[peers_of(entries).index_of(p)].1,
    )
}

impl<V> View for PeerMap<V> {
    type V = Map<Seq<u8>, V>;

    closed spec fn view(&self) -> Map<Seq<u8>, V> {
        map_of(self.entries@)
    }
}

impl<V> PeerMap<V> {
    /// No peer occurs twice.
    pub closed spec fn wf(&self) -> bool {
        peers_of(self.entries@).no_duplicates()
    }

    /// The peers, in the order in which they came.
    pub closed spec fn order(&self) -> Seq<Seq<u8>> {
        peers_of(self.entries@)
    }

    /// The peers that come in order are the peers that something is known of.
    pub proof fn lemma_order(&self)
        requires
            self.wf(),
        ensures
            self.order().no_duplicates(),
            self.order().to_set() == self@.dom(),
            self@.dom().finite(),
            self@.dom().len() == self.order().len(),
    {
        assert(self.order().to_set() =~= self@.dom());
        self.order().unique_seq_to_set();
    }

    /// The entry that stands at a place is that of the peer there.
    proof fn lemma_entry(&self, i: int)
        requires
            self.wf(),
            0 <= i < self.entries@.len(),
        ensures
            self@.dom().contains(self.entries@[i].0@),
            self@[self.entries@[i].0@] == self.entries@[i].1,
    {
        let peers = peers_of(self.entries@);
        assert(peers[i] == self.entries@[i].0@);
        assert(peers.contains(peers[i]));
        assert(peers.index_of(peers[i]) == i);
    }

    pub fn new() -> (map: PeerMap<V>)
        ensures
            map.wf(),
            map@ == Map::<Seq<u8>, V>::empty(),
    {
        let map = PeerMap { entries: Vec::new() };
        assert(map@ =~= Map::<Seq<u8>, V>::empty());
        map
    }

    /// How many peers something is known of.
    pub fn len(&self) -> (n: usize)
        requires
            self.wf(),
        ensures
            n == self@.dom().len(),
            n == self.order().len(),
            self@.dom().finite(),
    {
        proof {
            self.lemma_order();
        }
        self.entries.len()
    }

    /// The peer that came in this place.
    pub fn peer_at(&self, at: usize) -> (peer: PeerId)
        requires
            at < self.order().len(),
        ensures
            peer@ == self.order()[at as int],
    {
        self.entries[at].0
    }

    /// What is known of the peer that came in this place.
    pub fn value_at(&self, at: usize) -> (value: &V)
        requires
            self.wf(),
            at < self.order().len(),
        ensures
            *value == self@[self.order()[at as int]],
            self@.dom().contains(self.order()[at as int]),
    {
        proof {
            self.lemma_entry(at as int);
        }
        &self.entries[at].1
    }

    /// Where a peer stands, if something is known of it.
    fn find(&self, peer: &PeerId) -> (at: Option<usize>)
        requires
            self.wf(),
        ensures
            match at {
                Some(i) => {
                    &&& i < self.entries@.len()
                    &&& self.entries@[i as int].0@ == peer@
                    &&& self@.dom().contains(peer@)
                    &&& self@[peer@] == self.entries@[i as int].1
                },
                None => !self@.dom().contains(peer@),
            },
    {
        let mut at: usize = 0;
        while at < self.entries.len()
            invariant
                self.wf(),
                at <= self.entries@.len(),
                forall|i: int| 0 <= i < at ==> #[trigger] self.entries@[i].0@ != peer@,
            decreases self.entries@.len() - at,
        {
            if self.entries[at].0.same(peer) {
                proof {
                    self.lemma_entry(at as int);
                }
                return Some(at);
            }
            at += 1;
        }
        proof {
            let peers = peers_of(self.entries@);
            if peers.contains(peer@) {
                let i = peers.index_of(peer@);
                assert(self.entries@[i].0@ == peer@);
            }
        }
        None
    }

    /// What is known of a peer.
    pub fn get(&self, peer: &PeerId) -> (value: Option<&V>)
        requires
            self.wf(),
        ensures
            match value {
                Some(v) => self@.dom().contains(peer@) && *v == self@[peer@],
                None => !self@.dom().contains(peer@),
            },
    {
        match self.find(peer) {
            Some(at) => Some(&self.entries[at].1),
            None => None,
        }
    }

    /// Makes this what is known of a peer.
    pub fn insert(&mut self, peer: PeerId, value: V)
        requires
            old(self).wf(),
        ensures
            final(self).wf(),
            final(self)@ == old(self)@.insert(peer@, value),
    {
        let ghost before = self.entries@;
        match self.find(&peer) {
            Some(at) => {
                self.entries.set(at, (peer, value));
                proof {
                    let after = self.entries@;
                    assert(peers_of(after) =~= peers_of(before));
                    assert forall|p: Seq<u8>| #[trigger] self@.dom().contains(p) implies self@[p]
                        == old(self)@.insert(peer@, value)[p] by {
                        let i = peers_of(after).index_of(p);
                        assert(peers_of(after)[i] == p);
                        if p == peer@ {
                            assert(peers_of(after)[at as int] == p);
                        }
                    }
                    assert(self@ =~= old(self)@.insert(peer@, value));
                }
            },
            None => {
                self.entries.push((peer, value));
                proof {
                    let after = self.entries@;
                    assert(peers_of(after) =~= peers_of(before).push(peer@));
                    assert forall|p: Seq<u8>| #[trigger] old(self)@.insert(peer@, value).dom().contains(p) == self@.dom().contains(p) by {
                        if peers_of(before).contains(p) {
                            let i = peers_of(before).index_of(p);
                            assert(peers_of(after)[i] == p);
                        }
                        assert(peers_of(after)[before.len() as int] == peer@);
                        if peers_of(after).contains(p) {
                            let i = peers_of(after).index_of(p);
                            if i < before.len() {
                                assert(peers_of(before)[i] == p);
                            }
                        }
                    }
                    assert forall|p: Seq<u8>| #[trigger] self@.dom().contains(p) implies self@[p]
                        == old(self)@.insert(peer@, value)[p] by {
                        let i = peers_of(after).index_of(p);
                        assert(peers_of(after)[i] == p);
                        if i < before.len() {
                            assert(peers_of(before)[i] == p);
                            assert(peers_of(before).index_of(p) == i);
                        }
                    }
                    assert(self@ =~= old(self)@.insert(peer@, value));
                }
            },
        }
    }

    /// Forgets a peer, and gives what was known of it.
    pub fn remove(&mut self, peer: &PeerId) -> (value: Option<V>)
        requires
            old(self).wf(),
        ensures
            final(self).wf(),
            final(self)@ == old(self)@.remove(peer@),
            match value {
                Some(v) => old(self)@.dom().contains(peer@) && v == old(self)@[peer@],
                None => !old(self)@.dom().contains(peer@),
            },
    {
        let ghost before = self.entries@;
        match self.find(peer) {
            Some(at) => {
                let (_, value) = self.entries.remove(at);
                proof {
                    let after = self.entries@;
                    assert(peers_of(after) =~= peers_of(before).remove(at as int));
                    assert forall|p: Seq<u8>| #[trigger] old(self)@.remove(peer@).dom().contains(p) == self@.dom().contains(p) by {
                        assert(peers_of(before)[at as int] == peer@);
                        if peers_of(before).contains(p) && p != peer@ {
                            let i = peers_of(before).index_of(p);
                            let j = if i < at { i } else { i - 1 };
                            assert(peers_of(after)[j] == p);
                        }
                        if peers_of(after).contains(p) {
                            let j = peers_of(after).index_of(p);
                            let i = if j < at { j } else { j + 1 };
                            assert(peers_of(before)[i] == p);
                        }
                    }
                    assert forall|p: Seq<u8>| #[trigger] self@.dom().contains(p) implies self@[p]
                        == old(self)@.remove(peer@)[p] by {
                        assert(old(self)@.remove(peer@).dom().contains(p));
                        let j = peers_of(after).index_of(p);
                        assert(peers_of(after)[j] == p);
                        let i = if j < at { j } else { j + 1 };
                        assert(peers_of(before)[i] == p);
                        assert(peers_of(before).index_of(p) == i);
                    }
                    assert(self@ =~= old(self)@.remove(peer@));
                }
                Some(value)
            },
            None => {
                assert(self@ =~= old(self)@.remove(peer@));
                None
            },
        }
    }
}

} // verus!
