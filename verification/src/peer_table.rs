use vstd::prelude::*;

use crate::peer::PeerId;

verus! {

/// Associates peers with values, at most one value per peer.
pub struct PeerTable<V> {
    entries: Vec<(PeerId, V)>,
}

/// Whether `peer` is the key of entry `i`.
spec fn is_entry<V>(entries: Seq<(PeerId, V)>, i: int, peer: Seq<u8>) -> bool {
    0 <= i < entries.len() && entries[i].0@ == peer
}

impl<V> View for PeerTable<V> {
    type V = Map<Seq<u8>, V>;

    closed spec fn view(&self) -> Map<Seq<u8>, V> {
        Map::new(
            |peer: Seq<u8>| exists|i: int| is_entry(self.entries@, i, peer),
            |peer: Seq<u8>| self.entries@[choose|i: int| is_entry(self.entries@, i, peer)].1,
        )
    }
}

impl<V> PeerTable<V> {
    /// No peer has two entries.
    pub closed spec fn wf(&self) -> bool {
        forall|i: int, j: int, peer: Seq<u8>|
            is_entry(self.entries@, i, peer) && is_entry(self.entries@, j, peer) ==> i == j
    }

    /// An empty table.
    pub fn new() -> (table: Self)
        ensures
            table.wf(),
            table@ == Map::<Seq<u8>, V>::empty(),
    {
        let table = PeerTable { entries: Vec::new() };
        assert(table@ =~= Map::<Seq<u8>, V>::empty());
        table
    }

    proof fn lemma_entry(&self, i: int)
        requires
            self.wf(),
            0 <= i < self.entries@.len(),
        ensures
            self@.contains_key(self.entries@[i].0@),
            self@[self.entries@[i].0@] == self.entries@[i].1,
    {
        let peer = self.entries@[i].0@;
        assert(is_entry(self.entries@, i, peer));
        let j = choose|j: int| is_entry(self.entries@, j, peer);
        assert(is_entry(self.entries@, j, peer));
        assert(i == j);
    }

    /// Where the entry of `peer` stands.
    fn position(&self, peer: &PeerId) -> (found: Option<usize>)
        ensures
            match found {
                Some(i) => is_entry(self.entries@, i as int, peer@),
                None => forall|i: int| !is_entry(self.entries@, i, peer@),
            },
            found is Some == self@.contains_key(peer@),
    {
        let mut i: usize = 0;
        while i < self.entries.len()
            invariant
                i <= self.entries.len(),
                forall|k: int| 0 <= k < i ==> !is_entry(self.entries@, k, peer@),
            decreases self.entries.len() - i,
        {
            if self.entries[i].0.same_as(peer) {
                assert(is_entry(self.entries@, i as int, peer@));
                return Some(i);
            }
            i += 1;
        }
        None
    }

    /// Whether `peer` has a value.
    pub fn contains_key(&self, peer: &PeerId) -> (found: bool)
        ensures
            found == self@.contains_key(peer@),
    {
        self.position(peer).is_some()
    }

    /// The value of `peer`, if it has one.
    pub fn get(&self, peer: &PeerId) -> (value: Option<&V>)
        requires
            self.wf(),
        ensures
            match value {
                Some(v) => self@.contains_key(peer@) && *v == self@[peer@],
                None => !self@.contains_key(peer@),
            },
    {
        match self.position(peer) {
            Some(i) => {
                proof {
                    self.lemma_entry(i as int);
                }
                Some(&self.entries[i].1)
            },
            None => None,
        }
    }

    /// Gives `peer` the value `value`, in place of the one it had.
    pub fn insert(&mut self, peer: PeerId, value: V)
        requires
            old(self).wf(),
        ensures
            final(self).wf(),
            final(self)@ == old(self)@.insert(peer@, value),
    {
        self.remove(&peer);
        let ghost before = *self;
        self.entries.push((peer, value));
        proof {
            let entries = self.entries@;
            let last = entries.len() - 1;
            assert(!before@.contains_key(peer@));
            assert forall|i: int| !is_entry(before.entries@, i, peer@) by {
                if is_entry(before.entries@, i, peer@) {
                    assert(before@.contains_key(peer@));
                }
            }
            assert forall|i: int, j: int, p: Seq<u8>|
                is_entry(entries, i, p) && is_entry(entries, j, p) implies i == j by {
                if i < last {
                    assert(is_entry(before.entries@, i, p));
                }
                if j < last {
                    assert(is_entry(before.entries@, j, p));
                }
            }
            assert forall|p: Seq<u8>| self@.contains_key(p) == (p == peer@
                || before@.contains_key(p)) by {
                if before@.contains_key(p) {
                    let i = choose|i: int| is_entry(before.entries@, i, p);
                    assert(is_entry(entries, i, p));
                }
                if p == peer@ {
                    assert(is_entry(entries, last, p));
                }
                if self@.contains_key(p) && p != peer@ {
                    let i = choose|i: int| is_entry(entries, i, p);
                    assert(is_entry(before.entries@, i, p));
                }
            }
            assert forall|p: Seq<u8>| self@.contains_key(p) implies self@[p] == if p == peer@ {
                value
            } else {
                before@[p]
            } by {
                let i = choose|i: int| is_entry(entries, i, p);
                self.lemma_entry(i);
                if i < last {
                    before.lemma_entry(i);
                }
            }
            assert(self@ =~= before@.insert(peer@, value));
            assert(self@ =~= old(self)@.insert(peer@, value));
        }
    }

    /// Takes the value of `peer` out of the table.
    pub fn remove(&mut self, peer: &PeerId) -> (removed: Option<V>)
        requires
            old(self).wf(),
        ensures
            final(self).wf(),
            final(self)@ == old(self)@.remove(peer@),
            match removed {
                Some(v) => old(self)@.contains_key(peer@) && v == old(self)@[peer@],
                None => !old(self)@.contains_key(peer@),
            },
    {
        match self.position(peer) {
            Some(at) => {
                let ghost before = *self;
                let (_, value) = self.entries.remove(at);
                proof {
                    before.lemma_entry(at as int);
                    before.lemma_without(*self, at as int);
                }
                Some(value)
            },
            None => {
                assert(self@ =~= old(self)@.remove(peer@));
                None
            },
        }
    }

    proof fn lemma_without(self, rest: PeerTable<V>, at: int)
        requires
            self.wf(),
            0 <= at < self.entries@.len(),
            rest.entries@ == self.entries@.remove(at),
        ensures
            rest.wf(),
            rest@ == self@.remove(self.entries@[at].0@),
    {
        let gone = self.entries@[at].0@;
        assert(is_entry(self.entries@, at, gone));
        let back = |i: int| if i < at { i } else { i + 1 };
        assert forall|i: int, p: Seq<u8>| #[trigger] is_entry(rest.entries@, i, p) implies is_entry(
            self.entries@,
            back(i),
            p,
        ) && p != gone && back(i) != at by {
            assert(is_entry(self.entries@, back(i), p));
        }
        assert forall|i: int, j: int, p: Seq<u8>|
            is_entry(rest.entries@, i, p) && is_entry(rest.entries@, j, p) implies i == j by {
            assert(is_entry(self.entries@, back(i), p));
            assert(is_entry(self.entries@, back(j), p));
        }
        assert forall|p: Seq<u8>| rest@.contains_key(p) == (p != gone && self@.contains_key(p)) by {
            if rest@.contains_key(p) {
                let i = choose|i: int| is_entry(rest.entries@, i, p);
                assert(is_entry(self.entries@, back(i), p));
            }
            if p != gone && self@.contains_key(p) {
                let i = choose|i: int| is_entry(self.entries@, i, p);
                let j = if i < at { i } else { i - 1 };
                assert(is_entry(rest.entries@, j, p));
            }
        }
        assert forall|p: Seq<u8>| rest@.contains_key(p) implies rest@[p] == self@[p] by {
            let i = choose|i: int| is_entry(rest.entries@, i, p);
            rest.lemma_entry(i);
            assert(is_entry(self.entries@, back(i), p));
            self.lemma_entry(back(i));
        }
        assert(rest@ =~= self@.remove(gone));
    }
}

impl<A> PeerTable<Vec<A>> {
    /// The lists of the peers.
    pub open spec fn lists(&self) -> Map<Seq<u8>, Seq<A>> {
        self@.map_values(|list: Vec<A>| list@)
    }

    /// Adds `item` to the end of the list of `peer`, which is empty at first.
    pub fn append(&mut self, peer: PeerId, item: A)
        requires
            old(self).wf(),
        ensures
            final(self).wf(),
            final(self).lists() == old(self).lists().insert(
                peer@,
                list_of(old(self).lists(), peer@).push(item),
            ),
    {
        let mut list = match self.remove(&peer) {
            Some(list) => list,
            None => Vec::new(),
        };
        list.push(item);
        self.insert(peer, list);
        assert(self.lists() =~= old(self).lists().insert(
            peer@,
            list_of(old(self).lists(), peer@).push(item),
        ));
    }
}

/// The list of `peer`, which is empty where there is none.
pub open spec fn list_of<A>(lists: Map<Seq<u8>, Seq<A>>, peer: Seq<u8>) -> Seq<A> {
    if lists.contains_key(peer) {
        lists[peer]
    } else {
        Seq::empty()
    }
}

} // verus!
