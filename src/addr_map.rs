//! A finite map keyed by node address, the in-memory form of a store table.

use vstd::prelude::*;

use crate::wire::{NodeAddress, address_eq};

verus! {

/// The addresses of `keys`, as byte sequences.
pub open spec fn key_views(keys: Seq<NodeAddress>) -> Seq<Seq<u8>> {
    Seq::new(keys.len(), |i: int| keys[i]@)
}

/// An address as a big-endian number; its order is the lexicographic order
/// of the six bytes, the key order of the catalogue.
pub open spec fn addr_key(a: Seq<u8>) -> u64 {
    ((a[0] as u64) << 40u64) | ((a[1] as u64) << 32u64) | ((a[2] as u64) << 24u64) | ((a[3] as u64)
        << 16u64) | ((a[4] as u64) << 8u64) | (a[5] as u64)
}

pub fn address_key(a: &NodeAddress) -> (r: u64)
    ensures
        r == addr_key(a@),
{
    ((a[0] as u64) << 40u64) | ((a[1] as u64) << 32u64) | ((a[2] as u64) << 24u64) | ((a[3] as u64)
        << 16u64) | ((a[4] as u64) << 8u64) | (a[5] as u64)
}

/// Distinct addresses have distinct keys.
pub proof fn lemma_addr_key_injective(a: Seq<u8>, b: Seq<u8>)
    requires
        a.len() == 6,
        b.len() == 6,
        addr_key(a) == addr_key(b),
    ensures
        a == b,
{
    let (a0, a1, a2, a3, a4, a5) = (a[0], a[1], a[2], a[3], a[4], a[5]);
    let (b0, b1, b2, b3, b4, b5) = (b[0], b[1], b[2], b[3], b[4], b[5]);
    assert(((a0 as u64) << 40u64) | ((a1 as u64) << 32u64) | ((a2 as u64) << 24u64) | ((a3 as u64)
        << 16u64) | ((a4 as u64) << 8u64) | (a5 as u64) == ((b0 as u64) << 40u64) | ((b1 as u64)
        << 32u64) | ((b2 as u64) << 24u64) | ((b3 as u64) << 16u64) | ((b4 as u64) << 8u64) | (
    b5 as u64) ==> a0 == b0 && a1 == b1 && a2 == b2 && a3 == b3 && a4 == b4 && a5 == b5)
        by (bit_vector);
    assert(a =~= b);
}

/// Map from node address to a value; each address occurs once.
pub struct AddrMap<V> {
    keys: Vec<NodeAddress>,
    vals: Vec<V>,
    m: Ghost<Map<Seq<u8>, V>>,
}

impl<V: Copy> AddrMap<V> {
    pub closed spec fn view(&self) -> Map<Seq<u8>, V> {
        self.m@
    }

    /// The addresses, in the order in which the map holds them.
    pub closed spec fn key_seq(&self) -> Seq<Seq<u8>> {
        key_views(self.keys@)
    }

    pub closed spec fn wf(&self) -> bool {
        &&& self.keys@.len() == self.vals@.len()
        &&& forall|i: int|
            0 <= i < self.keys@.len() ==> self.m@.dom().contains(#[trigger] self.keys@[i]@)
                && self.m@[self.keys@[i]@] == self.vals@[i]
        &&& forall|k: Seq<u8>| #[trigger] self.m@.dom().contains(k) ==> self.key_seq().contains(k)
        &&& self.key_seq().no_duplicates()
        &&& forall|i: int, j: int|
            0 <= i < j < self.keys@.len() ==> addr_key(#[trigger] self.keys@[i]@) < addr_key(
                #[trigger] self.keys@[j]@,
            )
    }

    /// The addresses, in key order.
    pub proof fn lemma_sorted(&self)
        requires
            self.wf(),
        ensures
            forall|i: int, j: int|
                0 <= i < j < self.key_seq().len() ==> addr_key(#[trigger] self.key_seq()[i])
                    < addr_key(#[trigger] self.key_seq()[j]),
    {
        assert forall|i: int, j: int| 0 <= i < j < self.key_seq().len() implies addr_key(
            #[trigger] self.key_seq()[i],
        ) < addr_key(#[trigger] self.key_seq()[j]) by {
            assert(self.key_seq()[i] == self.keys@[i]@);
            assert(self.key_seq()[j] == self.keys@[j]@);
        }
    }

    /// Where an absent address goes in key order.
    fn insert_pos(&self, a: &NodeAddress) -> (pos: usize)
        requires
            self.wf(),
            !self@.dom().contains(a@),
        ensures
            pos <= self.keys@.len(),
            forall|j: int| 0 <= j < pos ==> addr_key(#[trigger] self.keys@[j]@) < addr_key(a@),
            forall|j: int|
                pos <= j < self.keys@.len() ==> addr_key(#[trigger] self.keys@[j]@) > addr_key(a@),
    {
        let k = address_key(a);
        let mut i: usize = 0;
        while i < self.keys.len()
            invariant
                self.wf(),
                !self@.dom().contains(a@),
                k == addr_key(a@),
                0 <= i <= self.keys@.len(),
                forall|j: int| 0 <= j < i ==> addr_key(#[trigger] self.keys@[j]@) < k,
            decreases self.keys@.len() - i,
        {
            let ki = address_key(&self.keys[i]);
            if ki >= k {
                proof {
                    if ki == k {
                        lemma_addr_key_injective(self.keys@[i as int]@, a@);
                        assert(self@.dom().contains(self.keys@[i as int]@));
                    }
                    assert forall|j: int| i <= j < self.keys@.len() implies addr_key(
                        #[trigger] self.keys@[j]@,
                    ) > addr_key(a@) by {
                        if j > i {
                            assert(addr_key(self.keys@[i as int]@) < addr_key(self.keys@[j]@));
                        }
                    }
                }
                return i;
            }
            i = i + 1;
        }
        i
    }

    /// The addresses are those of the map, each once.
    pub proof fn lemma_keys(&self)
        requires
            self.wf(),
        ensures
            self.key_seq().to_set() == self@.dom(),
            self.key_seq().no_duplicates(),
            self.key_seq().len() == self@.dom().len(),
            self@.dom().finite(),
    {
        let ks = self.key_seq();
        assert forall|k: Seq<u8>| ks.to_set().contains(k) <==> self@.dom().contains(k) by {
            if ks.contains(k) {
                let i = choose|i: int| 0 <= i < ks.len() && ks[i] == k;
                assert(self.keys@[i]@ == k);
            }
        }
        assert(ks.to_set() =~= self@.dom());
        ks.unique_seq_to_set();
    }

    pub fn new() -> (r: Self)
        ensures
            r.wf(),
            r@ == Map::<Seq<u8>, V>::empty(),
    {
        AddrMap { keys: Vec::new(), vals: Vec::new(), m: Ghost(Map::empty()) }
    }

    pub fn len(&self) -> (r: usize)
        requires
            self.wf(),
        ensures
            r == self@.dom().len(),
    {
        proof {
            self.lemma_keys();
        }
        self.keys.len()
    }

    fn find(&self, a: &NodeAddress) -> (r: Option<usize>)
        requires
            self.wf(),
        ensures
            r is Some ==> r->Some_0 < self.keys@.len() && self.keys@[r->Some_0 as int]@ == a@,
            r is None ==> !self@.dom().contains(a@),
    {
        let mut i: usize = 0;
        while i < self.keys.len()
            invariant
                0 <= i <= self.keys@.len(),
                forall|j: int| 0 <= j < i ==> self.keys@[j]@ != a@,
            decreases self.keys@.len() - i,
        {
            if address_eq(&self.keys[i], a) {
                return Some(i);
            }
            i = i + 1;
        }
        proof {
            if self@.dom().contains(a@) {
                assert(self.key_seq().contains(a@));
                let j = choose|j: int| 0 <= j < self.key_seq().len() && self.key_seq()[j] == a@;
                assert(self.keys@[j]@ == a@);
            }
        }
        None
    }

    /// The value at `a`, if any.
    pub fn get(&self, a: &NodeAddress) -> (r: Option<V>)
        requires
            self.wf(),
        ensures
            r == (if self@.dom().contains(a@) {
                Some(self@[a@])
            } else {
                None
            }),
    {
        match self.find(a) {
            Some(i) => Some(self.vals[i]),
            None => None,
        }
    }

    /// Sets the value at `a`; tells whether `a` was present before.
    pub fn insert(&mut self, a: &NodeAddress, v: V) -> (existed: bool)
        requires
            old(self).wf(),
        ensures
            final(self).wf(),
            final(self)@ == old(self)@.insert(a@, v),
            existed == old(self)@.dom().contains(a@),
    {
        match self.find(a) {
            Some(i) => {
                self.vals.set(i, v);
                self.m = Ghost(self.m@.insert(a@, v));
                proof {
                    assert(self.key_seq() =~= old(self).key_seq());
                    assert forall|j: int| 0 <= j < self.keys@.len() implies self.m@.dom().contains(
                        #[trigger] self.keys@[j]@,
                    ) && self.m@[self.keys@[j]@] == self.vals@[j] by {
                        if j != i {
                            assert(old(self).key_seq()[j] != old(self).key_seq()[i as int]);
                        }
                    }
                }
                true
            },
            None => {
                let pos = self.insert_pos(a);
                let ghost ks = self.key_seq();
                let ghost ok = self.keys@;
                let ghost ov = self.vals@;
                self.keys.insert(pos, *a);
                self.vals.insert(pos, v);
                self.m = Ghost(self.m@.insert(a@, v));
                proof {
                    let p = pos as int;
                    assert(self.key_seq() =~= ks.insert(p, a@));
                    assert forall|j: int| 0 <= j < self.keys@.len() implies self.keys@[j] == (if j < p {
                        ok[j]
                    } else if j == p {
                        *a
                    } else {
                        ok[j - 1]
                    }) && self.vals@[j] == (if j < p {
                        ov[j]
                    } else if j == p {
                        v
                    } else {
                        ov[j - 1]
                    }) by {}
                    assert forall|k: Seq<u8>| #[trigger] self.m@.dom().contains(k) implies self.key_seq().contains(k) by {
                        if k != a@ {
                            let j = choose|j: int| 0 <= j < ks.len() && ks[j] == k;
                            if j < p {
                                assert(self.key_seq()[j] == k);
                            } else {
                                assert(self.key_seq()[j + 1] == k);
                            }
                        } else {
                            assert(self.key_seq()[p] == k);
                        }
                    }
                    assert forall|j: int| 0 <= j < self.keys@.len() implies self.m@.dom().contains(
                        #[trigger] self.keys@[j]@,
                    ) && self.m@[self.keys@[j]@] == self.vals@[j] by {
                        if j != p {
                            let oj = if j < p { j } else { j - 1 };
                            assert(ks[oj] == ok[oj]@);
                            assert(ks.contains(ok[oj]@));
                            assert(ok[oj]@ != a@);
                        }
                    }
                    assert forall|x: int, y: int| 0 <= x < y < self.keys@.len() implies addr_key(
                        #[trigger] self.keys@[x]@,
                    ) < addr_key(#[trigger] self.keys@[y]@) by {
                        let ox = if x < p { x } else { x - 1 };
                        let oy = if y < p { y } else { y - 1 };
                        if x != p && y != p {
                            assert(addr_key(ok[ox]@) < addr_key(ok[oy]@));
                        }
                    }
                    assert forall|x: int, y: int| 0 <= x < y < self.key_seq().len() implies self.key_seq()[x] != self.key_seq()[y] by {
                        assert(addr_key(self.keys@[x]@) < addr_key(self.keys@[y]@));
                    }
                }
                false
            },
        }
    }

    /// Removes the entry at `a`; tells whether there was one.
    pub fn remove(&mut self, a: &NodeAddress) -> (existed: bool)
        requires
            old(self).wf(),
        ensures
            final(self).wf(),
            final(self)@ == old(self)@.remove(a@),
            existed == old(self)@.dom().contains(a@),
    {
        match self.find(a) {
            Some(i) => {
                let ghost ks = self.key_seq();
                self.keys.remove(i);
                self.vals.remove(i);
                self.m = Ghost(self.m@.remove(a@));
                proof {
                    assert(self.key_seq() =~= ks.remove(i as int));
                    assert forall|k: Seq<u8>| #[trigger] self.m@.dom().contains(k) implies self.key_seq().contains(k) by {
                        let j = choose|j: int| 0 <= j < ks.len() && ks[j] == k;
                        assert(j != i);
                        if j < i {
                            assert(self.key_seq()[j] == k);
                        } else {
                            assert(self.key_seq()[j - 1] == k);
                        }
                    }
                    assert forall|j: int| 0 <= j < self.keys@.len() implies self.m@.dom().contains(
                        #[trigger] self.keys@[j]@,
                    ) && self.m@[self.keys@[j]@] == self.vals@[j] by {
                        let oj = if j < i { j } else { j + 1 };
                        assert(self.keys@[j] == old(self).keys@[oj]);
                        assert(ks[oj] != ks[i as int]);
                    }
                    assert forall|x: int, y: int| 0 <= x < y < self.key_seq().len() implies self.key_seq()[x] != self.key_seq()[y] by {
                        let ox = if x < i { x } else { x + 1 };
                        let oy = if y < i { y } else { y + 1 };
                        assert(self.key_seq()[x] == ks[ox]);
                        assert(self.key_seq()[y] == ks[oy]);
                    }
                    assert forall|x: int, y: int| 0 <= x < y < self.keys@.len() implies addr_key(
                        #[trigger] self.keys@[x]@,
                    ) < addr_key(#[trigger] self.keys@[y]@) by {
                        let ox = if x < i { x } else { x + 1 };
                        let oy = if y < i { y } else { y + 1 };
                        assert(self.keys@[x] == old(self).keys@[ox]);
                        assert(self.keys@[y] == old(self).keys@[oy]);
                    }
                }
                true
            },
            None => {
                proof {
                    assert(self.m@.remove(a@) =~= self.m@);
                }
                false
            },
        }
    }

    /// The addresses of the map, each once.
    pub fn addresses(&self) -> (r: Vec<NodeAddress>)
        requires
            self.wf(),
        ensures
            key_views(r@).to_set() == self@.dom(),
            key_views(r@).no_duplicates(),
            r@.len() == self@.dom().len(),
            forall|i: int, j: int|
                0 <= i < j < r@.len() ==> addr_key(#[trigger] r@[i]@) < addr_key(#[trigger] r@[j]@),
    {
        let mut out: Vec<NodeAddress> = Vec::new();
        let mut i: usize = 0;
        while i < self.keys.len()
            invariant
                0 <= i <= self.keys@.len(),
                out@ == self.keys@.subrange(0, i as int),
            decreases self.keys@.len() - i,
        {
            out.push(self.keys[i]);
            i = i + 1;
            proof {
                assert(out@ =~= self.keys@.subrange(0, i as int));
            }
        }
        proof {
            assert(out@ =~= self.keys@);
            assert(key_views(out@) =~= self.key_seq());
            self.lemma_keys();
        }
        out
    }
}

} // verus!
