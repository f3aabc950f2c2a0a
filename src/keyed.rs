//! A map from `u64` keys to values, held as two vectors kept in ascending key
//! order.
use vstd::prelude::*;

verus! {

pub open spec fn sorted_keys(ks: Seq<u64>) -> bool {
    forall|i: int, j: int| 0 <= i < j < ks.len() ==> ks[i] < ks[j]
}

/// The map that keys `ks` and values `vs`, paired by position, describe.
pub open spec fn key_map<V>(ks: Seq<u64>, vs: Seq<V>) -> Map<u64, V> {
    Map::new(|k: u64| ks.contains(k), |k: u64| vs[ks.index_of(k)])
}

pub proof fn lemma_index_of_sorted(ks: Seq<u64>, i: int)
    requires
        sorted_keys(ks),
        0 <= i < ks.len(),
    ensures
        ks.contains(ks[i]),
        ks.index_of(ks[i]) == i,
{
    assert(ks.contains(ks[i]));
    let j = ks.index_of(ks[i]);
    assert(0 <= j < ks.len() && ks[j] == ks[i]);
    if j < i {
        assert(ks[j] < ks[i]);
    } else if j > i {
        assert(ks[i] < ks[j]);
    }
}

pub struct KeyedVec<V> {
    pub keys: Vec<u64>,
    pub vals: Vec<V>,
}

impl<V> KeyedVec<V> {
    pub open spec fn wf(&self) -> bool {
        &&& self.keys@.len() == self.vals@.len()
        &&& sorted_keys(self.keys@)
    }

    pub open spec fn map(&self) -> Map<u64, V> {
        key_map(self.keys@, self.vals@)
    }

    pub proof fn lemma_entry(&self, i: int)
        requires
            self.wf(),
            0 <= i < self.keys@.len(),
        ensures
            self.map().contains_key(self.keys@[i]),
            self.map()[self.keys@[i]] == self.vals@[i],
    {
        lemma_index_of_sorted(self.keys@, i);
    }

    pub proof fn lemma_entries(&self)
        requires
            self.wf(),
        ensures
            forall|i: int|
                0 <= i < self.keys@.len() ==> self.map().contains_key(#[trigger] self.keys@[i])
                    && self.map()[self.keys@[i]] == self.vals@[i],
            forall|k: u64|
                self.map().contains_key(k) ==> exists|i: int|
                    0 <= i < self.keys@.len() && #[trigger] self.keys@[i] == k,
    {
        assert forall|i: int| 0 <= i < self.keys@.len() implies self.map().contains_key(
            #[trigger] self.keys@[i],
        ) && self.map()[self.keys@[i]] == self.vals@[i] by {
            self.lemma_entry(i);
        }
    }

    pub fn new() -> (r: Self)
        ensures
            r.wf(),
            r.keys@ == Seq::<u64>::empty(),
            r.vals@ == Seq::<V>::empty(),
            r.map() == Map::<u64, V>::empty(),
    {
        let r = KeyedVec { keys: Vec::new(), vals: Vec::new() };
        assert(r.map() =~= Map::<u64, V>::empty());
        r
    }

    /// Where `k` is, or where it would go.
    pub fn find(&self, k: u64) -> (r: (bool, usize))
        requires
            self.wf(),
        ensures
            r.1 <= self.keys@.len(),
            r.0 ==> r.1 < self.keys@.len() && self.keys@[r.1 as int] == k,
            !r.0 ==> forall|i: int| 0 <= i < self.keys@.len() ==> (i < r.1 ==> self.keys@[i] < k)
                && (i >= r.1 ==> self.keys@[i] > k),
            r.0 == self.map().contains_key(k),
    {
        let mut i: usize = 0;
        while i < self.keys.len() && self.keys[i] < k
            invariant
                self.wf(),
                i <= self.keys@.len(),
                forall|t: int| 0 <= t < i ==> self.keys@[t] < k,
            decreases self.keys@.len() - i,
        {
            i += 1;
        }
        let found = i < self.keys.len() && self.keys[i] == k;
        proof {
            if found {
                self.lemma_entry(i as int);
            } else {
                assert forall|t: int| 0 <= t < self.keys@.len() && t >= i implies self.keys@[t]
                    > k by {
                    if t > i {
                        assert(self.keys@[i as int] < self.keys@[t]);
                    }
                }
                assert(!self.keys@.contains(k));
            }
        }
        (found, i)
    }

    pub fn get(&self, k: u64) -> (r: Option<&V>)
        requires
            self.wf(),
        ensures
            match r {
                Some(v) => self.map().contains_key(k) && *v == self.map()[k],
                None => !self.map().contains_key(k),
            },
    {
        let (found, i) = self.find(k);
        if found {
            proof {
                self.lemma_entry(i as int);
            }
            Some(&self.vals[i])
        } else {
            None
        }
    }

    /// Sets the value at `k`, adding the key when it is new.
    pub fn upsert(&mut self, k: u64, v: V)
        requires
            old(self).wf(),
        ensures
            final(self).wf(),
            final(self).map() == old(self).map().insert(k, v),
    {
        let ghost m0 = self.map();
        let ghost ks0 = self.keys@;
        let ghost vs0 = self.vals@;
        let (found, p) = self.find(k);
        if found {
            self.vals.set(p, v);
            proof {
                assert forall|x: u64| #[trigger] self.map().contains_key(x) implies self.map()[x]
                    == m0.insert(k, v)[x] by {
                    let i = ks0.index_of(x);
                    lemma_index_of_sorted(ks0, i);
                }
                assert(self.map() =~= m0.insert(k, v));
            }
        } else {
            self.keys.insert(p, k);
            self.vals.insert(p, v);
            proof {
                let ks = self.keys@;
                assert forall|i: int, j: int| 0 <= i < j < ks.len() implies ks[i] < ks[j] by {
                    if j < p {
                        assert(ks[i] == ks0[i] && ks[j] == ks0[j]);
                    } else if j == p {
                        assert(ks[i] == ks0[i]);
                    } else if i < p {
                        assert(ks[j] == ks0[j - 1]);
                    } else if i == p {
                        assert(ks[j] == ks0[j - 1]);
                    } else {
                        assert(ks[i] == ks0[i - 1] && ks[j] == ks0[j - 1]);
                    }
                }
                assert forall|x: u64| ks.contains(x) <==> ks0.contains(x) || x == k by {
                    if ks.contains(x) {
                        let i = ks.index_of(x);
                        if i < p {
                            assert(ks0[i] == x);
                        } else if i > p {
                            assert(ks0[i - 1] == x);
                        }
                    }
                    if ks0.contains(x) {
                        let i = ks0.index_of(x);
                        if i < p {
                            assert(ks[i] == x);
                        } else {
                            assert(ks[i + 1] == x);
                        }
                    }
                    if x == k {
                        assert(ks[p as int] == k);
                    }
                }
                assert forall|x: u64| #[trigger] self.map().contains_key(x) implies self.map()[x]
                    == m0.insert(k, v)[x] by {
                    if x == k {
                        lemma_index_of_sorted(ks, p as int);
                    } else {
                        let i = ks0.index_of(x);
                        lemma_index_of_sorted(ks0, i);
                        if i < p {
                            lemma_index_of_sorted(ks, i);
                        } else {
                            lemma_index_of_sorted(ks, i + 1);
                        }
                    }
                }
                assert(self.map() =~= m0.insert(k, v));
            }
        }
    }

    /// Drops the entry at position `i`.
    pub fn remove_at(&mut self, i: usize)
        requires
            old(self).wf(),
            i < old(self).keys@.len(),
        ensures
            final(self).wf(),
            final(self).keys@ == old(self).keys@.remove(i as int),
            final(self).vals@ == old(self).vals@.remove(i as int),
            final(self).map() == old(self).map().remove(old(self).keys@[i as int]),
    {
        let ghost m0 = self.map();
        let ghost ks0 = self.keys@;
        let ghost k = ks0[i as int];
        self.keys.remove(i);
        self.vals.remove(i);
        proof {
            let ks = self.keys@;
            assert forall|a: int, b: int| 0 <= a < b < ks.len() implies ks[a] < ks[b] by {
                if b < i {
                } else if a < i {
                    assert(ks[b] == ks0[b + 1]);
                } else {
                    assert(ks[a] == ks0[a + 1] && ks[b] == ks0[b + 1]);
                }
            }
            assert forall|x: u64| ks.contains(x) <==> ks0.contains(x) && x != k by {
                if ks.contains(x) {
                    let j = ks.index_of(x);
                    if j < i {
                        assert(ks0[j] == x);
                        lemma_index_of_sorted(ks0, j);
                    } else {
                        assert(ks0[j + 1] == x);
                        lemma_index_of_sorted(ks0, j + 1);
                    }
                    lemma_index_of_sorted(ks0, i as int);
                }
                if ks0.contains(x) && x != k {
                    let j = ks0.index_of(x);
                    if j < i {
                        assert(ks[j] == x);
                    } else {
                        assert(j != i);
                        assert(ks[j - 1] == x);
                    }
                }
            }
            assert forall|x: u64| #[trigger] self.map().contains_key(x) implies self.map()[x]
                == m0.remove(k)[x] by {
                let j = ks0.index_of(x);
                lemma_index_of_sorted(ks0, j);
                if j < i {
                    lemma_index_of_sorted(ks, j);
                } else {
                    lemma_index_of_sorted(ks, j - 1);
                }
            }
            assert(self.map() =~= m0.remove(k));
        }
    }

    /// Exchanges the value at position `i` with `v`.
    pub fn swap_at(&mut self, i: usize, v: &mut V)
        requires
            old(self).wf(),
            i < old(self).keys@.len(),
        ensures
            final(self).wf(),
            final(self).keys@ == old(self).keys@,
            final(self).vals@ == old(self).vals@.update(i as int, *old(v)),
            *final(v) == old(self).vals@[i as int],
            final(self).map() == old(self).map().insert(old(self).keys@[i as int], *old(v)),
    {
        let ghost m0 = self.map();
        let ghost ks0 = self.keys@;
        let ghost v0 = *v;
        self.vals.set_and_swap(i, v);
        proof {
            lemma_index_of_sorted(ks0, i as int);
            assert forall|x: u64| #[trigger] self.map().contains_key(x) implies self.map()[x]
                == m0.insert(ks0[i as int], v0)[x] by {
                let j = ks0.index_of(x);
                lemma_index_of_sorted(ks0, j);
            }
            assert(self.map() =~= m0.insert(ks0[i as int], v0));
        }
    }

    pub fn clear(&mut self)
        ensures
            final(self).wf(),
            final(self).keys@ == Seq::<u64>::empty(),
            final(self).map() == Map::<u64, V>::empty(),
    {
        self.keys.clear();
        self.vals.clear();
        assert(self.map() =~= Map::<u64, V>::empty());
    }
}

/// Keys that are a function `f` of their values stay so across an update
/// that stores `v` under `f(v)`.
pub proof fn lemma_keys_follow_values<V>(
    before: KeyedVec<V>,
    after: KeyedVec<V>,
    k: u64,
    v: V,
    f: spec_fn(V) -> u64,
)
    requires
        before.wf(),
        after.wf(),
        forall|i: int| 0 <= i < before.keys@.len() ==> #[trigger] before.keys@[i] == f(before.vals@[i]),
        f(v) == k,
        after.map() == before.map().insert(k, v),
    ensures
        forall|i: int| 0 <= i < after.keys@.len() ==> #[trigger] after.keys@[i] == f(after.vals@[i]),
{
    assert forall|i: int| 0 <= i < after.keys@.len() implies #[trigger] after.keys@[i] == f(
        after.vals@[i],
    ) by {
        after.lemma_entry(i);
        let x = after.keys@[i];
        if x != k {
            assert(before.map().contains_key(x));
            let j = before.keys@.index_of(x);
            lemma_index_of_sorted(before.keys@, j);
        }
    }
}

} // verus!
