//! A map from text to values that keeps its keys sorted.

use vstd::prelude::*;

use crate::util::text::{str_eq, str_lt};
#[allow(unused_imports)]
use crate::util::text::{lemma_lt_irreflexive, lemma_lt_total, lemma_lt_transitive, text_lt};

verus! {

/// Each key sorts before every later one.
pub open spec fn sorted_keys(k: Seq<Seq<char>>) -> bool {
    forall|i: int, j: int| 0 <= i < j < k.len() ==> text_lt(#[trigger] k[i], #[trigger] k[j])
}

/// The keys of a sequence of pairs.
pub open spec fn keys_of<V>(p: Seq<(String, V)>) -> Seq<Seq<char>> {
    Seq::new(p.len(), |i: int| p[i].0@)
}

/// The map that a sequence of pairs with distinct keys stands for.
pub open spec fn map_of<V>(p: Seq<(String, V)>) -> Map<Seq<char>, V> {
    Map::new(|k: Seq<char>| keys_of(p).contains(k), |k: Seq<char>| p[keys_of(p).index_of(k)].1)
}

/// A map from text to `V`; its pairs come in the order of their keys.
pub struct StrMap<V> {
    entries: Vec<(String, V)>,
}

impl<V> View for StrMap<V> {
    type V = Map<Seq<char>, V>;

    open spec fn view(&self) -> Map<Seq<char>, V> {
        map_of(self.pairs())
    }
}

proof fn lemma_index<V>(p: Seq<(String, V)>, i: int)
    requires
        sorted_keys(keys_of(p)),
        0 <= i < p.len(),
    ensures
        keys_of(p).contains(p[i].0@),
        map_of(p)[p[i].0@] == p[i].1,
        keys_of(p).index_of(p[i].0@) == i,
{
    let k = keys_of(p);
    assert(k[i] == p[i].0@);
    let j = k.index_of(k[i]);
    assert(k[j] == k[i]);
    if j < i || i < j {
        lemma_lt_irreflexive(k[i]);
    }
}

impl<V> StrMap<V> {
    /// The pairs in the order of their keys.
    pub closed spec fn pairs(&self) -> Seq<(String, V)> {
        self.entries@
    }

    /// The keys in order.
    pub open spec fn keys(&self) -> Seq<Seq<char>> {
        keys_of(self.pairs())
    }

    #[verifier::type_invariant]
    spec fn inv(&self) -> bool {
        sorted_keys(keys_of(self.entries@))
    }

    /// The empty map.
    pub fn new() -> (r: Self)
        ensures
            r@ == Map::<Seq<char>, V>::empty(),
            r.pairs() == Seq::<(String, V)>::empty(),
    {
        let r = StrMap { entries: Vec::new() };
        assert(r@ =~= Map::<Seq<char>, V>::empty());
        r
    }

    /// The pairs in the order of their keys.
    pub fn entries(&self) -> (r: &Vec<(String, V)>)
        ensures
            r@ == self.pairs(),
            sorted_keys(self.keys()),
            forall|i: int|
                0 <= i < r@.len() ==> self@.contains_key((#[trigger] r@[i]).0@) && self@[r@[i].0@]
                    == r@[i].1,
            forall|k: Seq<char>| #[trigger]
                self@.contains_key(k) ==> exists|i: int| 0 <= i < r@.len() && r@[i].0@ == k,
    {
        proof {
            use_type_invariant(self);
            let p = self.entries@;
            assert forall|i: int| 0 <= i < p.len() implies self@.contains_key(
                (#[trigger] p[i]).0@,
            ) && self@[p[i].0@] == p[i].1 by {
                lemma_index(p, i);
            }
            assert forall|k: Seq<char>| #[trigger] self@.contains_key(k) implies exists|i: int|
                0 <= i < p.len() && p[i].0@ == k by {
                let i = keys_of(p).index_of(k);
                assert(p[i].0@ == k);
            }
        }
        &self.entries
    }

    /// The first position whose key does not sort before `k`.
    fn position(&self, k: &str) -> (i: usize)
        ensures
            i <= self.pairs().len(),
            forall|j: int| 0 <= j < i ==> text_lt(#[trigger] keys_of(self.pairs())[j], k@),
            i < self.pairs().len() ==> !text_lt(keys_of(self.pairs())[i as int], k@),
    {
        let mut i: usize = 0;
        while i < self.entries.len() && str_lt(self.entries[i].0.as_str(), k)
            invariant
                i <= self.entries@.len(),
                forall|j: int| 0 <= j < i ==> text_lt(#[trigger] keys_of(self.pairs())[j], k@),
            decreases self.entries@.len() - i,
        {
            i += 1;
        }
        i
    }

    proof fn lemma_absent(p: Seq<(String, V)>, k: Seq<char>, i: int)
        requires
            sorted_keys(keys_of(p)),
            0 <= i <= p.len(),
            forall|j: int| 0 <= j < i ==> text_lt(#[trigger] keys_of(p)[j], k),
            i < p.len() ==> !text_lt(keys_of(p)[i], k) && keys_of(p)[i] != k,
        ensures
            !keys_of(p).contains(k),
            forall|j: int| i <= j < p.len() ==> text_lt(k, #[trigger] keys_of(p)[j]),
    {
        let ks = keys_of(p);
        lemma_lt_irreflexive(k);
        if i < p.len() {
            lemma_lt_total(ks[i], k);
            assert forall|j: int| i <= j < p.len() implies text_lt(k, #[trigger] ks[j]) by {
                if i < j {
                    lemma_lt_transitive(k, ks[i], ks[j]);
                }
            }
        }
        if ks.contains(k) {
            let j = ks.index_of(k);
            assert(ks[j] == k);
        }
    }

    /// The value under `k`.
    pub fn get(&self, k: &str) -> (r: Option<&V>)
        ensures
            match r {
                Some(v) => self@.contains_key(k@) && *v == self@[k@],
                None => !self@.contains_key(k@),
            },
    {
        let i = self.position(k);
        proof {
            use_type_invariant(self);
        }
        if i < self.entries.len() && str_eq(self.entries[i].0.as_str(), k) {
            proof {
                lemma_index(self.entries@, i as int);
            }
            Some(&self.entries[i].1)
        } else {
            proof {
                Self::lemma_absent(self.entries@, k@, i as int);
            }
            None
        }
    }

    /// Whether there is a value under `k`.
    pub fn has(&self, k: &str) -> (r: bool)
        ensures
            r == self@.contains_key(k@),
    {
        self.get(k).is_some()
    }

    /// Puts `v` under `k`, in place of what was there.
    pub fn insert(&mut self, k: String, v: V)
        ensures
            final(self)@ == old(self)@.insert(k@, v),
    {
        let i = self.position(k.as_str());
        proof {
            use_type_invariant(&*self);
        }
        let ghost p = self.entries@;
        let ghost ks = keys_of(p);
        let mut e: Vec<(String, V)> = Vec::new();
        std::mem::swap(&mut e, &mut self.entries);
        if i < e.len() && str_eq(e[i].0.as_str(), k.as_str()) {
            let ghost key = k@;
            e.set(i, (k, v));
            let ghost q = e@;
            proof {
                assert(keys_of(q) =~= ks);
                assert(map_of(q) =~= map_of(p).insert(key, v)) by {
                    lemma_index(p, i as int);
                    lemma_index(q, i as int);
                    assert forall|x: Seq<char>| ks.contains(x) && x != key implies map_of(q)[x]
                        == map_of(p)[x] by {
                        let j = ks.index_of(x);
                        assert(ks[j] == x);
                        lemma_index(p, j);
                        lemma_index(q, j);
                    }
                }
            }
        } else {
            let ghost key = k@;
            proof {
                Self::lemma_absent(p, key, i as int);
            }
            e.insert(i, (k, v));
            let ghost q = e@;
            proof {
                let kq = keys_of(q);
                assert(kq =~= ks.insert(i as int, key));
                assert forall|a: int, b: int| 0 <= a < b < kq.len() implies text_lt(
                    #[trigger] kq[a],
                    #[trigger] kq[b],
                ) by {
                    if a < i && b > i {
                        assert(kq[b] == ks[b - 1]);
                    } else if a > i {
                        assert(kq[a] == ks[a - 1]);
                        assert(kq[b] == ks[b - 1]);
                    } else if a == i {
                        assert(kq[b] == ks[b - 1]);
                    }
                }
                assert(map_of(q) =~= map_of(p).insert(key, v)) by {
                    lemma_index(q, i as int);
                    assert forall|x: Seq<char>| kq.contains(x) <==> (ks.contains(x) || x
                        == key) by {
                        if ks.contains(x) {
                            let j = ks.index_of(x);
                            assert(kq[if j < i {
                                j
                            } else {
                                j + 1
                            }] == x);
                        }
                        if kq.contains(x) {
                            let j = kq.index_of(x);
                            if j < i {
                                assert(ks[j] == x);
                            } else if j > i {
                                assert(ks[j - 1] == x);
                            }
                        }
                        assert(kq[i as int] == key);
                    }
                    assert forall|x: Seq<char>| ks.contains(x) implies map_of(q)[x]
                        == map_of(p)[x] by {
                        let j = ks.index_of(x);
                        lemma_index(p, j);
                        lemma_index(q, if j < i {
                            j
                        } else {
                            j + 1
                        });
                    }
                }
            }
        }
        self.entries = e;
    }

    /// Takes away what is under `k`.
    pub fn remove(&mut self, k: &str)
        ensures
            final(self)@ == old(self)@.remove(k@),
    {
        let i = self.position(k);
        proof {
            use_type_invariant(&*self);
        }
        let ghost p = self.entries@;
        let ghost ks = keys_of(p);
        let mut e: Vec<(String, V)> = Vec::new();
        std::mem::swap(&mut e, &mut self.entries);
        if i < e.len() && str_eq(e[i].0.as_str(), k) {
            e.remove(i);
            let ghost q = e@;
            proof {
                let kq = keys_of(q);
                assert(kq =~= ks.remove(i as int));
                lemma_index(p, i as int);
                assert forall|a: int, b: int| 0 <= a < b < kq.len() implies text_lt(
                    #[trigger] kq[a],
                    #[trigger] kq[b],
                ) by {
                    assert(kq[a] == ks[if a < i {
                        a
                    } else {
                        a + 1
                    }]);
                    assert(kq[b] == ks[if b < i {
                        b
                    } else {
                        b + 1
                    }]);
                }
                assert forall|x: Seq<char>| kq.contains(x) <==> (ks.contains(x) && x != k@) by {
                    if ks.contains(x) && x != k@ {
                        let j = ks.index_of(x);
                        assert(kq[if j < i {
                            j
                        } else {
                            j - 1
                        }] == x);
                    }
                    if kq.contains(x) {
                        let j = kq.index_of(x);
                        let o = if j < i {
                            j
                        } else {
                            j + 1
                        };
                        assert(ks[o] == x);
                        lemma_index(p, o);
                    }
                }
                assert(map_of(q) =~= map_of(p).remove(k@)) by {
                    assert forall|x: Seq<char>| kq.contains(x) implies map_of(q)[x]
                        == map_of(p)[x] by {
                        let j = kq.index_of(x);
                        lemma_index(q, j);
                        lemma_index(p, if j < i {
                            j
                        } else {
                            j + 1
                        });
                    }
                }
            }
        } else {
            proof {
                Self::lemma_absent(p, k@, i as int);
                assert(map_of(p) =~= map_of(p).remove(k@));
            }
        }
        self.entries = e;
    }
}

impl<V: Copy> StrMap<V> {
    /// The same map again.
    pub fn copy(&self) -> (r: Self)
        ensures
            r@ == self@,
    {
        let mut out: StrMap<V> = StrMap::new();
        let e = self.entries();
        let ghost p = e@;
        let mut i: usize = 0;
        while i < e.len()
            invariant
                i <= e@.len(),
                e@ == p,
                forall|j: int|
                    0 <= j < p.len() ==> self@.contains_key((#[trigger] p[j]).0@) && self@[p[j].0@]
                        == p[j].1,
                forall|k: Seq<char>| #[trigger]
                    out@.contains_key(k) ==> self@.contains_key(k) && out@[k] == self@[k],
                forall|j: int| 0 <= j < i ==> out@.contains_key((#[trigger] p[j]).0@),
            decreases e@.len() - i,
        {
            out.insert(e[i].0.clone(), e[i].1);
            i += 1;
        }
        assert(out@ =~= self@) by {
            assert forall|k: Seq<char>| self@.contains_key(k) implies out@.contains_key(k) by {
                let j = choose|j: int| 0 <= j < p.len() && p[j].0@ == k;
                assert(out@.contains_key(p[j].0@));
            }
        }
        out
    }
}

} // verus!
