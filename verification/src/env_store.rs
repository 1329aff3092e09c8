//! The environment store: a mutable mapping from variable names to values,
//! seeded once from the host process environment and mutated only by the
//! `export`, `unset` and `cd` built-ins.

use vstd::prelude::*;

verus! {

/// Mapping from variable name to value. Keys are unique; insertion order is
/// kept only so that a listing has a definite order, no order is promised.
pub struct EnvStore {
    entries: Vec<(String, String)>,
}

impl View for EnvStore {
    type V = Map<Seq<char>, Seq<char>>;

    /// The store viewed as a mathematical map.
    closed spec fn view(&self) -> Map<Seq<char>, Seq<char>> {
        Map::new(
            |k: Seq<char>|
                exists|i: int| 0 <= i < self.pairs().len() && (#[trigger] self.pairs()[i]).0 == k,
            |k: Seq<char>|
                {
                    let i = choose|i: int|
                        0 <= i < self.pairs().len() && (#[trigger] self.pairs()[i]).0 == k;
                    self.pairs()[i].1
                },
        )
    }
}

impl EnvStore {
    /// The stored pairs, in the store's own order.
    pub closed spec fn pairs(&self) -> Seq<(Seq<char>, Seq<char>)> {
        self.entries@.map_values(|p: (String, String)| (p.0@, p.1@))
    }

    /// Well-formed: no variable name occurs twice.
    pub closed spec fn wf(&self) -> bool {
        forall|i: int, j: int|
            0 <= i < j < self.pairs().len() ==> (#[trigger] self.pairs()[i]).0 != (
            #[trigger] self.pairs()[j]).0
    }

    /// Every stored pair agrees with the map view, and every key of the map
    /// view is stored.
    pub proof fn lemma_pairs_view(&self)
        requires
            self.wf(),
        ensures
            forall|i: int|
                0 <= i < self.pairs().len() ==> self@.dom().contains(
                    (#[trigger] self.pairs()[i]).0,
                ) && self@[self.pairs()[i].0] == self.pairs()[i].1,
            forall|k: Seq<char>|
                self@.dom().contains(k) ==> exists|i: int|
                    0 <= i < self.pairs().len() && (#[trigger] self.pairs()[i]).0 == k,
    {
        assert forall|i: int| 0 <= i < self.pairs().len() implies self@.dom().contains(
            (#[trigger] self.pairs()[i]).0,
        ) && self@[self.pairs()[i].0] == self.pairs()[i].1 by {
            let k = self.pairs()[i].0;
            assert(self@.dom().contains(k));
            let j = choose|j: int| 0 <= j < self.pairs().len() && (#[trigger] self.pairs()[j]).0 == k;
            assert(j == i);
        }
    }

    /// An empty store.
    pub fn new() -> (r: EnvStore)
        ensures
            r.wf(),
            r@ == Map::<Seq<char>, Seq<char>>::empty(),
            r.pairs().len() == 0,
    {
        let r = EnvStore { entries: Vec::new() };
        proof {
            assert(r@ =~= Map::<Seq<char>, Seq<char>>::empty());
        }
        r
    }

    /// Index of the entry whose name is `name`, if any.
    fn find(&self, name: &str) -> (r: Option<usize>)
        ensures
            match r {
                Some(i) => i < self.pairs().len() && self.pairs()[i as int].0 == name@,
                None => forall|i: int|
                    0 <= i < self.pairs().len() ==> (#[trigger] self.pairs()[i]).0 != name@,
            },
    {
        let n = self.entries.len();
        let mut i: usize = 0;
        while i < n
            invariant
                n == self.entries@.len(),
                i <= n,
                self.pairs().len() == n,
                forall|j: int| 0 <= j < i ==> (#[trigger] self.pairs()[j]).0 != name@,
            decreases n - i,
        {
            if crate::text::str_eq(self.entries[i].0.as_str(), name) {
                assert(self.pairs()[i as int].0 == name@);
                return Some(i);
            }
            i = i + 1;
        }
        None
    }

    /// Value bound to `name`, or `None` if unbound.
    pub fn get(&self, name: &str) -> (r: Option<String>)
        requires
            self.wf(),
        ensures
            match r {
                Some(v) => self@.dom().contains(name@) && v@ == self@[name@],
                None => !self@.dom().contains(name@),
            },
    {
        match self.find(name) {
            Some(i) => {
                proof {
                    self.lemma_pairs_view();
                }
                Some(self.entries[i].1.clone())
            },
            None => {
                proof {
                    if self@.dom().contains(name@) {
                        self.lemma_pairs_view();
                    }
                }
                None
            },
        }
    }

    /// Bind `name` to `value`, overwriting any earlier binding.
    pub fn set(&mut self, name: String, value: String)
        requires
            old(self).wf(),
        ensures
            final(self).wf(),
            final(self)@ == old(self)@.insert(name@, value@),
    {
        let ghost k: Seq<char> = name@;
        let ghost v: Seq<char> = value@;
        match self.find(&name) {
            Some(i) => {
                self.entries[i] = (name, value);
                proof {
                    assert(self.pairs() =~= old(self).pairs().update(i as int, (k, v)));
                    assert forall|a: int, b: int|
                        0 <= a < b < self.pairs().len() implies (#[trigger] self.pairs()[a]).0 != (
                    #[trigger] self.pairs()[b]).0 by {
                        assert(old(self).pairs()[a].0 != old(self).pairs()[b].0);
                    }
                    self.lemma_view_insert_update(*old(self), i as int, k, v);
                }
            },
            None => {
                self.entries.push((name, value));
                proof {
                    assert(self.pairs() =~= old(self).pairs().push((k, v)));
                    assert forall|a: int, b: int|
                        0 <= a < b < self.pairs().len() implies (#[trigger] self.pairs()[a]).0 != (
                    #[trigger] self.pairs()[b]).0 by {
                        if b < self.pairs().len() - 1 {
                            assert(old(self).pairs()[a].0 != old(self).pairs()[b].0);
                        } else {
                            assert(old(self).pairs()[a].0 != k);
                        }
                    }
                    self.lemma_view_insert_push(*old(self), k, v);
                }
            },
        }
    }

    /// After replacing the entry at `i` (whose key was already `k`) by
    /// `(k, v)`, the map view gains exactly the binding `k -> v`.
    proof fn lemma_view_insert_update(&self, prev: EnvStore, i: int, k: Seq<char>, v: Seq<char>)
        requires
            prev.wf(),
            0 <= i < prev.pairs().len(),
            prev.pairs()[i].0 == k,
            self.pairs() == prev.pairs().update(i, (k, v)),
            self.wf(),
        ensures
            self@ == prev@.insert(k, v),
    {
        assert forall|q: Seq<char>| self@.dom().contains(q) implies prev@.insert(
            k,
            v,
        ).dom().contains(q) by {
            let a = choose|a: int| 0 <= a < self.pairs().len() && (#[trigger] self.pairs()[a]).0 == q;
            if q != k {
                assert(prev.pairs()[a].0 == q);
            }
        }
        assert forall|q: Seq<char>| prev@.insert(k, v).dom().contains(q) implies self@.dom().contains(
            q,
        ) by {
            if q == k {
                assert(self.pairs()[i].0 == q);
            } else {
                let a = choose|a: int| 0 <= a < prev.pairs().len() && (#[trigger] prev.pairs()[a]).0 == q;
                assert(self.pairs()[a].0 == q);
            }
        }
        assert forall|q: Seq<char>| self@.dom().contains(q) implies self@[q] == prev@.insert(k, v)[q] by {
            let a = choose|a: int| 0 <= a < self.pairs().len() && (#[trigger] self.pairs()[a]).0 == q;
            self.lemma_pairs_view();
            if q == k {
                assert(a == i) by {
                    if a != i {
                        assert(self.pairs()[a].0 != self.pairs()[i].0);
                    }
                }
                assert(self@[q] == v);
            } else {
                assert(a != i);
                assert(prev.pairs()[a].0 == q);
                prev.lemma_pairs_view();
                assert(prev@[q] == prev.pairs()[a].1);
                assert(self@[q] == self.pairs()[a].1);
            }
        }
        assert(self@ =~= prev@.insert(k, v));
    }

    /// After pushing a pair with a fresh key `k`, the map view gains exactly
    /// the binding `k -> v`.
    proof fn lemma_view_insert_push(&self, prev: EnvStore, k: Seq<char>, v: Seq<char>)
        requires
            prev.wf(),
            forall|i: int| 0 <= i < prev.pairs().len() ==> (#[trigger] prev.pairs()[i]).0 != k,
            self.pairs() == prev.pairs().push((k, v)),
            self.wf(),
        ensures
            self@ == prev@.insert(k, v),
    {
        let n = prev.pairs().len() as int;
        assert forall|q: Seq<char>| self@.dom().contains(q) implies prev@.insert(
            k,
            v,
        ).dom().contains(q) by {
            let a = choose|a: int| 0 <= a < self.pairs().len() && (#[trigger] self.pairs()[a]).0 == q;
            if q != k {
                assert(a < n);
                assert(prev.pairs()[a].0 == q);
            }
        }
        assert forall|q: Seq<char>| prev@.insert(k, v).dom().contains(q) implies self@.dom().contains(
            q,
        ) by {
            if q == k {
                assert(self.pairs()[n].0 == q);
            } else {
                let a = choose|a: int| 0 <= a < prev.pairs().len() && (#[trigger] prev.pairs()[a]).0 == q;
                assert(self.pairs()[a].0 == q);
            }
        }
        assert forall|q: Seq<char>| self@.dom().contains(q) implies self@[q] == prev@.insert(k, v)[q] by {
            let a = choose|a: int| 0 <= a < self.pairs().len() && (#[trigger] self.pairs()[a]).0 == q;
            self.lemma_pairs_view();
            if q == k {
                assert(a == n) by {
                    if a != n {
                        assert(self.pairs()[a].0 != self.pairs()[n].0);
                    }
                }
                assert(self@[q] == v);
            } else {
                assert(a < n);
                assert(prev.pairs()[a].0 == q);
                prev.lemma_pairs_view();
            }
        }
        assert(self@ =~= prev@.insert(k, v));
    }

    /// Remove any binding of `name`; a no-op if it is absent.
    pub fn remove(&mut self, name: &str)
        requires
            old(self).wf(),
        ensures
            final(self).wf(),
            final(self)@ == old(self)@.remove(name@),
    {
        let ghost k: Seq<char> = name@;
        match self.find(name) {
            Some(i) => {
                self.entries.remove(i);
                proof {
                    assert(self.pairs() =~= old(self).pairs().remove(i as int));
                    let n = self.pairs().len() as int;
                    assert forall|a: int, b: int|
                        0 <= a < b < n implies (#[trigger] self.pairs()[a]).0 != (
                    #[trigger] self.pairs()[b]).0 by {
                        let a0 = if a < i { a } else { a + 1 };
                        let b0 = if b < i { b } else { b + 1 };
                        assert(old(self).pairs()[a0].0 != old(self).pairs()[b0].0);
                    }
                    self.lemma_view_remove(*old(self), i as int, k);
                }
            },
            None => {
                proof {
                    if old(self)@.dom().contains(k) {
                        old(self).lemma_pairs_view();
                    }
                    assert(self@ =~= old(self)@.remove(k));
                }
            },
        }
    }

    /// After removing the single entry whose key is `k`, the map view loses
    /// exactly the binding of `k`.
    proof fn lemma_view_remove(&self, prev: EnvStore, i: int, k: Seq<char>)
        requires
            prev.wf(),
            0 <= i < prev.pairs().len(),
            prev.pairs()[i].0 == k,
            self.pairs() == prev.pairs().remove(i),
            self.wf(),
        ensures
            self@ == prev@.remove(k),
    {
        assert forall|q: Seq<char>| self@.dom().contains(q) implies prev@.remove(k).dom().contains(
            q,
        ) by {
            let a = choose|a: int| 0 <= a < self.pairs().len() && (#[trigger] self.pairs()[a]).0 == q;
            let a0 = if a < i { a } else { a + 1 };
            assert(prev.pairs()[a0].0 == q);
            if q == k {
                assert(prev.pairs()[a0].0 != prev.pairs()[i].0 || a0 == i);
                assert(false);
            }
        }
        assert forall|q: Seq<char>| prev@.remove(k).dom().contains(q) implies self@.dom().contains(
            q,
        ) by {
            let a = choose|a: int| 0 <= a < prev.pairs().len() && (#[trigger] prev.pairs()[a]).0 == q;
            assert(a != i);
            let a1 = if a < i { a } else { a - 1 };
            assert(self.pairs()[a1].0 == q);
        }
        assert forall|q: Seq<char>| self@.dom().contains(q) implies self@[q] == prev@.remove(k)[q] by {
            let a = choose|a: int| 0 <= a < self.pairs().len() && (#[trigger] self.pairs()[a]).0 == q;
            self.lemma_pairs_view();
            let a0 = if a < i { a } else { a + 1 };
            assert(prev.pairs()[a0].0 == q);
            prev.lemma_pairs_view();
            assert(prev@[q] == prev.pairs()[a0].1);
            assert(self@[q] == self.pairs()[a].1);
        }
        assert(self@ =~= prev@.remove(k));
    }

    /// The stored pairs, copied out in the store's own order, for display.
    pub fn snapshot(&self) -> (r: Vec<(String, String)>)
        ensures
            r@.map_values(|p: (String, String)| (p.0@, p.1@)) == self.pairs(),
    {
        let n = self.entries.len();
        let mut r: Vec<(String, String)> = Vec::new();
        let mut i: usize = 0;
        while i < n
            invariant
                n == self.entries@.len(),
                i <= n,
                r@.len() == i,
                forall|j: int|
                    0 <= j < i ==> (#[trigger] r@[j]).0@ == self.pairs()[j].0 && r@[j].1@
                        == self.pairs()[j].1,
            decreases n - i,
        {
            let key = self.entries[i].0.clone();
            let val = self.entries[i].1.clone();
            r.push((key, val));
            i = i + 1;
        }
        proof {
            assert(r@.map_values(|p: (String, String)| (p.0@, p.1@)) =~= self.pairs());
        }
        r
    }
}

} // verus!
