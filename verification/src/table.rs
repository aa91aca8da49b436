//! A map from text to values that can be walked.
//!
//! Entries are walked in the order in which their keys were first
//! inserted; a removal moves the last entry into the gap.

use vstd::hash_map::*;
use vstd::prelude::*;

verus! {

/// A map keyed by text.  `index` gives each key's position in `entries`.
pub struct Table<V> {
    index: StringHashMap<usize>,
    entries: Vec<(String, V)>,
}

impl<V> View for Table<V> {
    type V = Map<Seq<char>, V>;

    closed spec fn view(&self) -> Map<Seq<char>, V> {
        self.index@.map_values(|i: usize| self.entries@[i as int].1)
    }
}

impl<V> Table<V> {
    /// Every key stands at exactly one position.
    pub closed spec fn wf(&self) -> bool {
        &&& forall|k: Seq<char>| #[trigger]
            self.index@.contains_key(k) ==> self.index@[k] < self.entries@.len()
                && self.entries@[self.index@[k] as int].0@ == k
        &&& forall|i: int|
            0 <= i < self.entries@.len() ==> self.index@.contains_key(
                #[trigger] self.entries@[i].0@,
            ) && self.index@[self.entries@[i].0@] == i
    }

    /// The keys, in the order in which the table is walked.
    pub closed spec fn keys(&self) -> Seq<Seq<char>> {
        self.entries@.map_values(|e: (String, V)| e.0@)
    }

    /// The walk visits every key once.
    pub proof fn lemma_keys(&self)
        requires
            self.wf(),
        ensures
            self.keys().no_duplicates(),
            forall|k: Seq<char>| #[trigger] self.keys().contains(k) <==> self@.contains_key(k),
            self@.dom().finite(),
            self@.len() == self.keys().len(),
    {
        assert forall|k: Seq<char>| #[trigger] self.keys().contains(k) <==> self@.contains_key(
            k,
        ) by {
            if self.keys().contains(k) {
                let i = choose|i: int| 0 <= i < self.keys().len() && self.keys()[i] == k;
                assert(self.entries@[i].0@ == k);
            }
            if self@.contains_key(k) {
                let i = self.index@[k] as int;
                assert(self.keys()[i] == k);
            }
        }
        assert(self.keys().no_duplicates()) by {
            assert forall|i: int, j: int|
                0 <= i < self.keys().len() && 0 <= j < self.keys().len() && i
                    != j implies self.keys()[i] != self.keys()[j] by {
                assert(self.entries@[i].0@ == self.keys()[i]);
                assert(self.entries@[j].0@ == self.keys()[j]);
            }
        }
        assert(self@.dom() =~= self.keys().to_set());
        self.keys().unique_seq_to_set();
    }

    /// An empty table.
    pub fn new() -> (r: Self)
        ensures
            r.wf(),
            r@ == Map::<Seq<char>, V>::empty(),
            r.keys() == Seq::<Seq<char>>::empty(),
    {
        let r = Table { index: StringHashMap::new(), entries: Vec::new() };
        proof {
            assert(r@ =~= Map::<Seq<char>, V>::empty());
            assert(r.keys() =~= Seq::<Seq<char>>::empty());
        }
        r
    }

    /// The number of keys.
    pub fn len(&self) -> (r: usize)
        requires
            self.wf(),
        ensures
            self@.dom().finite(),
            r == self@.len(),
            r == self.keys().len(),
    {
        proof {
            self.lemma_keys();
        }
        self.entries.len()
    }

    /// The key at position `i` of the walk.
    pub fn key(&self, i: usize) -> (r: &str)
        requires
            self.wf(),
            i < self.keys().len(),
        ensures
            r@ == self.keys()[i as int],
            self@.contains_key(r@),
    {
        proof {
            assert(self.index@.contains_key(self.entries@[i as int].0@));
        }
        self.entries[i].0.as_str()
    }

    /// The value at position `i` of the walk.
    pub fn value(&self, i: usize) -> (r: &V)
        requires
            self.wf(),
            i < self.keys().len(),
        ensures
            self@.contains_key(self.keys()[i as int]),
            *r == self@[self.keys()[i as int]],
    {
        proof {
            assert(self.index@.contains_key(self.entries@[i as int].0@));
        }
        &self.entries[i].1
    }

    /// The value stored for `key`.
    pub fn get(&self, key: &str) -> (r: Option<&V>)
        requires
            self.wf(),
        ensures
            match r {
                Some(v) => self@.contains_key(key@) && *v == self@[key@],
                None => !self@.contains_key(key@),
            },
    {
        match self.index.get(key) {
            Some(i) => Some(&self.entries[*i].1),
            None => None,
        }
    }

    /// Whether a value is stored for `key`.
    pub fn contains_key(&self, key: &str) -> (r: bool)
        requires
            self.wf(),
        ensures
            r == self@.contains_key(key@),
    {
        self.index.contains_key(key)
    }

    /// Store `value` for `key`, replacing what was stored for it.
    pub fn insert(&mut self, key: &str, value: V)
        requires
            old(self).wf(),
        ensures
            final(self).wf(),
            final(self)@ == old(self)@.insert(key@, value),
            final(self).keys() == if old(self)@.contains_key(key@) {
                old(self).keys()
            } else {
                old(self).keys().push(key@)
            },
    {
        let at: Option<usize> = match self.index.get(key) {
            Some(i) => Some(*i),
            None => None,
        };
        match at {
            Some(i) => {
                self.entries.set(i, (key.to_owned(), value));
            },
            None => {
                let i: usize = self.entries.len();
                self.index.insert(key.to_owned(), i);
                self.entries.push((key.to_owned(), value));
            },
        }
        proof {
            let o = *old(self);
            assert forall|k: Seq<char>| #[trigger] self.index@.contains_key(k) implies self.index@[k]
                < self.entries@.len() && self.entries@[self.index@[k] as int].0@ == k by {
                if k != key@ {
                    assert(o.index@.contains_key(k));
                }
            }
            assert forall|i: int| 0 <= i < self.entries@.len() implies self.index@.contains_key(
                #[trigger] self.entries@[i].0@,
            ) && self.index@[self.entries@[i].0@] == i by {
                if i < o.entries@.len() && self.entries@[i] == o.entries@[i] {
                    assert(o.index@.contains_key(o.entries@[i].0@));
                }
            }
            assert(self@ =~= o@.insert(key@, value));
            if o@.contains_key(key@) {
                assert(self.keys() =~= o.keys());
            } else {
                assert(self.keys() =~= o.keys().push(key@));
            }
        }
    }

    /// Replace every value by what `f` makes of it.
    pub(crate) fn replace_values<F: Fn(&V) -> V>(&mut self, f: F, Ghost(g): Ghost<spec_fn(V) -> V>)
        requires
            old(self).wf(),
            forall|v: V| call_requires(f, (&v,)),
            forall|v: V, w: V| call_ensures(f, (&v,), w) ==> w == g(v),
        ensures
            final(self).wf(),
            final(self)@ == old(self)@.map_values(g),
            final(self).keys() == old(self).keys(),
    {
        let ghost o = *old(self);
        let n: usize = self.entries.len();
        for i in 0..n
            invariant
                n == o.entries@.len(),
                o.wf(),
                self.index@ == o.index@,
                self.entries@.len() == n,
                forall|v: V| call_requires(f, (&v,)),
                forall|v: V, w: V| call_ensures(f, (&v,), w) ==> w == g(v),
                forall|j: int| 0 <= j < n ==> (#[trigger] self.entries@[j]).0@ == o.entries@[j].0@,
                forall|j: int|
                    0 <= j < i ==> (#[trigger] self.entries@[j]).1 == g(o.entries@[j].1),
                forall|j: int| i <= j < n ==> (#[trigger] self.entries@[j]) == o.entries@[j],
        {
            let name = self.entries[i].0.clone();
            let value = f(&self.entries[i].1);
            self.entries.set(i, (name, value));
        }
        proof {
            assert forall|k: Seq<char>| #[trigger] self.index@.contains_key(k) implies self.index@[k]
                < self.entries@.len() && self.entries@[self.index@[k] as int].0@ == k by {
                assert(o.index@.contains_key(k));
            }
            assert forall|i: int| 0 <= i < self.entries@.len() implies self.index@.contains_key(
                #[trigger] self.entries@[i].0@,
            ) && self.index@[self.entries@[i].0@] == i by {
                assert(o.index@.contains_key(o.entries@[i].0@));
            }
            assert(self@ =~= o@.map_values(g));
            assert(self.keys() =~= o.keys());
        }
    }

    /// Drop every entry whose value `keep` rejects.
    pub(crate) fn retain<F: Fn(&V) -> bool>(&mut self, keep: F, Ghost(p): Ghost<spec_fn(V) -> bool>)
        requires
            old(self).wf(),
            forall|v: V| call_requires(keep, (&v,)),
            forall|v: V, b: bool| call_ensures(keep, (&v,), b) ==> b == p(v),
        ensures
            final(self).wf(),
            final(self)@ == old(self)@.restrict(
                old(self)@.dom().filter(|k: Seq<char>| p(old(self)@[k])),
            ),
            final(self).keys() == old(self).keys().filter(|k: Seq<char>| p(old(self)@[k])),
    {
        let mut reversed: Vec<(String, V)> = Vec::new();
        let ghost all = self.entries@;
        let ghost o = *old(self);
        let mut entries: Vec<(String, V)> = Vec::new();
        std::mem::swap(&mut entries, &mut self.entries);
        while entries.len() > 0
            invariant
                all == entries@ + reversed@.reverse(),
            decreases entries@.len(),
        {
            let ghost before = entries@;
            let ghost rev = reversed@;
            if let Some(e) = entries.pop() {
                reversed.push(e);
            }
            proof {
                assert(before =~= entries@.push(before.last()));
                assert(reversed@.reverse() =~= seq![before.last()] + rev.reverse());
                assert(all =~= entries@ + reversed@.reverse());
            }
        }
        proof {
            assert(all =~= reversed@.reverse());
        }
        let mut out: Table<V> = Table::new();
        let ghost kp = |k: Seq<char>| p(o@[k]);
        proof {
            reveal(Seq::filter);
            assert(o.keys().take(0) =~= seq![]);
            assert(Map::<Seq<char>, V>::empty() =~= o@.restrict(Set::empty()));
        }
        let ghost mut n: int = 0;
        while reversed.len() > 0
            invariant
                0 <= n <= all.len(),
                reversed@ == all.skip(n).reverse(),
                o.wf(),
                all == o.entries@,
                out.wf(),
                out.keys() == o.keys().take(n).filter(kp),
                kp == (|k: Seq<char>| p(o@[k])),
                forall|k: Seq<char>| #[trigger]
                    out@.contains_key(k) <==> o.keys().take(n).contains(k) && kp(k),
                forall|k: Seq<char>| #[trigger] out@.contains_key(k) ==> out@[k] == o@[k],
                forall|v: V| call_requires(keep, (&v,)),
                forall|v: V, b: bool| call_ensures(keep, (&v,), b) ==> b == p(v),
            decreases reversed@.len(),
        {
            let ghost before = out;
            let ghost rem = all.skip(n);
            if let Some(e) = reversed.pop() {
                let ghost key = e.0@;
                proof {
                    assert(rem.reverse().last() == rem[0]);
                    assert(e == all[n]);
                    assert(reversed@ =~= all.skip(n + 1).reverse()) by {
                        assert(all.skip(n + 1) =~= rem.skip(1));
                        assert(rem.reverse().drop_last() =~= rem.skip(1).reverse());
                    }
                    o.lemma_keys();
                    assert(o.keys()[n] == key);
                    assert(o@[key] == e.1);
                    assert(o.keys().take(n + 1) =~= o.keys().take(n).push(key));
                    assert(o.keys().take(n + 1).drop_last() =~= o.keys().take(n));
                    assert(!o.keys().take(n).contains(key));
                    assert forall|k: Seq<char>| #[trigger] o.keys().take(n + 1).contains(
                        k,
                    ) <==> o.keys().take(n).contains(k) || k == key by {
                        if o.keys().take(n).contains(k) {
                            let i = choose|i: int|
                                0 <= i < n && o.keys().take(n)[i] == k;
                            assert(o.keys().take(n + 1)[i] == k);
                        }
                        if k == key {
                            assert(o.keys().take(n + 1)[n] == k);
                        }
                    }
                }
                if keep(&e.1) {
                    out.insert(e.0.as_str(), e.1);
                }
                proof {
                    reveal(Seq::filter);
                    assert(out.keys() =~= o.keys().take(n + 1).filter(kp));
                    n = n + 1;
                }
            }
        }
        proof {
            assert(n == all.len()) by {
                assert(all.skip(n).reverse().len() == all.skip(n).len());
            }
            assert(o.keys().take(n) =~= o.keys());
            o.lemma_keys();
            assert(out@ =~= o@.restrict(o@.dom().filter(kp)));
        }
        *self = out;
    }

    /// Drop the entry of `key`, if there is one.
    pub fn remove(&mut self, key: &str) -> (r: Option<V>)
        requires
            old(self).wf(),
        ensures
            final(self).wf(),
            final(self)@ == old(self)@.remove(key@),
            match r {
                Some(v) => old(self)@.contains_key(key@) && v == old(self)@[key@],
                None => !old(self)@.contains_key(key@),
            },
    {
        let at: Option<usize> = match self.index.get(key) {
            Some(i) => Some(*i),
            None => None,
        };
        match at {
            None => {
                proof {
                    assert(self@.remove(key@) =~= self@);
                }
                None
            },
            Some(i) => {
                let ghost o = *old(self);
                let e = self.entries.swap_remove(i);
                self.index.remove(key);
                if i < self.entries.len() {
                    let moved = self.entries[i].0.clone();
                    self.index.insert(moved, i);
                }
                proof {
                    let last = o.entries@.len() - 1;
                    assert(o.index@.contains_key(o.entries@[last].0@));
                    assert(o.index@.contains_key(o.entries@[i as int].0@));
                    assert forall|k: Seq<char>| #[trigger] self.index@.contains_key(
                        k,
                    ) implies self.index@[k] < self.entries@.len()
                        && self.entries@[self.index@[k] as int].0@ == k by {
                        assert(o.index@.contains_key(k));
                    }
                    assert forall|j: int|
                        0 <= j < self.entries@.len() implies self.index@.contains_key(
                        #[trigger] self.entries@[j].0@,
                    ) && self.index@[self.entries@[j].0@] == j by {
                        assert(o.index@.contains_key(o.entries@[j].0@));
                    }
                    assert(self@ =~= o@.remove(key@));
                }
                Some(e.1)
            },
        }
    }
}

} // verus!
