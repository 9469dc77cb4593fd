//! A map with string keys, kept in the order of its keys.

use crate::order::{
    before, lemma_asymmetric, lemma_irreflexive, lemma_total, lemma_transitive, precedes,
};
use crate::text::same;
use vstd::prelude::*;

verus! {

/// A map from strings to values. No key occurs twice, and the entries stand in
/// the order of their keys.
#[derive(Debug)]
pub struct StrMap<V> {
    entries: Vec<(String, V)>,
}

/// Whether the keys of a list of entries stand in strictly increasing order.
spec fn increasing<V>(entries: Seq<(String, V)>) -> bool {
    forall|i: int, j: int|
        0 <= i < j < entries.len() ==> precedes(#[trigger] entries[i].0@, #[trigger] entries[j].0@)
}

impl<V> View for StrMap<V> {
    type V = Map<Seq<char>, V>;

    /// The value that each key is mapped to.
    open spec fn view(&self) -> Map<Seq<char>, V> {
        Map::new(
            |k: Seq<char>| self.has(k),
            |k: Seq<char>| self.value(choose|i: int| 0 <= i < self.len_spec() && self.key(i) == k),
        )
    }
}

impl<V> StrMap<V> {
    #[verifier::type_invariant]
    spec fn keys_increase(self) -> bool {
        increasing(self.entries@)
    }

    /// The number of entries.
    pub closed spec fn len_spec(self) -> int {
        self.entries@.len() as int
    }

    /// The key of the entry at a place in the order.
    pub closed spec fn key(self, i: int) -> Seq<char> {
        self.entries@[i].0@
    }

    /// The value of the entry at a place in the order.
    pub closed spec fn value(self, i: int) -> V {
        self.entries@[i].1
    }

    /// Whether a key has an entry.
    pub open spec fn has(self, k: Seq<char>) -> bool {
        exists|i: int| 0 <= i < self.len_spec() && #[trigger] self.key(i) == k
    }

    /// The entries in order: places hold strictly increasing keys, and the map
    /// takes the key of each place to its value.
    pub open spec fn ordered(self) -> bool {
        &&& self.len_spec() >= 0
        &&& forall|i: int, j: int|
            0 <= i < j < self.len_spec() ==> precedes(#[trigger] self.key(i), #[trigger] self.key(j))
        &&& forall|i: int|
            0 <= i < self.len_spec() ==> self@.contains_key(#[trigger] self.key(i))
                && self@[self.key(i)] == self.value(i)
    }

    proof fn lemma_ordered(self)
        requires
            self.keys_increase(),
        ensures
            self.ordered(),
    {
        assert forall|i: int, j: int| 0 <= i < j < self.len_spec() implies precedes(
            #[trigger] self.key(i),
            #[trigger] self.key(j),
        ) by {
            assert(precedes(self.entries@[i].0@, self.entries@[j].0@));
        }
        assert forall|i: int| 0 <= i < self.len_spec() implies self@.contains_key(
            #[trigger] self.key(i),
        ) && self@[self.key(i)] == self.value(i) by {
            let k = self.key(i);
            let c = choose|c: int| 0 <= c < self.len_spec() && self.key(c) == k;
            assert(0 <= c < self.len_spec() && self.key(c) == k);
            lemma_irreflexive(k);
            if c < i {
                assert(precedes(self.key(c), self.key(i)));
            }
            if i < c {
                assert(precedes(self.key(i), self.key(c)));
            }
        }
    }

    /// Every map is in order.
    fn in_order(&self)
        ensures
            self.ordered(),
    {
        proof {
            use_type_invariant(self);
            self.lemma_ordered();
        }
    }

    /// A map without entries.
    pub fn new() -> (r: Self)
        ensures
            r@ == Map::<Seq<char>, V>::empty(),
            r.len_spec() == 0,
            r.ordered(),
    {
        let r = StrMap { entries: Vec::new() };
        assert(r@ =~= Map::<Seq<char>, V>::empty());
        r
    }

    /// The number of entries.
    pub fn len(&self) -> (r: usize)
        ensures
            r == self.len_spec(),
            self.ordered(),
    {
        self.in_order();
        self.entries.len()
    }

    /// The key at a place in the order.
    pub fn key_at(&self, i: usize) -> (r: &str)
        requires
            i < self.len_spec(),
        ensures
            r@ == self.key(i as int),
    {
        self.entries[i].0.as_str()
    }

    /// The value at a place in the order.
    pub fn value_at(&self, i: usize) -> (r: &V)
        requires
            i < self.len_spec(),
        ensures
            *r == self.value(i as int),
    {
        &self.entries[i].1
    }

    /// The place of a key, or of the first key behind it.
    fn place(&self, k: &str) -> (r: (usize, bool))
        ensures
            r.0 <= self.len_spec(),
            forall|i: int| 0 <= i < r.0 ==> precedes(#[trigger] self.key(i), k@),
            forall|i: int|
                r.0 <= i < self.len_spec() ==> !precedes(#[trigger] self.key(i), k@),
            r.1 ==> r.0 < self.len_spec() && self.key(r.0 as int) == k@,
            !r.1 ==> !self.has(k@),
            self.ordered(),
    {
        self.in_order();
        let mut i: usize = 0;
        while i < self.entries.len() && before(self.entries[i].0.as_str(), k)
            invariant
                i <= self.len_spec(),
                self.len_spec() == self.entries@.len(),
                self.ordered(),
                forall|j: int| 0 <= j < i ==> precedes(#[trigger] self.key(j), k@),
            decreases self.len_spec() - i,
        {
            i = i + 1;
        }
        let found = i < self.entries.len() && same(self.entries[i].0.as_str(), k);
        proof {
            assert forall|j: int| i <= j < self.len_spec() implies !precedes(
                #[trigger] self.key(j),
                k@,
            ) by {
                if precedes(self.key(j), k@) && i < j {
                    assert(precedes(self.key(i as int), self.key(j)));
                    lemma_transitive(self.key(i as int), self.key(j), k@);
                }
            }
            if !found && self.has(k@) {
                let j = choose|j: int| 0 <= j < self.len_spec() && #[trigger] self.key(j) == k@;
                lemma_irreflexive(k@);
                assert(j > i);
                assert(precedes(self.key(i as int), self.key(j)));
                assert(!precedes(self.key(i as int), k@));
            }
        }
        (i, found)
    }

    /// Whether a key has an entry.
    pub fn contains_key(&self, k: &str) -> (r: bool)
        ensures
            r == self@.contains_key(k@),
    {
        self.place(k).1
    }

    /// The value of a key.
    pub fn get(&self, k: &str) -> (r: Option<&V>)
        ensures
            r is Some <==> self@.contains_key(k@),
            r matches Some(v) ==> *v == self@[k@],
    {
        let (i, found) = self.place(k);
        if found {
            Some(&self.entries[i].1)
        } else {
            None
        }
    }

    /// Maps a key to a value, in place of the value it had.
    pub fn insert(&mut self, k: String, v: V)
        ensures
            final(self)@ == old(self)@.insert(k@, v),
            final(self).ordered(),
    {
        proof {
            use_type_invariant(&*self);
        }
        let (i, found) = self.place(k.as_str());
        let ghost before = *self;
        let mut entries: Vec<(String, V)> = Vec::new();
        std::mem::swap(&mut self.entries, &mut entries);
        let ghost olds = entries@;
        let ghost key = k@;
        if found {
            entries.set(i, (k, v));
        } else {
            entries.insert(i, (k, v));
        }
        proof {
            assert forall|a: int, b: int| 0 <= a < b < entries@.len() implies precedes(
                #[trigger] entries@[a].0@,
                #[trigger] entries@[b].0@,
            ) by {
                let pa = if found || a < i { a } else { a - 1 };
                let pb = if found || b < i { b } else { b - 1 };
                if a != i {
                    assert(entries@[a] == olds[pa]);
                    assert(before.key(pa) == entries@[a].0@);
                }
                if b != i {
                    assert(entries@[b] == olds[pb]);
                    assert(before.key(pb) == entries@[b].0@);
                }
                if a != i && b != i {
                    assert(precedes(before.key(pa), before.key(pb)));
                } else if b == i {
                    assert(precedes(before.key(pa), key));
                } else {
                    lemma_total(key, before.key(pb));
                    if found {
                        assert(precedes(before.key(i as int), before.key(pb)));
                    } else {
                        assert(!before.has(key));
                        assert(before.key(pb) != key);
                    }
                }
            }
        }
        self.entries = entries;
        proof {
            self.lemma_ordered();
            before.lemma_ordered();
            assert forall|q: Seq<char>| self.has(q) == (q == key || before.has(q)) by {
                if self.has(q) {
                    let c = choose|c: int| 0 <= c < self.len_spec() && #[trigger] self.key(c) == q;
                    if c != i {
                        let p = if found || c < i { c } else { c - 1 };
                        assert(before.key(p) == q);
                    }
                }
                if q == key {
                    assert(self.key(i as int) == q);
                }
                if before.has(q) && q != key {
                    let p = choose|p: int|
                        0 <= p < before.len_spec() && #[trigger] before.key(p) == q;
                    let c = if found || p < i { p } else { p + 1 };
                    assert(self.key(c) == q);
                }
            }
            assert forall|q: Seq<char>| self@.contains_key(q) implies self@[q] == before@.insert(
                key,
                v,
            )[q] by {
                let c = choose|c: int| 0 <= c < self.len_spec() && #[trigger] self.key(c) == q;
                assert(self@[self.key(c)] == self.value(c));
                if c == i {
                    assert(q == key);
                } else {
                    let p = if found || c < i { c } else { c - 1 };
                    assert(before.key(p) == q);
                    assert(before@[before.key(p)] == before.value(p));
                    if q == key {
                        lemma_irreflexive(key);
                        assert(self.key(i as int) == key);
                        if c < i {
                            assert(precedes(self.key(c), self.key(i as int)));
                        } else {
                            assert(precedes(self.key(i as int), self.key(c)));
                        }
                    }
                }
            }
            assert(self@ =~= before@.insert(key, v));
        }
    }

    /// Takes the entry of a key out of the map.
    pub fn remove(&mut self, k: &str) -> (r: Option<V>)
        ensures
            final(self)@ == old(self)@.remove(k@),
            r is Some <==> old(self)@.contains_key(k@),
            r matches Some(v) ==> v == old(self)@[k@],
            final(self).ordered(),
    {
        proof {
            use_type_invariant(&*self);
        }
        let (i, found) = self.place(k);
        let ghost before = *self;
        if !found {
            assert(self@.remove(k@) =~= self@);
            return None;
        }
        let mut entries: Vec<(String, V)> = Vec::new();
        std::mem::swap(&mut self.entries, &mut entries);
        let (_, v) = entries.remove(i);
        proof {
            assert forall|a: int, b: int| 0 <= a < b < entries@.len() implies precedes(
                #[trigger] entries@[a].0@,
                #[trigger] entries@[b].0@,
            ) by {
                let pa = if a < i { a } else { a + 1 };
                let pb = if b < i { b } else { b + 1 };
                assert(precedes(before.key(pa), before.key(pb)));
            }
        }
        self.entries = entries;
        proof {
            self.lemma_ordered();
            before.lemma_ordered();
            assert forall|q: Seq<char>| self.has(q) == (q != k@ && before.has(q)) by {
                if self.has(q) {
                    let c = choose|c: int| 0 <= c < self.len_spec() && #[trigger] self.key(c) == q;
                    let p = if c < i { c } else { c + 1 };
                    assert(before.key(p) == q);
                    lemma_irreflexive(k@);
                    if p < i {
                        assert(precedes(before.key(p), before.key(i as int)));
                    } else {
                        assert(precedes(before.key(i as int), before.key(p)));
                    }
                }
                if before.has(q) && q != k@ {
                    let p = choose|p: int|
                        0 <= p < before.len_spec() && #[trigger] before.key(p) == q;
                    let c = if p < i { p } else { p - 1 };
                    assert(self.key(c) == q);
                }
            }
            assert forall|q: Seq<char>| self@.contains_key(q) implies self@[q]
                == before@.remove(k@)[q] by {
                let c = choose|c: int| 0 <= c < self.len_spec() && #[trigger] self.key(c) == q;
                assert(self@[self.key(c)] == self.value(c));
                let p = if c < i { c } else { c + 1 };
                assert(before.key(p) == q);
                assert(before@[before.key(p)] == before.value(p));
            }
            assert(self@ =~= before@.remove(k@));
        }
        Some(v)
    }
}

proof fn lemma_same_keys_upto<V, W>(a: StrMap<V>, b: StrMap<W>, n: int)
    requires
        a.ordered(),
        b.ordered(),
        forall|k: Seq<char>| a@.contains_key(k) <==> #[trigger] b@.contains_key(k),
        0 <= n <= a.len_spec(),
    ensures
        n <= b.len_spec(),
        forall|i: int| 0 <= i < n ==> #[trigger] a.key(i) == b.key(i),
    decreases n,
{
    if n > 0 {
        let i = n - 1;
        lemma_same_keys_upto(a, b, i);
        assert(a@.contains_key(a.key(i)));
        assert(b@.contains_key(a.key(i)));
        assert(b.has(a.key(i)));
        let j = choose|j: int| 0 <= j < b.len_spec() && #[trigger] b.key(j) == a.key(i);
        lemma_irreflexive(a.key(i));
        if j < i {
            assert(a.key(j) == b.key(j));
            assert(precedes(a.key(j), a.key(i)));
        }
        if j > i {
            assert(precedes(b.key(i), b.key(j)));
            assert(b@.contains_key(b.key(i)));
            assert(a@.contains_key(b.key(i)));
            assert(a.has(b.key(i)));
            let q = choose|q: int| 0 <= q < a.len_spec() && #[trigger] a.key(q) == b.key(i);
            lemma_irreflexive(b.key(i));
            if q < i {
                assert(a.key(q) == b.key(q));
                assert(precedes(b.key(q), b.key(i)));
            }
            if q > i {
                assert(precedes(a.key(i), a.key(q)));
                lemma_asymmetric(a.key(i), a.key(q));
            }
        }
    }
}

/// Two maps with the same keys hold them at the same places.
pub proof fn lemma_same_keys<V, W>(a: StrMap<V>, b: StrMap<W>)
    requires
        a.ordered(),
        b.ordered(),
        forall|k: Seq<char>| a@.contains_key(k) <==> #[trigger] b@.contains_key(k),
    ensures
        a.len_spec() == b.len_spec(),
        forall|i: int| 0 <= i < a.len_spec() ==> #[trigger] a.key(i) == b.key(i),
{
    lemma_same_keys_upto(a, b, a.len_spec());
    assert forall|k: Seq<char>| b@.contains_key(k) <==> #[trigger] a@.contains_key(k) by {
        assert(b@.contains_key(k) || !b@.contains_key(k));
    }
    lemma_same_keys_upto(b, a, b.len_spec());
}

} // verus!
