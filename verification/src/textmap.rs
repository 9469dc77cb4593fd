//! Maps from strings to strings, and the lists of pairs they are written as.

use crate::order;
use crate::strmap;
use crate::strmap::StrMap;
use vstd::prelude::*;

verus! {

/// The texts that a map takes its keys to.
pub open spec fn text_map(m: StrMap<String>) -> Map<Seq<char>, Seq<char>> {
    m@.map_values(|s: String| s@)
}

/// The entries of a map, in the order of their keys.
pub open spec fn pairs(m: StrMap<String>) -> Seq<(Seq<char>, Seq<char>)> {
    Seq::new(m.len_spec() as nat, |i: int| (m.key(i), m.value(i)@))
}

/// The map that a list of pairs describes: a later pair takes the place of an
/// earlier one with the same key.
pub open spec fn collected(list: Seq<(Seq<char>, Seq<char>)>) -> Map<Seq<char>, Seq<char>>
    decreases list.len(),
{
    if list.len() == 0 {
        Map::empty()
    } else {
        collected(list.drop_last()).insert(list.last().0, list.last().1)
    }
}

proof fn lemma_collected_take(m: StrMap<String>, n: int)
    requires
        m.ordered(),
        0 <= n <= m.len_spec(),
    ensures
        forall|j: int|
            0 <= j < n ==> collected(pairs(m).take(n)).contains_key(#[trigger] m.key(j))
                && collected(pairs(m).take(n))[m.key(j)] == m.value(j)@,
        forall|k: Seq<char>| #[trigger]
            collected(pairs(m).take(n)).contains_key(k) ==> exists|j: int|
                0 <= j < n && #[trigger] m.key(j) == k,
    decreases n,
{
    if n > 0 {
        lemma_collected_take(m, n - 1);
        let before = pairs(m).take(n - 1);
        let after = pairs(m).take(n);
        assert(after.drop_last() =~= before);
        assert(after.last() == (m.key(n - 1), m.value(n - 1)@));
        assert forall|j: int| 0 <= j < n implies collected(after).contains_key(#[trigger] m.key(j))
            && collected(after)[m.key(j)] == m.value(j)@ by {
            if j < n - 1 {
                assert(order::precedes(m.key(j), m.key(n - 1)));
                order::lemma_irreflexive(m.key(j));
            }
        }
        assert forall|k: Seq<char>| #[trigger] collected(after).contains_key(k) implies exists|
            j: int,
        |
            0 <= j < n && #[trigger] m.key(j) == k by {
            if k != m.key(n - 1) {
                assert(collected(before).contains_key(k));
                let j = choose|j: int| 0 <= j < n - 1 && #[trigger] m.key(j) == k;
                assert(m.key(j) == k);
            }
        }
    }
}

/// The pairs of a map describe the map.
pub proof fn lemma_collected(m: StrMap<String>)
    requires
        m.ordered(),
    ensures
        collected(pairs(m)) == text_map(m),
{
    let n = m.len_spec();
    lemma_collected_take(m, n);
    assert(pairs(m).take(n) =~= pairs(m));
    let c = collected(pairs(m));
    assert forall|k: Seq<char>| c.contains_key(k) <==> text_map(m).contains_key(k) by {
        if c.contains_key(k) {
            let j = choose|j: int| 0 <= j < n && #[trigger] m.key(j) == k;
            assert(m@.contains_key(m.key(j)));
        }
        if text_map(m).contains_key(k) {
            assert(m.has(k));
            let j = choose|j: int| 0 <= j < n && #[trigger] m.key(j) == k;
            assert(c.contains_key(m.key(j)));
        }
    }
    assert forall|k: Seq<char>| c.contains_key(k) implies c[k] == text_map(m)[k] by {
        let j = choose|j: int| 0 <= j < n && #[trigger] m.key(j) == k;
        assert(m@[m.key(j)] == m.value(j));
    }
    assert(c =~= text_map(m));
}

/// Equal maps have equal lists of pairs.
pub proof fn lemma_same_pairs(a: StrMap<String>, b: StrMap<String>)
    requires
        a.ordered(),
        b.ordered(),
        text_map(a) == text_map(b),
    ensures
        pairs(a) == pairs(b),
{
    assert forall|k: Seq<char>| a@.contains_key(k) <==> #[trigger] b@.contains_key(k) by {
        assert(text_map(a).contains_key(k) <==> a@.contains_key(k));
        assert(text_map(b).contains_key(k) <==> b@.contains_key(k));
    }
    strmap::lemma_same_keys(a, b);
    assert forall|i: int| 0 <= i < a.len_spec() implies a.value(i)@ == b.value(i)@ by {
        let k = a.key(i);
        assert(a@[a.key(i)] == a.value(i));
        assert(b@[b.key(i)] == b.value(i));
        assert(text_map(a)[k] == text_map(b)[k]);
    }
    assert(pairs(a) =~= pairs(b));
}

/// Copies a map.
pub fn copy_map(m: &StrMap<String>) -> (r: StrMap<String>)
    ensures
        text_map(r) == text_map(*m),
        pairs(r) == pairs(*m),
        r.ordered(),
{
    let n = m.len();
    let mut out: StrMap<String> = StrMap::new();
    let mut i: usize = 0;
    assert(text_map(out) =~= collected(pairs(*m).take(0)));
    while i < n
        invariant
            n == m.len_spec(),
            m.ordered(),
            out.ordered(),
            i <= n,
            text_map(out) == collected(pairs(*m).take(i as int)),
        decreases n - i,
    {
        let ghost before = text_map(out);
        out.insert(String::from_str(m.key_at(i)), m.value_at(i).clone());
        proof {
            let after = pairs(*m).take(i + 1);
            assert(after.drop_last() =~= pairs(*m).take(i as int));
            assert(after.last() == (m.key(i as int), m.value(i as int)@));
            assert(text_map(out) =~= before.insert(m.key(i as int), m.value(i as int)@));
        }
        i = i + 1;
    }
    proof {
        assert(pairs(*m).take(n as int) =~= pairs(*m));
        lemma_collected(*m);
        lemma_same_pairs(out, *m);
    }
    out
}

/// A pair behind others takes its key to its value, in place of what they say of it.
pub proof fn lemma_collected_grows(list: Seq<(Seq<char>, Seq<char>)>, k: Seq<char>, v: Seq<char>)
    ensures
        collected(Seq::empty()) == Map::<Seq<char>, Seq<char>>::empty(),
        collected(list.push((k, v))) == collected(list).insert(k, v),
{
    assert(list.push((k, v)).drop_last() =~= list);
}

} // verus!
