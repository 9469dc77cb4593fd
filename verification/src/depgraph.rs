//! Cycles in a graph of dependencies.
//!
//! A graph lists, for each node, the nodes that it waits for. Nodes are the
//! indices into that list.

use vstd::prelude::*;

verus! {

/// Whether every edge leads to a node of the graph.
pub open spec fn closed_graph(g: Seq<Seq<usize>>) -> bool {
    forall|i: int, k: int| 0 <= i < g.len() && 0 <= k < g[i].len() ==> #[trigger] g[i][k] < g.len()
}

/// Whether `w` is a walk along the edges of `g`.
pub open spec fn is_walk(g: Seq<Seq<usize>>, w: Seq<usize>) -> bool {
    &&& w.len() > 0
    &&& forall|i: int| 0 <= i < w.len() ==> #[trigger] w[i] < g.len()
    &&& forall|i: int| 0 < i < w.len() ==> g[w[i - 1] as int].contains(#[trigger] w[i])
}

/// Whether some walk from `n` comes to a node for the second time.
pub open spec fn reaches_cycle(g: Seq<Seq<usize>>, n: usize) -> bool {
    exists|w: Seq<usize>| #[trigger] is_walk(g, w) && w[0] == n && !w.no_duplicates()
}

/// Whether `c` is a cycle of `g`: a walk that ends where it began and meets no
/// other node twice.
pub open spec fn is_cycle(g: Seq<Seq<usize>>, c: Seq<usize>) -> bool {
    &&& is_walk(g, c)
    &&& c.len() > 1
    &&& c[0] == c.last()
    &&& c.drop_last().no_duplicates()
}

/// The place of the first node in `nodes`, from place `i` on, that reaches a
/// cycle; the length of `nodes` where none does.
pub open spec fn first_reaching(g: Seq<Seq<usize>>, nodes: Seq<usize>, i: int) -> int
    decreases nodes.len() - i,
{
    if i < 0 || i >= nodes.len() {
        nodes.len() as int
    } else if reaches_cycle(g, nodes[i]) {
        i
    } else {
        first_reaching(g, nodes, i + 1)
    }
}

/// The cycle that is met by going on from the end of `path`, always to the
/// first dependency that itself reaches a cycle, until a node comes up again.
pub open spec fn cycle_from(g: Seq<Seq<usize>>, path: Seq<usize>) -> Seq<usize>
    decreases g.len() - path.len(),
{
    let deps = g[path.last() as int];
    let next = deps[first_reaching(g, deps, 0)];
    if path.contains(next) || path.len() >= g.len() {
        path.skip(path.index_of(next)).push(next)
    } else {
        cycle_from(g, path.push(next))
    }
}

/// The cycle that is reported for `g`: the one met from the first node in
/// `order` that reaches any.
pub open spec fn reported_cycle(g: Seq<Seq<usize>>, order: Seq<usize>) -> Option<Seq<usize>> {
    let i = first_reaching(g, order, 0);
    if i < order.len() {
        Some(cycle_from(g, seq![order[i]]))
    } else {
        None
    }
}

/// `first_reaching` names the least place whose node reaches a cycle.
pub proof fn lemma_first_reaching(g: Seq<Seq<usize>>, nodes: Seq<usize>, i: int)
    requires
        0 <= i <= nodes.len(),
    ensures
        i <= first_reaching(g, nodes, i) <= nodes.len(),
        first_reaching(g, nodes, i) < nodes.len() ==> reaches_cycle(
            g,
            nodes[first_reaching(g, nodes, i)],
        ),
        forall|j: int|
            i <= j < first_reaching(g, nodes, i) ==> !reaches_cycle(g, #[trigger] nodes[j]),
    decreases nodes.len() - i,
{
    if i < nodes.len() && !reaches_cycle(g, nodes[i]) {
        lemma_first_reaching(g, nodes, i + 1);
    }
}

/// A place whose node reaches a cycle, with no such place before it, is the
/// first one.
proof fn lemma_first_reaching_is(g: Seq<Seq<usize>>, nodes: Seq<usize>, i: int)
    requires
        0 <= i <= nodes.len(),
        forall|j: int| 0 <= j < i ==> !reaches_cycle(g, #[trigger] nodes[j]),
        i < nodes.len() ==> reaches_cycle(g, nodes[i]),
    ensures
        first_reaching(g, nodes, 0) == i,
{
    lemma_first_reaching(g, nodes, 0);
    let p = first_reaching(g, nodes, 0);
    if p < i {
        assert(!reaches_cycle(g, nodes[p]));
    }
    if i < p {
        assert(!reaches_cycle(g, nodes[i]));
    }
}

/// A node reaches a cycle only through one of its dependencies.
proof fn lemma_reaches_through(g: Seq<Seq<usize>>, n: usize)
    requires
        closed_graph(g),
        n < g.len(),
        forall|k: int| 0 <= k < g[n as int].len() ==> !reaches_cycle(g, #[trigger] g[n as int][k]),
    ensures
        !reaches_cycle(g, n),
{
    if reaches_cycle(g, n) {
        let w = choose|w: Seq<usize>| #[trigger] is_walk(g, w) && w[0] == n && !w.no_duplicates();
        let (a, b) = choose|a: int, b: int| 0 <= a < b < w.len() && w[a] == w[b];
        assert(exists|a: int, b: int| 0 <= a < b < w.len() && w[a] == w[b]) by {
            let (i, j) = choose|i: int, j: int|
                0 <= i < w.len() && 0 <= j < w.len() && i != j && w[i] == w[j];
            if i < j {
                assert(0 <= i < j < w.len() && w[i] == w[j]);
            } else {
                assert(0 <= j < i < w.len() && w[j] == w[i]);
            }
        }
        assert(g[w[0] as int].contains(w[1]));
        let k = g[n as int].index_of(w[1]);
        assert(g[n as int][k] == w[1]);
        if a >= 1 {
            let t = w.skip(1);
            assert forall|i: int| 0 < i < t.len() implies g[t[i - 1] as int].contains(
                #[trigger] t[i],
            ) by {
                assert(t[i] == w[i + 1]);
                assert(t[i - 1] == w[i]);
            }
            assert(is_walk(g, t));
            assert(t[a - 1] == t[b - 1]);
            assert(reaches_cycle(g, w[1]));
        } else {
            let t = w.subrange(1, b + 1).push(w[1]);
            assert forall|i: int| 0 < i < t.len() implies g[t[i - 1] as int].contains(
                #[trigger] t[i],
            ) by {
                if i < b {
                    assert(t[i] == w[i + 1]);
                    assert(t[i - 1] == w[i]);
                } else {
                    assert(t[i] == w[1]);
                    assert(t[i - 1] == w[b]);
                }
            }
            assert(is_walk(g, t));
            assert(t[0] == t[b]);
            assert(reaches_cycle(g, w[1]));
        }
    }
}

/// A node on a walk reaches a cycle where the walk goes back to a node on it.
proof fn lemma_back_edge(g: Seq<Seq<usize>>, path: Seq<usize>, next: usize, i: int)
    requires
        closed_graph(g),
        is_walk(g, path),
        g[path.last() as int].contains(next),
        path.contains(next),
        0 <= i < path.len(),
    ensures
        reaches_cycle(g, path[i]),
{
    let p = path.index_of(next);
    let round = path.skip(p).push(next);
    let w = if i <= p { path.skip(i).push(next) } else { path.skip(i) + round };
    assert forall|k: int| 0 < k < w.len() implies g[w[k - 1] as int].contains(#[trigger] w[k]) by {
        let m = path.len() - i;
        if k < m {
            assert(w[k] == path[i + k]);
            assert(w[k - 1] == path[i + k - 1]);
        } else if k == m {
            assert(w[k - 1] == path.last());
            assert(w[k] == next);
        } else {
            let q = p + (k - m);
            assert(w[k - 1] == path[q - 1]);
            if q < path.len() {
                assert(w[k] == path[q]);
            } else {
                assert(w[k] == next);
            }
        }
    }
    assert forall|k: int| 0 <= k < w.len() implies #[trigger] w[k] < g.len() by {
        if k > 0 {
            let deps = g[w[k - 1] as int];
            assert(deps.contains(w[k]));
            if k < path.len() - i {
                assert(w[k] == path[i + k]);
            } else if k == path.len() - i {
                assert(w[k] == next);
                assert(path[p] == next);
            } else {
                let q = p + (k - (path.len() - i));
                if q < path.len() {
                    assert(w[k] == path[q]);
                } else {
                    assert(w[k] == next);
                    assert(path[p] == next);
                }
            }
        }
    }
    assert(is_walk(g, w));
    assert(w[0] == path[i]);
    if i <= p {
        assert(w[p - i] == next && w[path.len() - i] == next);
    } else {
        let m = path.len() - i;
        assert(w[m] == next && w[w.len() - 1] == next);
    }
    assert(!w.no_duplicates());
}

/// A walk without repetition has no more nodes than the graph.
proof fn lemma_path_fits(g: Seq<Seq<usize>>, path: Seq<usize>)
    requires
        path.no_duplicates(),
        forall|i: int| 0 <= i < path.len() ==> #[trigger] path[i] < g.len(),
    ensures
        path.len() <= g.len(),
{
    let ints = path.map_values(|n: usize| n as int);
    assert(ints.no_duplicates());
    ints.unique_seq_to_set();
    assert(ints.to_set().subset_of(vstd::set_lib::set_int_range(0, g.len() as int))) by {
        assert forall|x: int| ints.to_set().contains(x) implies vstd::set_lib::set_int_range(
            0,
            g.len() as int,
        ).contains(x) by {
            let i = ints.index_of(x);
            assert(ints[i] == x);
            assert(path[i] < g.len());
        }
    }
    vstd::set_lib::lemma_int_range(0, g.len() as int);
    vstd::set_lib::lemma_len_subset(ints.to_set(), vstd::set_lib::set_int_range(0, g.len() as int));
}

/// The cycle that goes on from a walk without repetition is a cycle.
pub proof fn lemma_cycle_from(g: Seq<Seq<usize>>, path: Seq<usize>)
    requires
        closed_graph(g),
        is_walk(g, path),
        path.no_duplicates(),
        reaches_cycle(g, path.last()),
    ensures
        is_cycle(g, cycle_from(g, path)),
    decreases g.len() - path.len(),
{
    let deps = g[path.last() as int];
    let k = first_reaching(g, deps, 0);
    lemma_first_reaching(g, deps, 0);
    if k == deps.len() {
        lemma_reaches_through(g, path.last());
    }
    let next = deps[k];
    assert(deps.contains(next));
    assert(g[path.last() as int][k] < g.len());
    if !path.contains(next) {
        let longer = path.push(next);
        assert(longer.no_duplicates());
        lemma_path_fits(g, longer);
        assert forall|i: int| 0 < i < longer.len() implies g[longer[i - 1] as int].contains(
            #[trigger] longer[i],
        ) by {
            if i < path.len() {
                assert(longer[i] == path[i]);
                assert(longer[i - 1] == path[i - 1]);
            }
        }
        lemma_cycle_from(g, longer);
    } else {
        let p = path.index_of(next);
        let c = path.skip(p).push(next);
        assert forall|i: int| 0 < i < c.len() implies g[c[i - 1] as int].contains(
            #[trigger] c[i],
        ) by {
            assert(c[i - 1] == path[p + i - 1]);
            if i < c.len() - 1 {
                assert(c[i] == path[p + i]);
            }
        }
        assert(c.drop_last() =~= path.skip(p));
        assert(c[0] == next);
    }
}

/// A graph has a cycle exactly where one is reported, and what is reported is
/// a cycle, provided that every node stands in `order`.
pub proof fn lemma_reported_cycle(g: Seq<Seq<usize>>, order: Seq<usize>)
    requires
        closed_graph(g),
        forall|n: usize| n < g.len() <==> #[trigger] order.contains(n),
    ensures
        reported_cycle(g, order) matches Some(c) ==> is_cycle(g, c),
        reported_cycle(g, order) is Some <==> exists|c: Seq<usize>| is_cycle(g, c),
{
    let i = first_reaching(g, order, 0);
    lemma_first_reaching(g, order, 0);
    if i < order.len() {
        assert(order.contains(order[i]));
        let path = seq![order[i]];
        assert(is_walk(g, path));
        lemma_cycle_from(g, path);
        assert(is_cycle(g, cycle_from(g, path)));
    } else if exists|c: Seq<usize>| is_cycle(g, c) {
        let c = choose|c: Seq<usize>| is_cycle(g, c);
        assert(c[0] == c[c.len() - 1]);
        assert(!c.no_duplicates());
        assert(reaches_cycle(g, c[0]));
        assert(order.contains(c[0]));
        let j = order.index_of(c[0]);
        assert(!reaches_cycle(g, order[j]));
    }
}

/// The edges of a graph in memory.
pub open spec fn edges(g: Seq<Vec<usize>>) -> Seq<Seq<usize>> {
    g.map_values(|v: Vec<usize>| v@)
}

/// The place of a node on a path.
fn place_of(path: &Vec<usize>, n: usize) -> (r: Option<usize>)
    ensures
        r matches Some(i) ==> i < path@.len() && path@[i as int] == n && (path@.no_duplicates()
            ==> i == path@.index_of(n)),
        r is Some <==> path@.contains(n),
{
    let mut i: usize = 0;
    while i < path.len()
        invariant
            i <= path@.len(),
            forall|j: int| 0 <= j < i ==> path@[j] != n,
        decreases path@.len() - i,
    {
        if path[i] == n {
            assert(path@[i as int] == n);
            assert(path@.contains(n));
            assert(path@[path@.index_of(n)] == n);
            return Some(i);
        }
        i = i + 1;
    }
    None
}

/// Explores what the end of a path depends on. `done` marks the nodes that are
/// known to reach no cycle.
fn visit(g: &Vec<Vec<usize>>, path: &mut Vec<usize>, done: &mut Vec<bool>) -> (r: Option<
    Vec<usize>,
>)
    requires
        closed_graph(edges(g@)),
        is_walk(edges(g@), old(path)@),
        old(path)@.no_duplicates(),
        old(done)@.len() == g@.len(),
        forall|n: int| 0 <= n < g@.len() && old(done)@[n] ==> !reaches_cycle(edges(g@), n as usize),
    ensures
        r matches Some(c) ==> reaches_cycle(edges(g@), old(path)@.last()) && c@ == cycle_from(
            edges(g@),
            old(path)@,
        ),
        r is None ==> !reaches_cycle(edges(g@), old(path)@.last()) && final(path)@ == old(path)@,
        final(done)@.len() == g@.len(),
        forall|n: int|
            0 <= n < g@.len() && final(done)@[n] ==> !reaches_cycle(edges(g@), n as usize),
    decreases g@.len() - old(path)@.len(),
{
    let ghost start = path@;
    let ghost e = edges(g@);
    let node = path[path.len() - 1];
    assert(node < e.len());
    let ghost deps = e[node as int];
    assert(deps == g@[node as int]@);
    let mut k: usize = 0;
    while k < g[node].len()
        invariant
            e == edges(g@),
            node < g@.len(),
            deps == e[node as int],
            deps == g@[node as int]@,
            closed_graph(e),
            is_walk(e, start),
            start.no_duplicates(),
            start.last() == node,
            path@ == start,
            start == old(path)@,
            done@.len() == g@.len(),
            k <= deps.len(),
            forall|n: int| 0 <= n < g@.len() && done@[n] ==> !reaches_cycle(e, n as usize),
            forall|j: int| 0 <= j < k ==> !reaches_cycle(e, #[trigger] deps[j]),
        decreases deps.len() - k,
    {
        let next = g[node][k];
        assert(next == deps[k as int]);
        assert(e[node as int][k as int] < e.len());
        assert(deps.contains(next));
        if !done[next] {
            match place_of(path, next) {
                Some(p) => {
                    proof {
                        lemma_back_edge(e, start, next, p as int);
                        lemma_back_edge(e, start, next, start.len() - 1);
                        lemma_first_reaching_is(e, deps, k as int);
                    }
                    let mut cycle: Vec<usize> = Vec::new();
                    let mut i: usize = p;
                    while i < path.len()
                        invariant
                            p <= i <= path@.len(),
                            cycle@ == path@.subrange(p as int, i as int),
                        decreases path@.len() - i,
                    {
                        cycle.push(path[i]);
                        i = i + 1;
                    }
                    cycle.push(next);
                    assert(cycle@ =~= start.skip(start.index_of(next)).push(next));
                    return Some(cycle);
                },
                None => {
                    path.push(next);
                    proof {
                        let longer = path@;
                        assert(longer == start.push(next));
                        assert(longer.no_duplicates());
                        lemma_path_fits(e, longer);
                        assert forall|i: int| 0 < i < longer.len() implies e[longer[i
                            - 1] as int].contains(#[trigger] longer[i]) by {
                            if i < start.len() {
                                assert(longer[i] == start[i]);
                                assert(longer[i - 1] == start[i - 1]);
                            }
                        }
                    }
                    match visit(g, path, done) {
                        Some(c) => {
                            proof {
                                lemma_first_reaching_is(e, deps, k as int);
                                if !reaches_cycle(e, node) {
                                    let w = choose|w: Seq<usize>| #[trigger]
                                        is_walk(e, w) && w[0] == next && !w.no_duplicates();
                                    let t = seq![node] + w;
                                    assert forall|i: int| 0 < i < t.len() implies e[t[i
                                        - 1] as int].contains(#[trigger] t[i]) by {
                                        if i > 1 {
                                            assert(t[i] == w[i - 1]);
                                            assert(t[i - 1] == w[i - 2]);
                                        }
                                    }
                                    assert(is_walk(e, t));
                                    let (a, b) = choose|a: int, b: int|
                                        0 <= a < w.len() && 0 <= b < w.len() && a != b && w[a]
                                            == w[b];
                                    assert(t[a + 1] == t[b + 1]);
                                    assert(false);
                                }
                            }
                            return Some(c);
                        },
                        None => {
                            let _ = path.pop();
                            assert(path@ =~= start);
                        },
                    }
                },
            }
        }
        k = k + 1;
    }
    proof {
        lemma_reaches_through(e, node);
    }
    done.set(node, true);
    None
}

/// Looks for a cycle, from the nodes in `order` one after the other.
pub fn find_cycle(g: &Vec<Vec<usize>>, order: &Vec<usize>) -> (r: Option<Vec<usize>>)
    requires
        closed_graph(edges(g@)),
        forall|i: int| 0 <= i < order@.len() ==> #[trigger] order@[i] < g@.len(),
    ensures
        match r {
            Some(c) => reported_cycle(edges(g@), order@) == Some(c@),
            None => reported_cycle(edges(g@), order@) is None,
        },
{
    let ghost e = edges(g@);
    let mut done: Vec<bool> = Vec::new();
    let mut i: usize = 0;
    while i < g.len()
        invariant
            i <= g@.len(),
            done@.len() == i,
            forall|n: int| 0 <= n < i ==> !done@[n],
        decreases g@.len() - i,
    {
        done.push(false);
        i = i + 1;
    }
    let mut k: usize = 0;
    while k < order.len()
        invariant
            e == edges(g@),
            closed_graph(e),
            k <= order@.len(),
            done@.len() == g@.len(),
            forall|i: int| 0 <= i < order@.len() ==> #[trigger] order@[i] < g@.len(),
            forall|n: int| 0 <= n < g@.len() && done@[n] ==> !reaches_cycle(e, n as usize),
            forall|j: int| 0 <= j < k ==> !reaches_cycle(e, #[trigger] order@[j]),
        decreases order@.len() - k,
    {
        let root = order[k];
        if !done[root] {
            let mut path: Vec<usize> = Vec::new();
            path.push(root);
            assert(path@ =~= seq![root]);
            match visit(g, &mut path, &mut done) {
                Some(c) => {
                    proof {
                        lemma_first_reaching_is(e, order@, k as int);
                    }
                    return Some(c);
                },
                None => {},
            }
        }
        k = k + 1;
    }
    proof {
        lemma_first_reaching_is(e, order@, k as int);
    }
    None
}

/// Whether nodes are listed so that each comes after all that it waits for.
pub open spec fn in_starting_order(g: Seq<Seq<usize>>, nodes: Seq<usize>) -> bool {
    &&& nodes.no_duplicates()
    &&& forall|i: int| 0 <= i < nodes.len() ==> #[trigger] nodes[i] < g.len()
    &&& forall|i: int, k: int|
        0 <= i < nodes.len() && 0 <= k < g[nodes[i] as int].len() ==> nodes.take(i).contains(
            #[trigger] g[nodes[i] as int][k],
        )
}

/// Nodes that differ are no more than the nodes of the graph, and where they are
/// fewer one is missing.
proof fn lemma_distinct_nodes(n: int, nodes: Seq<usize>)
    requires
        0 <= n <= usize::MAX,
        nodes.no_duplicates(),
        forall|i: int| 0 <= i < nodes.len() ==> #[trigger] nodes[i] < n,
    ensures
        nodes.len() <= n,
        nodes.len() < n ==> exists|m: usize| m < n && !nodes.contains(m),
{
    let ints = nodes.map_values(|m: usize| m as int);
    assert(ints.no_duplicates());
    ints.unique_seq_to_set();
    let range = vstd::set_lib::set_int_range(0, n);
    vstd::set_lib::lemma_int_range(0, n);
    assert forall|x: int| ints.to_set().contains(x) implies range.contains(x) by {
        let i = ints.index_of(x);
        assert(ints[i] == x);
        assert(nodes[i] < n);
    }
    vstd::set_lib::lemma_len_subset(ints.to_set(), range);
    if nodes.len() < n && !exists|m: usize| m < n && !nodes.contains(m) {
        assert forall|x: int| range.contains(x) implies ints.to_set().contains(x) by {
            let m = x as usize;
            assert(nodes.contains(m));
            let i = nodes.index_of(m);
            assert(ints[i] == x);
            assert(ints.contains(x));
        }
        vstd::set_lib::lemma_len_subset(range, ints.to_set());
    }
}

/// Where every missing node waits for a missing one, a walk along missing nodes can
/// be as long as is wanted.
proof fn lemma_long_walk(g: Seq<Seq<usize>>, nodes: Seq<usize>, start: usize, n: nat) -> (w: Seq<
    usize,
>)
    requires
        closed_graph(g),
        start < g.len(),
        !nodes.contains(start),
        forall|m: usize|
            m < g.len() && !(#[trigger] nodes.contains(m)) ==> exists|k: int|
                0 <= k < g[m as int].len() && !nodes.contains(#[trigger] g[m as int][k]),
    ensures
        is_walk(g, w),
        w.len() == n + 1,
        !nodes.contains(w.last()),
    decreases n,
{
    if n == 0 {
        seq![start]
    } else {
        let v = lemma_long_walk(g, nodes, start, (n - 1) as nat);
        let m = v.last();
        assert(v[v.len() - 1] < g.len());
        let k = choose|k: int|
            0 <= k < g[m as int].len() && !nodes.contains(#[trigger] g[m as int][k]);
        let d = g[m as int][k];
        let w = v.push(d);
        assert forall|i: int| 0 < i < w.len() implies g[w[i - 1] as int].contains(
            #[trigger] w[i],
        ) by {
            if i < v.len() {
                assert(g[v[i - 1] as int].contains(v[i]));
            }
        }
        w
    }
}

/// An order of some nodes of a graph without cycles can be completed.
proof fn lemma_order_completed(g: Seq<Seq<usize>>, nodes: Seq<usize>) -> (all: Seq<usize>)
    requires
        closed_graph(g),
        g.len() <= usize::MAX,
        forall|c: Seq<usize>| !is_cycle(g, c),
        in_starting_order(g, nodes),
    ensures
        in_starting_order(g, all),
        all.len() == g.len(),
    decreases g.len() - nodes.len(),
{
    let n = g.len() as int;
    lemma_distinct_nodes(n, nodes);
    if nodes.len() == g.len() {
        nodes
    } else {
        let start = choose|m: usize| m < n && !nodes.contains(m);
        if forall|m: usize|
            m < g.len() && !(#[trigger] nodes.contains(m)) ==> exists|k: int|
                0 <= k < g[m as int].len() && !nodes.contains(#[trigger] g[m as int][k]) {
            let w = lemma_long_walk(g, nodes, start, g.len());
            if w.no_duplicates() {
                lemma_distinct_nodes(n, w);
            }
            assert(reaches_cycle(g, w[0]));
            let path = seq![w[0]];
            assert(w[0] < g.len());
            assert(is_walk(g, path));
            lemma_cycle_from(g, path);
            assert(is_cycle(g, cycle_from(g, path)));
        }
        let m = choose|m: usize|
            m < g.len() && !(#[trigger] nodes.contains(m)) && !exists|k: int|
                0 <= k < g[m as int].len() && !nodes.contains(#[trigger] g[m as int][k]);
        let more = nodes.push(m);
        assert forall|i: int, k: int|
            0 <= i < more.len() && 0 <= k < g[more[i] as int].len() implies more.take(i).contains(
            #[trigger] g[more[i] as int][k],
        ) by {
            assert(more.take(i) =~= nodes.take(i));
            if i < nodes.len() {
                assert(nodes.take(i).contains(g[nodes[i] as int][k]));
            } else {
                assert(nodes.take(i) =~= nodes);
            }
        }
        lemma_order_completed(g, more)
    }
}

/// The nodes of a graph without cycles can be listed so that each comes after all
/// that it waits for.
pub proof fn lemma_acyclic_can_start(g: Seq<Seq<usize>>)
    requires
        closed_graph(g),
        g.len() <= usize::MAX,
        forall|c: Seq<usize>| !is_cycle(g, c),
    ensures
        exists|nodes: Seq<usize>| in_starting_order(g, nodes) && nodes.len() == g.len(),
{
    let nodes = lemma_order_completed(g, Seq::empty());
    assert(in_starting_order(g, nodes) && nodes.len() == g.len());
}

} // verus!
