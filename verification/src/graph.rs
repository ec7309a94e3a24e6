//! Dependency graphs between nodes and their topological ordering.
use vstd::prelude::*;

use crate::errors::RegistryError;
use crate::text::{index_list_string, index_list_text};

verus! {

/// The adjacency lists of a graph, each as a sequence of node indices.
pub open spec fn adjacency(edges: Seq<Vec<usize>>) -> Seq<Seq<usize>> {
    edges.map_values(|v: Vec<usize>| v@)
}

/// Every target is a node of the graph and no list names a target twice.
pub open spec fn edges_wf(e: Seq<Seq<usize>>) -> bool {
    &&& forall|u: int, k: int|
        0 <= u < e.len() && 0 <= k < e[u].len() ==> (#[trigger] e[u][k]) < e.len()
    &&& forall|u: int| 0 <= u < e.len() ==> (#[trigger] e[u]).no_duplicates()
}

/// There is an edge from `u` to `v`: `v` depends on `u`.
pub open spec fn has_edge(e: Seq<Seq<usize>>, u: int, v: int) -> bool {
    0 <= u < e.len() && 0 <= v < e.len() && e[u].contains(v as usize)
}

/// `order` lists every node exactly once, and every edge points forward in it.
pub open spec fn is_topological_order(e: Seq<Seq<usize>>, order: Seq<usize>) -> bool {
    &&& order.len() == e.len()
    &&& order.no_duplicates()
    &&& forall|i: int| 0 <= i < order.len() ==> (#[trigger] order[i]) < e.len()
    &&& forall|i: int, j: int|
        0 <= i < order.len() && 0 <= j < order.len() && has_edge(e, order[j] as int, order[i] as int)
            ==> j < i
}

/// Every member of `s` has a predecessor in `s`: following edges backwards from
/// `s` never leaves it, so `s` lies on or after a cycle.
pub open spec fn pred_closed(e: Seq<Seq<usize>>, s: Set<int>) -> bool {
    forall|v: int| #[trigger] s.contains(v) ==> exists|u: int| s.contains(u) && has_edge(e, u, v)
}

/// `v` lies on a cycle or is reachable from one.
pub open spec fn after_cycle(e: Seq<Seq<usize>>, v: int) -> bool {
    exists|s: Set<int>| pred_closed(e, s) && s.contains(v)
}

/// `s` holds every successor of each of its members.
pub open spec fn succ_closed(e: Seq<Seq<usize>>, s: Set<int>) -> bool {
    forall|u: int, w: int| #![trigger s.contains(u), has_edge(e, u, w)]
        s.contains(u) && has_edge(e, u, w) ==> s.contains(w)
}

/// `w` can be reached from `v` along one or more edges: it lies in every
/// successor-closed set that holds the successors of `v`.
pub open spec fn reaches(e: Seq<Seq<usize>>, v: int, w: int) -> bool {
    forall|s: Set<int>|
        #![trigger succ_closed(e, s), s.contains(w)]
        (forall|x: int| #[trigger] has_edge(e, v, x) ==> s.contains(x)) && succ_closed(e, s)
            ==> s.contains(w)
}

/// `v` lies on a cycle: it can be reached from itself.
pub open spec fn on_cycle(e: Seq<Seq<usize>>, v: int) -> bool {
    reaches(e, v, v)
}

/// No node lies on or after a cycle.
pub open spec fn acyclic(e: Seq<Seq<usize>>) -> bool {
    forall|v: int| 0 <= v < e.len() ==> !after_cycle(e, v)
}

/// `s` is strictly increasing.
pub open spec fn strictly_increasing(s: Seq<usize>) -> bool {
    forall|i: int, j: int| 0 <= i < j < s.len() ==> s[i] < s[j]
}

/// The number of nodes among the first `k` that are not in `done` and have an edge to `v`.
pub open spec fn pred_count(e: Seq<Seq<usize>>, done: Seq<usize>, v: usize, k: int) -> nat
    decreases k,
{
    if k <= 0 {
        0
    } else {
        pred_count(e, done, v, k - 1) + if !done.contains((k - 1) as usize) && e[k - 1].contains(
            v,
        ) {
            1nat
        } else {
            0nat
        }
    }
}

proof fn lemma_pred_count_bound(e: Seq<Seq<usize>>, done: Seq<usize>, v: usize, k: int)
    requires
        k >= 0,
    ensures
        pred_count(e, done, v, k) <= k,
    decreases k,
{
    if k > 0 {
        lemma_pred_count_bound(e, done, v, k - 1);
    }
}

proof fn lemma_pred_count_push(e: Seq<Seq<usize>>, done: Seq<usize>, u: usize, v: usize, k: int)
    requires
        !done.contains(u),
        k <= usize::MAX + 1,
    ensures
        pred_count(e, done.push(u), v, k) + (if u < k && e[u as int].contains(v) {
            1nat
        } else {
            0nat
        }) == pred_count(e, done, v, k),
    decreases k,
{
    if k > 0 {
        lemma_pred_count_push(e, done, u, v, k - 1);
        let w = (k - 1) as usize;
        assert(done.push(u).contains(w) <==> (done.contains(w) || w == u)) by {
            if done.push(u).contains(w) {
                let i = choose|i: int| 0 <= i < done.push(u).len() && done.push(u)[i] == w;
                if i < done.len() {
                    assert(done[i] == w);
                }
            }
            if done.contains(w) {
                let i = choose|i: int| 0 <= i < done.len() && done[i] == w;
                assert(done.push(u)[i] == w);
            }
            if w == u {
                assert(done.push(u)[done.len() as int] == w);
            }
        }
    }
}

proof fn lemma_pred_count_zero(e: Seq<Seq<usize>>, done: Seq<usize>, v: usize, k: int, w: int)
    requires
        pred_count(e, done, v, k) == 0,
        0 <= w < k,
        e[w].contains(v),
    ensures
        done.contains(w as usize),
    decreases k,
{
    if w < k - 1 {
        lemma_pred_count_zero(e, done, v, k - 1, w);
    }
}

proof fn lemma_pred_count_pos(e: Seq<Seq<usize>>, done: Seq<usize>, v: usize, k: int)
    requires
        pred_count(e, done, v, k) > 0,
    ensures
        exists|w: int| 0 <= w < k && !done.contains(w as usize) && #[trigger] e[w].contains(v),
    decreases k,
{
    if k > 0 {
        if pred_count(e, done, v, k - 1) > 0 {
            lemma_pred_count_pos(e, done, v, k - 1);
        } else {
            let w = k - 1;
            assert(!done.contains(w as usize) && e[w].contains(v));
        }
    }
}

/// A sequence of distinct indices below `n` has at most `n` elements, and
/// exactly `n` only when it lists every index below `n`.
pub proof fn lemma_distinct_indices(s: Seq<usize>, n: nat)
    requires
        n <= usize::MAX + 1,
        s.no_duplicates(),
        forall|i: int| 0 <= i < s.len() ==> (#[trigger] s[i]) < n,
    ensures
        s.len() <= n,
        s.len() == n ==> forall|v: usize| v < n ==> s.contains(v),
    decreases n,
{
    if n == 0 {
        if s.len() > 0 {
            assert(s[0] < 0);
        }
    } else {
        let top = (n - 1) as usize;
        if s.contains(top) {
            let k = choose|k: int| 0 <= k < s.len() && s[k] == top;
            let s2 = s.remove(k);
            assert forall|i: int| 0 <= i < s2.len() implies (#[trigger] s2[i]) < (n - 1) as nat by {
                if i < k {
                    assert(s2[i] == s[i]);
                } else {
                    assert(s2[i] == s[i + 1]);
                }
            }
            assert(s2.no_duplicates()) by {
                assert forall|a: int, b: int| 0 <= a < s2.len() && 0 <= b < s2.len() && a != b implies s2[a]
                    != s2[b] by {
                    let ia = if a < k {
                        a
                    } else {
                        a + 1
                    };
                    let ib = if b < k {
                        b
                    } else {
                        b + 1
                    };
                    assert(s2[a] == s[ia]);
                    assert(s2[b] == s[ib]);
                }
            }
            lemma_distinct_indices(s2, (n - 1) as nat);
            if s.len() == n {
                assert forall|v: usize| v < n implies s.contains(v) by {
                    if v == top {
                        assert(s[k] == v);
                    } else {
                        assert(s2.contains(v));
                        let i = choose|i: int| 0 <= i < s2.len() && s2[i] == v;
                        if i < k {
                            assert(s[i] == v);
                        } else {
                            assert(s[i + 1] == v);
                        }
                    }
                }
            }
        } else {
            assert forall|i: int| 0 <= i < s.len() implies (#[trigger] s[i]) < (n - 1) as nat by {
                if s[i] == top {
                    assert(s.contains(top));
                }
            }
            lemma_distinct_indices(s, (n - 1) as nat);
        }
    }
}

/// A sequence that lists every index below `n` has at least `n` elements.
pub proof fn lemma_covering_indices(s: Seq<usize>, n: nat)
    requires
        n <= usize::MAX + 1,
        forall|v: usize| v < n ==> s.contains(v),
    ensures
        s.len() >= n,
    decreases n,
{
    if n > 0 {
        let top = (n - 1) as usize;
        assert(s.contains(top));
        let k = choose|k: int| 0 <= k < s.len() && s[k] == top;
        let s2 = s.remove(k);
        assert forall|v: usize| v < (n - 1) as nat implies s2.contains(v) by {
            assert(s.contains(v));
            let i = choose|i: int| 0 <= i < s.len() && s[i] == v;
            if i < k {
                assert(s2[i] == v);
            } else {
                assert(i != k);
                assert(s2[i - 1] == v);
            }
        }
        lemma_covering_indices(s2, (n - 1) as nat);
    }
}

/// A graph with a topological order is acyclic: no node lies on or after a cycle.
pub proof fn lemma_topological_order_implies_acyclic(e: Seq<Seq<usize>>, order: Seq<usize>)
    requires
        e.len() <= usize::MAX,
        edges_wf(e),
        is_topological_order(e, order),
    ensures
        acyclic(e),
{
    lemma_distinct_indices(order, e.len());
    assert forall|i: int| 0 <= i < order.len() implies forall|s: Set<int>|
        pred_closed(e, s) ==> !s.contains(#[trigger] order[i] as int) by {
        lemma_order_prefix_not_closed(e, order, i);
    }
    assert forall|v: int| 0 <= v < e.len() implies !after_cycle(e, v) by {
        assert(order.contains(v as usize));
        let i = choose|i: int| 0 <= i < order.len() && order[i] == v as usize;
        lemma_order_prefix_not_closed(e, order, i);
    }
}

proof fn lemma_order_prefix_not_closed(e: Seq<Seq<usize>>, order: Seq<usize>, i: int)
    requires
        e.len() <= usize::MAX,
        edges_wf(e),
        is_topological_order(e, order),
        0 <= i < order.len(),
    ensures
        forall|s: Set<int>| pred_closed(e, s) ==> !s.contains(order[i] as int),
    decreases i,
{
    lemma_distinct_indices(order, e.len());
    assert forall|s: Set<int>| pred_closed(e, s) implies !s.contains(order[i] as int) by {
        if s.contains(order[i] as int) {
            let v = order[i] as int;
            let u = choose|u: int| s.contains(u) && has_edge(e, u, v);
            assert(order.contains(u as usize));
            let j = choose|j: int| 0 <= j < order.len() && order[j] == u as usize;
            assert(j < i);
            lemma_order_prefix_not_closed(e, order, j);
        }
    }
}

/// Orders the nodes of a graph so that every edge points forward (Kahn's
/// algorithm), or reports the nodes that lie on a cycle.
///
/// The result is `Ok` exactly when the graph is acyclic; the error lists, in
/// increasing order, every node that lies on a cycle.
pub fn topo_order_or_cycle(edges: &[Vec<usize>]) -> (r: Result<Vec<usize>, RegistryError>)
    requires
        edges_wf(adjacency(edges@)),
    ensures
        r is Ok <==> acyclic(adjacency(edges@)),
        r matches Ok(order) ==> is_topological_order(adjacency(edges@), order@),
        r matches Err(err) ==> exists|cyclic: Seq<usize>|
            {
                &&& strictly_increasing(cyclic)
                &&& forall|v: usize|
                    #![trigger cyclic.contains(v)]
                    cyclic.contains(v) <==> (v < edges@.len() && on_cycle(
                        adjacency(edges@),
                        v as int,
                    ))
                &&& err matches RegistryError::CycleDetected(m) && m@ == index_list_text(cyclic)
            },
{
    let ghost e = adjacency(edges@);
    let n = edges.len();
    assert(e.len() == n);
    // Count the predecessors of every node.
    let mut indegree: Vec<usize> = Vec::new();
    for i in 0..n
        invariant
            indegree@.len() == i,
            forall|k: int| 0 <= k < i ==> indegree@[k] == 0,
    {
        indegree.push(0);
    }
    assert forall|v: int| 0 <= v < n implies indegree@[v] == pred_count(
        e,
        Seq::empty(),
        v as usize,
        0,
    ) by {}
    for u in 0..n
        invariant
            n == edges@.len(),
            e == adjacency(edges@),
            edges_wf(e),
            indegree@.len() == n,
            forall|v: int| 0 <= v < n ==> #[trigger] indegree@[v] == pred_count(e, Seq::empty(), v as usize, u as int),
    {
        let nb = &edges[u];
        assert(nb@ == e[u as int]);
        for j in 0..nb.len()
            invariant
                n == edges@.len(),
                e == adjacency(edges@),
                edges_wf(e),
                0 <= u < n,
                nb@ == e[u as int],
                indegree@.len() == n,
                forall|v: int|
                    0 <= v < n ==> #[trigger] indegree@[v] == pred_count(e, Seq::empty(), v as usize, u as int) + if nb@.take(
                        j as int,
                    ).contains(v as usize) {
                        1nat
                    } else {
                        0nat
                    },
        {
            let v = nb[j];
            assert(v < n);
            assert(!nb@.take(j as int).contains(v)) by {
                if nb@.take(j as int).contains(v) {
                    let k = choose|k: int| #![trigger nb@.take(j as int)[k]] 0 <= k < j && nb@.take(j as int)[k] == v;
                    assert(nb@[k] == nb@[j as int]);
                }
            }
            proof {
                lemma_pred_count_bound(e, Seq::empty(), v, u as int);
            }
            let ghost old_in = indegree@;
            indegree.set(v, indegree[v] + 1);
            assert forall|w: int| 0 <= w < n implies #[trigger] indegree@[w] == pred_count(
                e,
                Seq::empty(),
                w as usize,
                u as int,
            ) + if nb@.take(j + 1).contains(w as usize) {
                1nat
            } else {
                0nat
            } by {
                assert(old_in[w] == pred_count(e, Seq::empty(), w as usize, u as int) + if nb@.take(
                    j as int,
                ).contains(w as usize) {
                    1nat
                } else {
                    0nat
                });
                assert(nb@.take(j + 1) =~= nb@.take(j as int).push(v));
                if w as usize == v {
                    assert(nb@.take(j + 1)[j as int] == v);
                }
                if nb@.take(j + 1).contains(w as usize) && w as usize != v {
                    let k = choose|k: int| #![trigger nb@.take(j + 1)[k]] 0 <= k < j + 1 && nb@.take(j + 1)[k] == w as usize;
                    assert(nb@.take(j as int)[k] == w as usize);
                }
                if nb@.take(j as int).contains(w as usize) {
                    let k = choose|k: int| #![trigger nb@.take(j as int)[k]] 0 <= k < j && nb@.take(j as int)[k] == w as usize;
                    assert(nb@.take(j + 1)[k] == w as usize);
                }
            }
        }
        assert(nb@.take(nb@.len() as int) =~= nb@);
        assert forall|v: int| 0 <= v < n implies #[trigger] indegree@[v] == pred_count(
            e,
            Seq::empty(),
            v as usize,
            u + 1,
        ) by {
            assert(!Seq::<usize>::empty().contains(u as usize));
        }
    }
    // Start from the nodes without predecessors.
    let mut queue: Vec<usize> = Vec::new();
    for v in 0..n
        invariant
            n == edges@.len(),
            indegree@.len() == n,
            queue@.no_duplicates(),
            forall|k: int| 0 <= k < queue@.len() ==> #[trigger] queue@[k] < v,
            forall|w: int| 0 <= w < n && queue@.contains(w as usize) ==> indegree@[w] == 0,
            forall|w: int| 0 <= w < v && indegree@[w] == 0 ==> queue@.contains(w as usize),
    {
        if indegree[v] == 0 {
            proof {
                assert(!queue@.contains(v)) by {
                    if queue@.contains(v) {
                        let k = choose|k: int| 0 <= k < queue@.len() && queue@[k] == v;
                    }
                }
            }
            let ghost before = queue@;
            queue.push(v);
            proof {
                assert(queue@.last() == v);
                assert forall|w: int| 0 <= w < v + 1 && indegree@[w] == 0 implies queue@.contains(w as usize) by {
                    if w < v {
                        let k = choose|k: int| 0 <= k < before.len() && before[k] == w as usize;
                        assert(queue@[k] == w as usize);
                    } else {
                        assert(queue@[before.len() as int] == w as usize);
                    }
                }
                assert forall|w: int| 0 <= w < n && queue@.contains(w as usize) implies indegree@[w] == 0 by {
                    let k = choose|k: int| 0 <= k < queue@.len() && queue@[k] == w as usize;
                    if k < before.len() {
                        assert(before[k] == w as usize);
                    }
                }
            }
        }
    }
    let ghost empty: Seq<usize> = Seq::empty();
    assert(empty =~= queue@.take(0));
    let mut head: usize = 0;
    let mut topo: Vec<usize> = Vec::new();
    proof {
        lemma_distinct_indices(queue@, n as nat);
    }
    while head < queue.len()
        invariant
            n == edges@.len(),
            e == adjacency(edges@),
            edges_wf(e),
            indegree@.len() == n,
            head <= queue@.len() <= n,
            topo@ == queue@.take(head as int),
            queue@.no_duplicates(),
            forall|k: int| 0 <= k < queue@.len() ==> #[trigger] queue@[k] < n,
            forall|v: int| 0 <= v < n ==> #[trigger] indegree@[v] == pred_count(e, topo@, v as usize, n as int),
            forall|v: int| 0 <= v < n && queue@.contains(v as usize) ==> indegree@[v] == 0,
            forall|v: int| 0 <= v < n && indegree@[v] == 0 ==> queue@.contains(v as usize),
            forall|i: int, w: int|
                0 <= i < topo@.len() && #[trigger] has_edge(e, w, topo@[i] as int) ==> topo@.take(
                    i,
                ).contains(w as usize),
            forall|i: int, s: Set<int>|
                0 <= i < topo@.len() && #[trigger] pred_closed(e, s) ==> !s.contains(
                    #[trigger] topo@[i] as int,
                ),
        decreases n - head,
    {
        let u = queue[head];
        let ghost old_topo = topo@;
        proof {
            assert(!old_topo.contains(u)) by {
                if old_topo.contains(u) {
                    let k = choose|k: int| 0 <= k < old_topo.len() && old_topo[k] == u;
                    assert(queue@[k] == queue@[head as int]);
                }
            }
            assert(indegree@[u as int] == 0);
            // Every predecessor of `u` is already ordered.
            assert forall|w: int| #[trigger] has_edge(e, w, u as int) implies old_topo.contains(w as usize) by {
                lemma_pred_count_zero(e, old_topo, u, n as int, w);
            }
            // `u` lies on or after no cycle.
            assert forall|s: Set<int>| #[trigger] pred_closed(e, s) implies !s.contains(u as int) by {
                if s.contains(u as int) {
                    let w = choose|w: int| s.contains(w) && has_edge(e, w, u as int);
                    assert(old_topo.contains(w as usize));
                    let k = choose|k: int| 0 <= k < old_topo.len() && old_topo[k] == w as usize;
                    assert(!s.contains(old_topo[k] as int));
                }
            }
        }
        head = head + 1;
        topo.push(u);
        assert(topo@ =~= queue@.take(head as int));
        assert forall|v: int| 0 <= v < n implies #[trigger] indegree@[v] == pred_count(
            e,
            topo@,
            v as usize,
            n as int,
        ) + if e[u as int].contains(v as usize) {
            1nat
        } else {
            0nat
        } by {
            lemma_pred_count_push(e, old_topo, u, v as usize, n as int);
        }
        let nb = &edges[u];
        assert(nb@ == e[u as int]);
        assert(nb@.subrange(0, nb@.len() as int) =~= nb@);
        for j in 0..nb.len()
            invariant
                n == edges@.len(),
                e == adjacency(edges@),
                edges_wf(e),
                indegree@.len() == n,
                u < n,
                nb@ == e[u as int],
                head <= queue@.len() <= n,
                topo@ == queue@.take(head as int),
                queue@.no_duplicates(),
                forall|k: int| 0 <= k < queue@.len() ==> #[trigger] queue@[k] < n,
                forall|v: int|
                    0 <= v < n ==> #[trigger] indegree@[v] == pred_count(e, topo@, v as usize, n as int) + if nb@.subrange(
                        j as int,
                        nb@.len() as int,
                    ).contains(v as usize) {
                        1nat
                    } else {
                        0nat
                    },
                forall|v: int| 0 <= v < n && queue@.contains(v as usize) ==> indegree@[v] == 0,
                forall|v: int| 0 <= v < n && indegree@[v] == 0 ==> queue@.contains(v as usize),
        {
            let v = nb[j];
            let ghost cur = nb@.subrange(j as int, nb@.len() as int);
            let ghost next = nb@.subrange(j + 1, nb@.len() as int);
            assert(cur =~= seq![v] + next);
            assert(!next.contains(v)) by {
                if next.contains(v) {
                    let k = choose|k: int| #![trigger next[k]] 0 <= k < next.len() && next[k] == v;
                    assert(nb@[j + 1 + k] == nb@[j as int]);
                }
            }
            assert(cur[0] == v);
            assert(indegree@[v as int] >= 1);
            indegree.set(v, indegree[v] - 1);
            assert forall|w: int| 0 <= w < n implies #[trigger] indegree@[w] == pred_count(
                e,
                topo@,
                w as usize,
                n as int,
            ) + if next.contains(w as usize) {
                1nat
            } else {
                0nat
            } by {
                if w as usize != v {
                    if cur.contains(w as usize) {
                        let k = choose|k: int| #![trigger cur[k]] 0 <= k < cur.len() && cur[k] == w as usize;
                        assert(k != 0);
                        assert(next[k - 1] == w as usize);
                    }
                    if next.contains(w as usize) {
                        let k = choose|k: int| #![trigger next[k]] 0 <= k < next.len() && next[k] == w as usize;
                        assert(cur[k + 1] == w as usize);
                    }
                }
            }
            if indegree[v] == 0 {
                proof {
                    assert(!queue@.contains(v)) by {
                        if queue@.contains(v) {
                            let k = choose|k: int| 0 <= k < queue@.len() && queue@[k] == v;
                        }
                    }
                }
                let ghost before = queue@;
                queue.push(v);
                proof {
                    assert(queue@.last() == v);
                    assert(queue@.take(head as int) =~= topo@);
                    lemma_distinct_indices(queue@, n as nat);
                    assert forall|w: int| 0 <= w < n && indegree@[w] == 0 implies queue@.contains(w as usize) by {
                        if w as usize != v {
                            assert(before.contains(w as usize));
                            let k = choose|k: int| 0 <= k < before.len() && before[k] == w as usize;
                            assert(queue@[k] == w as usize);
                        } else {
                            assert(queue@[before.len() as int] == w as usize);
                        }
                    }
                    assert forall|w: int| 0 <= w < n && queue@.contains(w as usize) implies indegree@[w] == 0 by {
                        let k = choose|k: int| 0 <= k < queue@.len() && queue@[k] == w as usize;
                        if k < before.len() {
                            assert(before[k] == w as usize);
                        }
                    }
                }
            }
        }
        proof {
            assert(nb@.subrange(nb@.len() as int, nb@.len() as int) =~= Seq::<usize>::empty());
            assert forall|i: int, w: int|
                0 <= i < topo@.len() && #[trigger] has_edge(e, w, topo@[i] as int) implies topo@.take(
                i,
            ).contains(w as usize) by {
                if i < old_topo.len() {
                    assert(topo@[i] == old_topo[i]);
                    assert(topo@.take(i) =~= old_topo.take(i));
                } else {
                    assert(topo@[i] == u);
                    assert(topo@.take(i) =~= old_topo);
                }
            }
            assert forall|i: int, s: Set<int>|
                0 <= i < topo@.len() && #[trigger] pred_closed(e, s) implies !s.contains(
                #[trigger] topo@[i] as int,
            ) by {
                if i < old_topo.len() {
                    assert(topo@[i] == old_topo[i]);
                }
            }
        }
    }
    proof {
        assert(topo@ =~= queue@);
        lemma_distinct_indices(topo@, n as nat);
    }
    if topo.len() == n {
        proof {
            assert forall|i: int, j: int|
                0 <= i < topo@.len() && 0 <= j < topo@.len() && has_edge(
                    e,
                    topo@[j] as int,
                    topo@[i] as int,
                ) implies j < i by {
                assert(topo@.take(i).contains(topo@[j]));
                let k = choose|k: int| 0 <= k < i && topo@.take(i)[k] == topo@[j];
                assert(topo@[k] == topo@[j]);
            }
            lemma_topological_order_implies_acyclic(e, topo@);
        }
        return Ok(topo);
    }
    // Some nodes could not be ordered: they are exactly those that lie on or after a cycle.
    proof {
        assert(topo@.len() < n);
        assert forall|v: int| 0 <= v < n implies (indegree@[v] > 0 <==> !topo@.contains(v as usize)) by {
            if topo@.contains(v as usize) {
                assert(queue@.contains(v as usize));
            }
        }
        let rest = Set::new(|v: int| 0 <= v < n && !topo@.contains(v as usize));
        assert(pred_closed(e, rest)) by {
            assert forall|v: int| #[trigger] rest.contains(v) implies exists|u: int|
                rest.contains(u) && has_edge(e, u, v) by {
                assert(indegree@[v] > 0);
                lemma_pred_count_pos(e, topo@, v as usize, n as int);
                let w = choose|w: int|
                    0 <= w < n && !topo@.contains(w as usize) && #[trigger] e[w].contains(v as usize);
                assert(rest.contains(w) && has_edge(e, w, v));
            }
        }
        assert forall|v: int| #![trigger indegree@[v]] 0 <= v < n implies (indegree@[v] > 0 <==> after_cycle(e, v)) by {
            if indegree@[v] > 0 {
                assert(rest.contains(v));
            }
            if after_cycle(e, v) {
                let s = choose|s: Set<int>| pred_closed(e, s) && s.contains(v);
                if topo@.contains(v as usize) {
                    let k = choose|k: int| 0 <= k < topo@.len() && topo@[k] == v as usize;
                    assert(!s.contains(topo@[k] as int));
                }
            }
        }
        assert(!(forall|v: usize| v < n ==> topo@.contains(v))) by {
            if forall|v: usize| v < n ==> topo@.contains(v) {
                lemma_covering_indices(topo@, n as nat);
            }
        }
        let v = choose|v: usize| v < n && !topo@.contains(v);
        assert(indegree@[v as int] > 0);
        assert(after_cycle(e, v as int));
        assert(!acyclic(e));
    }
    let mut cyclic: Vec<usize> = Vec::new();
    for v in 0..n
        invariant
            n == edges@.len(),
            e == adjacency(edges@),
            edges_wf(e),
            strictly_increasing(cyclic@),
            forall|k: int| 0 <= k < cyclic@.len() ==> #[trigger] cyclic@[k] < v,
            forall|w: usize|
                #![trigger cyclic@.contains(w)]
                cyclic@.contains(w) <==> (w < v && on_cycle(e, w as int)),
    {
        if lies_on_cycle(edges, v) {
            let ghost before = cyclic@;
            cyclic.push(v);
            proof {
                assert(cyclic@ == before.push(v));
                assert forall|w: usize| #![trigger cyclic@.contains(w)] cyclic@.contains(w) <==> (w < v + 1 && on_cycle(e, w as int)) by {
                    if w == v {
                        assert(cyclic@[before.len() as int] == w);
                    }
                    if cyclic@.contains(w) && w != v {
                        let k = choose|k: int| 0 <= k < cyclic@.len() && cyclic@[k] == w;
                        assert(k < before.len());
                        assert(before[k] == w);
                        assert(before.contains(w));
                    }
                    if w < v && on_cycle(e, w as int) {
                        assert(before.contains(w));
                        let k = choose|k: int| 0 <= k < before.len() && before[k] == w;
                        assert(cyclic@[k] == w);
                    }
                }
            }
        }
    }
    let msg = index_list_string(&cyclic);
    Err(RegistryError::CycleDetected(msg))
}

/// Whether node `v` lies on a cycle: a breadth-first search from the
/// successors of `v` that looks for `v` itself.
fn lies_on_cycle(edges: &[Vec<usize>], v: usize) -> (r: bool)
    requires
        edges_wf(adjacency(edges@)),
        v < edges@.len(),
    ensures
        r == on_cycle(adjacency(edges@), v as int),
{
    let ghost e = adjacency(edges@);
    let n = edges.len();
    let mut visited: Vec<bool> = Vec::new();
    for i in 0..n
        invariant
            visited@.len() == i,
            forall|k: int| 0 <= k < i ==> !visited@[k],
    {
        visited.push(false);
    }
    let mut queue: Vec<usize> = Vec::new();
    let nb = &edges[v];
    assert(nb@ == e[v as int]);
    for j in 0..nb.len()
        invariant
            n == edges@.len(),
            e == adjacency(edges@),
            edges_wf(e),
            v < n,
            nb@ == e[v as int],
            visited@.len() == n,
            queue@.no_duplicates(),
            forall|k: int| 0 <= k < queue@.len() ==> #[trigger] queue@[k] < n,
            forall|x: int| 0 <= x < n ==> (visited@[x] <==> queue@.contains(x as usize)),
            forall|k: int| 0 <= k < queue@.len() ==> reaches(e, v as int, #[trigger] queue@[k] as int),
            forall|k: int| 0 <= k < j ==> visited@[#[trigger] nb@[k] as int],
    {
        let w = nb[j];
        assert(has_edge(e, v as int, w as int)) by {
            assert(e[v as int][j as int] == w);
        }
        if !visited[w] {
            let ghost before = queue@;
            visited.set(w, true);
            queue.push(w);
            proof {
                assert(!before.contains(w));
                assert forall|k: int| 0 <= k < queue@.len() implies reaches(
                    e,
                    v as int,
                    #[trigger] queue@[k] as int,
                ) by {
                    if k < before.len() {
                        assert(queue@[k] == before[k]);
                    }
                }
                assert forall|x: int| 0 <= x < n implies (visited@[x] <==> queue@.contains(
                    x as usize,
                )) by {
                    if x != w as int {
                        if queue@.contains(x as usize) {
                            let k = choose|k: int| 0 <= k < queue@.len() && queue@[k] == x as usize;
                            assert(before[k] == x as usize);
                        }
                        if before.contains(x as usize) {
                            let k = choose|k: int| 0 <= k < before.len() && before[k] == x as usize;
                            assert(queue@[k] == x as usize);
                        }
                    } else {
                        assert(queue@[before.len() as int] == w);
                    }
                }
            }
        }
    }
    proof {
        assert forall|x: int| #[trigger] has_edge(e, v as int, x) implies visited@[x] by {
            let k = choose|k: int| 0 <= k < nb@.len() && nb@[k] == x as usize;
        }
        lemma_distinct_indices(queue@, n as nat);
    }
    let mut head: usize = 0;
    while head < queue.len()
        invariant
            n == edges@.len(),
            e == adjacency(edges@),
            edges_wf(e),
            v < n,
            visited@.len() == n,
            head <= queue@.len() <= n,
            queue@.no_duplicates(),
            forall|k: int| 0 <= k < queue@.len() ==> #[trigger] queue@[k] < n,
            forall|x: int| 0 <= x < n ==> (visited@[x] <==> queue@.contains(x as usize)),
            forall|k: int| 0 <= k < queue@.len() ==> reaches(e, v as int, #[trigger] queue@[k] as int),
            forall|x: int| #[trigger] has_edge(e, v as int, x) ==> visited@[x],
            forall|k: int, x: int|
                0 <= k < head && #[trigger] has_edge(e, queue@[k] as int, x) ==> visited@[x],
        decreases n - head,
    {
        let u = queue[head];
        let nb = &edges[u];
        assert(nb@ == e[u as int]);
        for j in 0..nb.len()
            invariant
                n == edges@.len(),
                e == adjacency(edges@),
                edges_wf(e),
                v < n,
                u < n,
                u == queue@[head as int],
                nb@ == e[u as int],
                visited@.len() == n,
                head < queue@.len() <= n,
                queue@.no_duplicates(),
                forall|k: int| 0 <= k < queue@.len() ==> #[trigger] queue@[k] < n,
                forall|x: int| 0 <= x < n ==> (visited@[x] <==> queue@.contains(x as usize)),
                forall|k: int| 0 <= k < queue@.len() ==> reaches(e, v as int, #[trigger] queue@[k] as int),
                forall|x: int| #[trigger] has_edge(e, v as int, x) ==> visited@[x],
                forall|k: int, x: int|
                    0 <= k < head && #[trigger] has_edge(e, queue@[k] as int, x) ==> visited@[x],
                forall|k: int| 0 <= k < j ==> visited@[#[trigger] nb@[k] as int],
        {
            let w = nb[j];
            assert(has_edge(e, u as int, w as int)) by {
                assert(e[u as int][j as int] == w);
            }
            if !visited[w] {
                let ghost before = queue@;
                visited.set(w, true);
                queue.push(w);
                proof {
                    assert(!before.contains(w));
                    assert(reaches(e, v as int, u as int));
                    assert(reaches(e, v as int, w as int)) by {
                        assert forall|s: Set<int>|
                            (forall|x: int| #[trigger] has_edge(e, v as int, x) ==> s.contains(x))
                                && succ_closed(e, s) implies s.contains(w as int) by {
                            assert(s.contains(u as int));
                        }
                    }
                    assert forall|k: int| 0 <= k < queue@.len() implies reaches(
                        e,
                        v as int,
                        #[trigger] queue@[k] as int,
                    ) by {
                        if k < before.len() {
                            assert(queue@[k] == before[k]);
                        }
                    }
                    assert forall|x: int| 0 <= x < n implies (visited@[x] <==> queue@.contains(
                        x as usize,
                    )) by {
                        if x != w as int {
                            if queue@.contains(x as usize) {
                                let k = choose|k: int|
                                    0 <= k < queue@.len() && queue@[k] == x as usize;
                                assert(before[k] == x as usize);
                            }
                            if before.contains(x as usize) {
                                let k = choose|k: int|
                                    0 <= k < before.len() && before[k] == x as usize;
                                assert(queue@[k] == x as usize);
                            }
                        } else {
                            assert(queue@[before.len() as int] == w);
                        }
                    }
                    assert forall|k: int, x: int|
                        0 <= k < head && #[trigger] has_edge(e, queue@[k] as int, x) implies visited@[x] by {
                        assert(queue@[k] == before[k]);
                    }
                    lemma_distinct_indices(queue@, n as nat);
                }
            }
        }
        proof {
            assert forall|k: int, x: int|
                0 <= k < head + 1 && #[trigger] has_edge(e, queue@[k] as int, x) implies visited@[x] by {
                if k == head {
                    let i = choose|i: int| 0 <= i < nb@.len() && nb@[i] == x as usize;
                }
            }
        }
        head = head + 1;
    }
    let r = visited[v];
    proof {
        if r {
            let k = choose|k: int| 0 <= k < queue@.len() && queue@[k] == v;
            assert(reaches(e, v as int, queue@[k] as int));
        } else {
            let s = Set::new(|x: int| 0 <= x < n && visited@[x]);
            assert(succ_closed(e, s)) by {
                assert forall|u: int, w: int| s.contains(u) && has_edge(e, u, w) implies s.contains(
                    w,
                ) by {
                    let k = choose|k: int| 0 <= k < queue@.len() && queue@[k] == u as usize;
                    assert(has_edge(e, queue@[k] as int, w));
                    let i = choose|i: int| 0 <= i < e[u].len() && e[u][i] == w as usize;
                    assert(e[u][i] < n);
                }
            }
            assert forall|x: int| #[trigger] has_edge(e, v as int, x) implies s.contains(x) by {
                let i = choose|i: int| 0 <= i < e[v as int].len() && e[v as int][i] == x as usize;
                assert(e[v as int][i] < n);
            }
            assert(!s.contains(v as int));
        }
    }
    r
}

/// Two strictly increasing lists with the same members are equal.
pub proof fn lemma_increasing_unique(a: Seq<usize>, b: Seq<usize>)
    requires
        strictly_increasing(a),
        strictly_increasing(b),
        forall|v: usize| a.contains(v) <==> b.contains(v),
    ensures
        a == b,
    decreases a.len(),
{
    if a.len() == 0 {
        if b.len() > 0 {
            assert(b.contains(b[0]));
        }
        assert(a =~= b);
    } else {
        assert(a.contains(a[0]));
        assert(b.len() > 0);
        assert(b.contains(b[0]));
        let ia = choose|i: int| 0 <= i < a.len() && a[i] == b[0];
        let ib = choose|i: int| 0 <= i < b.len() && b[i] == a[0];
        assert(a[0] <= a[ia]);
        assert(b[0] <= b[ib]);
        assert(a[0] == b[0]);
        let a2 = a.drop_first();
        let b2 = b.drop_first();
        assert forall|v: usize| a2.contains(v) <==> b2.contains(v) by {
            if a2.contains(v) {
                let i = choose|i: int| 0 <= i < a2.len() && a2[i] == v;
                assert(a[i + 1] == v);
                assert(a.contains(v));
                assert(v > a[0]);
                let j = choose|j: int| 0 <= j < b.len() && b[j] == v;
                assert(j > 0);
                assert(b2[j - 1] == v);
            }
            if b2.contains(v) {
                let i = choose|i: int| 0 <= i < b2.len() && b2[i] == v;
                assert(b[i + 1] == v);
                assert(b.contains(v));
                assert(v > b[0]);
                let j = choose|j: int| 0 <= j < a.len() && a[j] == v;
                assert(j > 0);
                assert(a2[j - 1] == v);
            }
        }
        lemma_increasing_unique(a2, b2);
        assert(a =~= b) by {
            assert forall|i: int| 0 <= i < a.len() implies a[i] == b[i] by {
                if i > 0 {
                    assert(a[i] == a2[i - 1]);
                    assert(b[i] == b2[i - 1]);
                }
            }
        }
    }
}

} // verus!
