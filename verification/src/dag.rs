//! Topological ordering of dependency graphs (Kahn's algorithm) and the proof that it
//! decides acyclicity.
//!
//! Nodes are the indices `0..n`; an edge `(u, v)` says that `u` must come before `v`.
use vstd::prelude::*;

verus! {

/// Every edge joins two nodes of the graph.
pub open spec fn edges_in_range(n: nat, edges: Seq<(usize, usize)>) -> bool {
    forall|i: int| 0 <= i < edges.len() ==> (#[trigger] edges[i]).0 < n && edges[i].1 < n
}

/// `rank` gives each node a number that strictly grows along every edge.
pub open spec fn is_ranking(n: nat, edges: Seq<(usize, usize)>, rank: Seq<nat>) -> bool {
    &&& rank.len() == n
    &&& forall|i: int|
        0 <= i < edges.len() ==> rank[(#[trigger] edges[i]).0 as int] < rank[edges[i].1 as int]
}

/// The graph has no directed cycle: some ranking of its nodes grows along every edge
/// (equivalently, its nodes can be put in an order that every edge respects).
pub open spec fn is_acyclic(n: nat, edges: Seq<(usize, usize)>) -> bool {
    exists|rank: Seq<nat>| is_ranking(n, edges, rank)
}

/// `order` lists distinct nodes, and every edge between two listed nodes goes forward.
pub open spec fn respects_edges(n: nat, edges: Seq<(usize, usize)>, order: Seq<usize>) -> bool {
    &&& order.no_duplicates()
    &&& forall|p: int| 0 <= p < order.len() ==> (#[trigger] order[p]) < n
    &&& forall|i: int, p: int, q: int|
        #![trigger edges[i], order[p], order[q]]
        0 <= i < edges.len() && 0 <= p < order.len() && 0 <= q < order.len() && order[p]
            == edges[i].0 && order[q] == edges[i].1 ==> p < q
}

/// `order` lists every node exactly once and every edge goes forward in it.
pub open spec fn is_topological_order(n: nat, edges: Seq<(usize, usize)>, order: Seq<usize>) -> bool {
    order.len() == n && respects_edges(n, edges, order)
}

/// Edges among the first `hi` that end in `w` and whose source is not yet done.
pub open spec fn pending(edges: Seq<(usize, usize)>, done: Seq<bool>, w: int, hi: int) -> nat
    decreases hi,
{
    if hi <= 0 {
        0
    } else {
        pending(edges, done, w, hi - 1) + (if edges[hi - 1].1 == w && !done[edges[hi - 1].0 as int] {
            1nat
        } else {
            0nat
        })
    }
}

/// Edges with index in `lo..hi` that go from `u` to `w`.
pub open spec fn from_to(edges: Seq<(usize, usize)>, u: int, w: int, lo: int, hi: int) -> nat
    decreases hi - lo,
{
    if hi <= lo {
        0
    } else {
        from_to(edges, u, w, lo, hi - 1) + (if edges[hi - 1].0 == u && edges[hi - 1].1 == w {
            1nat
        } else {
            0nat
        })
    }
}

/// Number of set flags among the first `k`.
pub open spec fn count_true(flags: Seq<bool>, k: int) -> nat
    decreases k,
{
    if k <= 0 {
        0
    } else {
        count_true(flags, k - 1) + (if flags[k - 1] {
            1nat
        } else {
            0nat
        })
    }
}

proof fn lemma_pending_pop(edges: Seq<(usize, usize)>, done: Seq<bool>, u: int, w: int, hi: int)
    requires
        0 <= u < done.len(),
        !done[u],
        0 <= hi <= edges.len(),
        forall|i: int| 0 <= i < hi ==> (#[trigger] edges[i]).0 < done.len(),
    ensures
        pending(edges, done, w, hi) == pending(edges, done.update(u, true), w, hi) + from_to(
            edges,
            u,
            w,
            0,
            hi,
        ),
    decreases hi,
{
    if hi > 0 {
        lemma_pending_pop(edges, done, u, w, hi - 1);
        let e = edges[hi - 1];
        assert(e.0 < done.len());
        if e.0 as int == u {
            assert(done.update(u, true)[e.0 as int]);
        } else {
            assert(done.update(u, true)[e.0 as int] == done[e.0 as int]);
        }
    }
}

proof fn lemma_from_to_front(edges: Seq<(usize, usize)>, u: int, w: int, lo: int, hi: int)
    requires
        lo < hi,
    ensures
        from_to(edges, u, w, lo, hi) == (if edges[lo].0 == u && edges[lo].1 == w {
            1nat
        } else {
            0nat
        }) + from_to(edges, u, w, lo + 1, hi),
    decreases hi - lo,
{
    if hi - 1 > lo {
        lemma_from_to_front(edges, u, w, lo, hi - 1);
        assert(from_to(edges, u, w, lo + 1, hi) == from_to(edges, u, w, lo + 1, hi - 1) + (if edges[hi
            - 1].0 == u && edges[hi - 1].1 == w {
            1nat
        } else {
            0nat
        }));
    } else {
        assert(from_to(edges, u, w, lo + 1, hi) == 0);
        assert(from_to(edges, u, w, lo, hi - 1) == 0);
    }
}

proof fn lemma_pending_zero(edges: Seq<(usize, usize)>, done: Seq<bool>, w: int, hi: int)
    requires
        pending(edges, done, w, hi) == 0,
        hi <= edges.len(),
    ensures
        forall|i: int| 0 <= i < hi && (#[trigger] edges[i]).1 == w ==> done[edges[i].0 as int],
    decreases hi,
{
    if hi > 0 {
        lemma_pending_zero(edges, done, w, hi - 1);
    }
}

proof fn lemma_pending_witness(edges: Seq<(usize, usize)>, done: Seq<bool>, w: int, hi: int) -> (i: int)
    requires
        pending(edges, done, w, hi) > 0,
        hi <= edges.len(),
    ensures
        0 <= i < hi,
        edges[i].1 == w,
        !done[edges[i].0 as int],
    decreases hi,
{
    if pending(edges, done, w, hi - 1) > 0 {
        lemma_pending_witness(edges, done, w, hi - 1)
    } else {
        hi - 1
    }
}

proof fn lemma_pending_bound(edges: Seq<(usize, usize)>, done: Seq<bool>, w: int, hi: int)
    requires
        0 <= hi,
    ensures
        pending(edges, done, w, hi) <= hi,
    decreases hi,
{
    if hi > 0 {
        lemma_pending_bound(edges, done, w, hi - 1);
    }
}

proof fn lemma_count_true_update(flags: Seq<bool>, u: int, k: int)
    requires
        0 <= u < flags.len(),
        !flags[u],
        0 <= k <= flags.len(),
    ensures
        count_true(flags.update(u, true), k) == count_true(flags, k) + (if u < k {
            1nat
        } else {
            0nat
        }),
    decreases k,
{
    if k > 0 {
        lemma_count_true_update(flags, u, k - 1);
    }
}

proof fn lemma_count_true_full(flags: Seq<bool>, k: int)
    requires
        0 <= k <= flags.len(),
        count_true(flags, k) >= k,
    ensures
        forall|i: int| 0 <= i < k ==> flags[i],
    decreases k,
{
    if k > 0 {
        lemma_count_true_bound(flags, k - 1);
        lemma_count_true_full(flags, k - 1);
    }
}

proof fn lemma_count_true_bound(flags: Seq<bool>, k: int)
    requires
        0 <= k,
    ensures
        count_true(flags, k) <= k,
    decreases k,
{
    if k > 0 {
        lemma_count_true_bound(flags, k - 1);
    }
}

/// With a ranking, nodes that are not done but still wait on an edge from a node that is
/// not done cannot exist: every node is done.
proof fn lemma_blocked_nodes_impossible(
    n: nat,
    edges: Seq<(usize, usize)>,
    done: Seq<bool>,
    rank: Seq<nat>,
    r: nat,
)
    requires
        is_ranking(n, edges, rank),
        edges_in_range(n, edges),
        done.len() == n,
        forall|v: int| 0 <= v < n && !done[v] ==> pending(edges, done, v, edges.len() as int) > 0,
    ensures
        forall|v: int| 0 <= v < n && !done[v] ==> rank[v] > r,
    decreases r,
{
    assert forall|v: int| 0 <= v < n && !done[v] implies rank[v] > r by {
        let i = lemma_pending_witness(edges, done, v, edges.len() as int);
        let u = edges[i].0 as int;
        assert(rank[u] < rank[v]);
        if r > 0 {
            lemma_blocked_nodes_impossible(n, edges, done, rank, (r - 1) as nat);
            assert(edges[i].0 < n);
        }
    }
}

/// Number of edges into each node.
fn in_degrees(n: usize, edges: &Vec<(usize, usize)>) -> (indeg: Vec<usize>)
    requires
        edges_in_range(n as nat, edges@),
    ensures
        indeg.len() == n,
        forall|v: int|
            0 <= v < n ==> indeg@[v] == pending(
                edges@,
                Seq::new(n as nat, |i: int| false),
                v,
                edges.len() as int,
            ),
{
    let ghost none = Seq::new(n as nat, |i: int| false);
    let mut indeg: Vec<usize> = Vec::new();
    let mut k: usize = 0;
    while k < n
        invariant
            k <= n,
            indeg.len() == k,
            forall|v: int| 0 <= v < k ==> indeg@[v] == 0,
        decreases n - k,
    {
        indeg.push(0);
        k = k + 1;
    }
    let mut j: usize = 0;
    while j < edges.len()
        invariant
            j <= edges.len(),
            indeg.len() == n,
            edges_in_range(n as nat, edges@),
            none == Seq::new(n as nat, |i: int| false),
            forall|v: int| 0 <= v < n ==> indeg@[v] == pending(edges@, none, v, j as int),
            forall|v: int| 0 <= v < n ==> indeg@[v] <= j,
        decreases edges.len() - j,
    {
        let (a, b) = edges[j];
        proof {
            assert(edges@[j as int].0 < n && edges@[j as int].1 < n);
            assert(!none[a as int]);
        }
        indeg.set(b, indeg[b] + 1);
        j = j + 1;
    }
    indeg
}

/// Kahn's algorithm: repeatedly takes a node all of whose predecessors are already taken.
/// The nodes taken respect every edge, and all nodes are taken exactly when the graph is
/// acyclic.
pub fn kahn_order(n: usize, edges: &Vec<(usize, usize)>) -> (order: Vec<usize>)
    requires
        edges_in_range(n as nat, edges@),
    ensures
        respects_edges(n as nat, edges@, order@),
        order.len() <= n,
        (order.len() == n) == is_acyclic(n as nat, edges@),
{
    let ghost m = edges.len() as int;
    let mut indeg = in_degrees(n, edges);
    let mut popped: Vec<bool> = Vec::new();
    let mut k: usize = 0;
    while k < n
        invariant
            k <= n,
            popped.len() == k,
            forall|v: int| 0 <= v < k ==> !popped@[v],
        decreases n - k,
    {
        popped.push(false);
        k = k + 1;
    }
    proof {
        assert(popped@ =~= Seq::new(n as nat, |i: int| false));
    }
    let mut queue: Vec<usize> = Vec::new();
    let mut v: usize = 0;
    while v < n
        invariant
            v <= n,
            indeg.len() == n,
            popped.len() == n,
            forall|w: int| 0 <= w < n ==> !popped@[w],
            forall|w: int| 0 <= w < n ==> indeg@[w] == pending(edges@, popped@, w, m),
            queue@.no_duplicates(),
            forall|p: int| 0 <= p < queue.len() ==> queue@[p] < v,
            forall|p: int| 0 <= p < queue.len() ==> indeg@[queue@[p] as int] == 0,
            forall|w: int| 0 <= w < v && indeg@[w] == 0 ==> queue@.contains(w as usize),
            m == edges.len(),
        decreases n - v,
    {
        if indeg[v] == 0 {
            let ghost q0 = queue@;
            queue.push(v);
            proof {
                assert(queue@[q0.len() as int] == v);
                assert forall|w: int| 0 <= w < v + 1 && indeg@[w] == 0 implies queue@.contains(
                    w as usize,
                ) by {
                    if w < v {
                        let p = choose|p: int| 0 <= p < q0.len() && q0[p] == w as usize;
                        assert(queue@[p] == w as usize);
                    }
                }
            }
        }
        v = v + 1;
    }
    proof {
        assert(count_true(popped@, n as int) == 0) by {
            lemma_count_true_zero(popped@, n as int);
        }
    }
    let mut head: usize = 0;
    while head < queue.len()
        invariant
            edges_in_range(n as nat, edges@),
            m == edges.len(),
            indeg.len() == n,
            popped.len() == n,
            head <= queue.len(),
            head <= n,
            queue@.no_duplicates(),
            forall|p: int| 0 <= p < queue.len() ==> (#[trigger] queue@[p]) < n,
            forall|w: int|
                0 <= w < n ==> (popped@[w] <==> exists|p: int|
                    0 <= p < head && #[trigger] queue@[p] == w),
            forall|w: int| 0 <= w < n ==> indeg@[w] == pending(edges@, popped@, w, m),
            forall|p: int| 0 <= p < queue.len() ==> indeg@[(#[trigger] queue@[p]) as int] == 0,
            forall|w: int| 0 <= w < n && indeg@[w] == 0 ==> queue@.contains(w as usize),
            count_true(popped@, n as int) == head,
            forall|i: int, p: int, q: int|
                #![trigger edges@[i], queue@[p], queue@[q]]
                0 <= i < m && 0 <= p < head && 0 <= q < head && queue@[p] == edges@[i].0
                    && queue@[q] == edges@[i].1 ==> p < q,
        decreases n - head,
    {
        let u = queue[head];
        let ghost old_popped = popped@;
        let ghost old_head = head;
        proof {
            assert(!popped@[u as int]) by {
                if popped@[u as int] {
                    let p = choose|p: int| 0 <= p < head && queue@[p] == u;
                    assert(queue@[p] == queue@[head as int]);
                }
            }
            lemma_pending_zero(edges@, popped@, u as int, m);
            assert forall|w: int| 0 <= w < n implies pending(edges@, popped@, w, m) == pending(
                edges@,
                popped@.update(u as int, true),
                w,
                m,
            ) + from_to(edges@, u as int, w, 0, m) by {
                lemma_pending_pop(edges@, popped@, u as int, w, m);
            }
            lemma_count_true_update(popped@, u as int, n as int);
            lemma_count_true_bound(popped@.update(u as int, true), n as int);
        }
        popped.set(u, true);
        head = head + 1;
        proof {
            // Predecessors of `u` were taken before it; successors of `u` were not taken yet.
            assert forall|i: int, p: int, q: int|
                #![trigger edges@[i], queue@[p], queue@[q]]
                0 <= i < m && 0 <= p < head && 0 <= q < head && queue@[p] == edges@[i].0
                    && queue@[q] == edges@[i].1 implies p < q by {
                if q == old_head {
                    assert(old_popped[edges@[i].0 as int]);
                    let p2 = choose|p2: int| 0 <= p2 < old_head && queue@[p2] == edges@[i].0;
                    assert(queue@[p2] == queue@[p]);
                } else if p == old_head {
                    let w = edges@[i].1 as int;
                    assert(indeg@[w] == 0);
                    lemma_pending_zero(edges@, old_popped, w, m);
                    assert(old_popped[u as int]);
                }
            }
            assert forall|w: int|
                0 <= w < n implies (popped@[w] <==> exists|p: int|
                    0 <= p < head && #[trigger] queue@[p] == w) by {
                if w == u as int {
                    assert(queue@[old_head as int] == w);
                }
                if w != u as int && popped@[w] {
                    assert(old_popped[w]);
                }
            }
        }
        let mut j: usize = 0;
        while j < edges.len()
            invariant
                edges_in_range(n as nat, edges@),
                m == edges.len(),
                j <= edges.len(),
                u < n,
                indeg.len() == n,
                popped.len() == n,
                popped@[u as int],
                head <= queue.len(),
                head <= n,
                queue@.no_duplicates(),
                forall|p: int| 0 <= p < queue.len() ==> (#[trigger] queue@[p]) < n,
                count_true(popped@, n as int) == head,
                forall|w: int|
                    0 <= w < n ==> (popped@[w] <==> exists|p: int|
                        0 <= p < head && #[trigger] queue@[p] == w),
                forall|i: int, p: int, q: int|
                    #![trigger edges@[i], queue@[p], queue@[q]]
                    0 <= i < m && 0 <= p < head && 0 <= q < head && queue@[p] == edges@[i].0
                        && queue@[q] == edges@[i].1 ==> p < q,
                forall|w: int|
                    0 <= w < n ==> indeg@[w] == pending(edges@, popped@, w, m) + from_to(
                        edges@,
                        u as int,
                        w,
                        j as int,
                        m,
                    ),
                forall|p: int| 0 <= p < queue.len() ==> indeg@[(#[trigger] queue@[p]) as int] == 0,
                forall|w: int| 0 <= w < n && indeg@[w] == 0 ==> queue@.contains(w as usize),
            decreases edges.len() - j,
        {
            let (a, b) = edges[j];
            proof {
                assert(edges@[j as int].0 < n && edges@[j as int].1 < n);
                assert forall|w: int| 0 <= w < n implies from_to(edges@, u as int, w, j as int, m)
                    == (if edges@[j as int].0 == u && edges@[j as int].1 == w {
                    1nat
                } else {
                    0nat
                }) + from_to(edges@, u as int, w, j + 1, m) by {
                    lemma_from_to_front(edges@, u as int, w, j as int, m);
                }
            }
            if a == u {
                proof {
                    assert(indeg@[b as int] >= 1);
                    assert(!queue@.contains(b)) by {
                        if queue@.contains(b) {
                            let p = choose|p: int| 0 <= p < queue.len() && queue@[p] == b;
                            assert(indeg@[queue@[p] as int] == 0);
                        }
                    }
                }
                let d = indeg[b] - 1;
                indeg.set(b, d);
                if d == 0 {
                    let ghost q0 = queue@;
                    queue.push(b);
                    proof {
                        assert forall|w: int| 0 <= w < n && indeg@[w] == 0 implies queue@.contains(
                            w as usize,
                        ) by {
                            if w != b as int {
                                assert(q0.contains(w as usize));
                                let p = choose|p: int| 0 <= p < q0.len() && q0[p] == w as usize;
                                assert(queue@[p] == w as usize);
                            } else {
                                assert(queue@[q0.len() as int] == b);
                            }
                        }
                        assert forall|w: int|
                            0 <= w < n implies (popped@[w] <==> exists|p: int|
                                0 <= p < head && #[trigger] queue@[p] == w) by {
                            if popped@[w] {
                                let p = choose|p: int| 0 <= p < head && q0[p] == w;
                                assert(queue@[p] == w);
                            }
                            if exists|p: int| 0 <= p < head && #[trigger] queue@[p] == w {
                                let p = choose|p: int| 0 <= p < head && queue@[p] == w;
                                assert(q0[p] == w);
                            }
                        }
                        assert forall|i: int, p: int, q: int|
                            #![trigger edges@[i], queue@[p], queue@[q]]
                            0 <= i < m && 0 <= p < head && 0 <= q < head && queue@[p]
                                == edges@[i].0 && queue@[q] == edges@[i].1 implies p < q by {
                            assert(q0[p] == queue@[p] && q0[q] == queue@[q]);
                        }
                    }
                }
            }
            j = j + 1;
        }
        proof {
            assert forall|w: int| 0 <= w < n implies from_to(edges@, u as int, w, m, m) == 0 by {}
        }
    }
    proof {
        assert forall|w: int| 0 <= w < n && !popped@[w] implies pending(edges@, popped@, w, m) > 0 by {
            if indeg@[w] == 0 {
                assert(queue@.contains(w as usize));
                let p = choose|p: int| 0 <= p < queue.len() && queue@[p] == w as usize;
                assert(queue@[p] == w);
            }
        }
        if queue.len() == n {
            let rank = Seq::new(n as nat, |w: int| queue@.index_of(w as usize) as nat);
            lemma_count_true_full(popped@, n as int);
            assert(head == queue.len());
            assert forall|w: int| 0 <= w < n implies 0 <= #[trigger] queue@.index_of(w as usize)
                < queue.len() && queue@[queue@.index_of(w as usize)] == w as usize by {
                assert(popped@[w]);
                let p = choose|p: int| 0 <= p < head && queue@[p] == w;
                assert(queue@.contains(w as usize));
            }
            assert forall|i: int| 0 <= i < m implies rank[(#[trigger] edges@[i]).0 as int] < rank[edges@[i].1 as int] by {
                let a = edges@[i].0 as int;
                let b = edges@[i].1 as int;
                assert(edges@[i].0 < n && edges@[i].1 < n);
                let pa = queue@.index_of(a as usize);
                let pb = queue@.index_of(b as usize);
                assert(0 <= pa && queue@[pa] == a as usize);
                assert(0 <= pb && queue@[pb] == b as usize);
                assert(pa < head && pb < head);
                assert(pa < pb);
            }
            assert(is_ranking(n as nat, edges@, rank));
        } else {
            if is_acyclic(n as nat, edges@) {
                let rank = choose|rank: Seq<nat>| is_ranking(n as nat, edges@, rank);
                lemma_blocked_nodes_impossible(n as nat, edges@, popped@, rank, 0);
                assert forall|w: int| 0 <= w < n implies popped@[w] by {
                    lemma_blocked_nodes_impossible(n as nat, edges@, popped@, rank, rank[w]);
                }
                lemma_count_all_true(popped@, n as int);
            }
        }
    }
    queue
}

proof fn lemma_count_true_zero(flags: Seq<bool>, k: int)
    requires
        0 <= k <= flags.len(),
        forall|i: int| 0 <= i < k ==> !flags[i],
    ensures
        count_true(flags, k) == 0,
    decreases k,
{
    if k > 0 {
        lemma_count_true_zero(flags, k - 1);
    }
}

proof fn lemma_count_all_true(flags: Seq<bool>, k: int)
    requires
        0 <= k <= flags.len(),
        forall|i: int| 0 <= i < k ==> flags[i],
    ensures
        count_true(flags, k) == k,
    decreases k,
{
    if k > 0 {
        lemma_count_all_true(flags, k - 1);
    }
}

} // verus!
