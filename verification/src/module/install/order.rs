//! Depth-first search on a dependency graph whose nodes are positions, giving its nodes in
//! reverse finishing order: a topological order, in which each node comes before what it
//! depends on.
use vstd::prelude::*;

verus! {

/// The graph of an adjacency list.
pub open spec fn graph_of(adj: Seq<Vec<usize>>) -> Seq<Seq<usize>> {
    Seq::new(adj.len(), |i: int| adj[i]@)
}

/// The edges point at nodes of the graph.
pub open spec fn closed_graph(g: Seq<Seq<usize>>) -> bool {
    forall|u: int, j: int| 0 <= u < g.len() && 0 <= j < g[u].len() ==> #[trigger] g[u][j] < g.len()
}

/// `rank` falls along every edge, so the graph has no cycle.
pub open spec fn ranks(g: Seq<Seq<usize>>, rank: Seq<nat>) -> bool {
    &&& rank.len() == g.len()
    &&& forall|u: int, j: int| 0 <= u < g.len() && 0 <= j < g[u].len() ==> rank[u] > rank[#[trigger] g[u][j] as int]
}

/// The graph has no cycle.
pub open spec fn acyclic(g: Seq<Seq<usize>>) -> bool {
    exists|rank: Seq<nat>| ranks(g, rank)
}

/// Some node depends on `v`.
pub open spec fn depended(g: Seq<Seq<usize>>, v: int) -> bool {
    exists|u: int, j: int| 0 <= u < g.len() && 0 <= j < g[u].len() && #[trigger] g[u][j] == v
}

pub open spec fn white(color: Seq<u8>, v: int) -> bool {
    color[v] == 0
}

pub open spec fn gray(color: Seq<u8>, v: int) -> bool {
    color[v] == 1
}

pub open spec fn black(color: Seq<u8>, v: int) -> bool {
    color[v] == 2
}

/// The search state: a node is unvisited (0), being visited (1) or done (2); `finish` lists the
/// done nodes in the order they were done and `pos` gives each its place there; a done node was
/// done after all of its children.
pub open spec fn search_state(g: Seq<Seq<usize>>, color: Seq<u8>, pos: Seq<usize>, finish: Seq<usize>) -> bool {
    &&& color.len() == g.len()
    &&& pos.len() == g.len()
    &&& forall|v: int| 0 <= v < color.len() ==> #[trigger] color[v] <= 2
    &&& forall|k: int|
        0 <= k < finish.len() ==> (#[trigger] finish[k]) < g.len() && black(color, finish[k] as int)
            && pos[finish[k] as int] == k
    &&& forall|v: int| #![trigger pos[v]] 0 <= v < color.len() && black(color, v) ==> pos[v] < finish.len() && finish[pos[v] as int] == v
    &&& forall|u: int, j: int|
        #![trigger g[u][j]]
        0 <= u < g.len() && 0 <= j < g[u].len() && black(color, u) ==> black(color, g[u][j] as int)
            && pos[g[u][j] as int] < pos[u]
}

/// The number of nodes not visited yet.
pub open spec fn whites(color: Seq<u8>) -> nat
    decreases color.len(),
{
    if color.len() == 0 {
        0
    } else {
        whites(color.drop_last()) + if color.last() == 0 { 1nat } else { 0nat }
    }
}

proof fn lemma_whites_subset(a: Seq<u8>, b: Seq<u8>)
    requires
        a.len() == b.len(),
        forall|i: int| 0 <= i < a.len() && b[i] == 0 ==> a[i] == 0,
    ensures
        whites(b) <= whites(a),
    decreases a.len(),
{
    if a.len() > 0 {
        lemma_whites_subset(a.drop_last(), b.drop_last());
    }
}

proof fn lemma_whites_at_most(c: Seq<u8>)
    ensures
        whites(c) <= c.len(),
    decreases c.len(),
{
    if c.len() > 0 {
        lemma_whites_at_most(c.drop_last());
    }
}

/// Visiting a node leaves fewer unvisited nodes.
proof fn lemma_fewer_whites(a: Seq<u8>, b: Seq<u8>, q: int)
    requires
        a.len() == b.len(),
        0 <= q < a.len(),
        a[q] == 0,
        b[q] != 0,
        forall|i: int| 0 <= i < a.len() && b[i] == 0 ==> a[i] == 0,
    ensures
        whites(b) < whites(a),
    decreases a.len(),
{
    lemma_whites_subset(a.drop_last(), b.drop_last());
    if q < a.len() - 1 {
        lemma_fewer_whites(a.drop_last(), b.drop_last(), q);
    }
}

/// The largest rank, plus one.
pub open spec fn rank_bound(rank: Seq<nat>) -> nat
    decreases rank.len(),
{
    if rank.len() == 0 {
        0
    } else {
        let b = rank_bound(rank.drop_last());
        if rank.last() + 1 > b {
            rank.last() + 1
        } else {
            b
        }
    }
}

proof fn lemma_rank_bound(rank: Seq<nat>)
    ensures
        forall|v: int| 0 <= v < rank.len() ==> #[trigger] rank[v] < rank_bound(rank),
    decreases rank.len(),
{
    if rank.len() > 0 {
        lemma_rank_bound(rank.drop_last());
        assert forall|v: int| 0 <= v < rank.len() implies #[trigger] rank[v] < rank_bound(rank) by {
            if v < rank.len() - 1 {
                assert(rank[v] == rank.drop_last()[v]);
            }
        }
    }
}

/// When no node is being visited and every unvisited node is depended upon, no node of an
/// acyclic graph is unvisited: the unvisited node of highest rank would have an unvisited node
/// above it. Shown for the nodes of rank `b` and above, from the top down.
proof fn lemma_none_unvisited(g: Seq<Seq<usize>>, color: Seq<u8>, pos: Seq<usize>, finish: Seq<usize>, rank: Seq<nat>, b: nat)
    requires
        search_state(g, color, pos, finish),
        ranks(g, rank),
        forall|v: int| 0 <= v < color.len() ==> !gray(color, v),
        forall|v: int| 0 <= v < color.len() && white(color, v) ==> depended(g, v),
        forall|v: int| 0 <= v < rank.len() ==> #[trigger] rank[v] < rank_bound(rank),
    ensures
        forall|v: int| 0 <= v < color.len() && white(color, v) ==> #[trigger] rank[v] < b,
    decreases rank_bound(rank) - b,
{
    if b < rank_bound(rank) {
        lemma_none_unvisited(g, color, pos, finish, rank, b + 1);
        assert forall|v: int| 0 <= v < color.len() && white(color, v) implies #[trigger] rank[v] < b by {
            if rank[v] >= b {
                assert(depended(g, v));
                let (u, j) = choose|u: int, j: int| 0 <= u < g.len() && 0 <= j < g[u].len() && #[trigger] g[u][j] == v;
                assert(rank[u] > rank[g[u][j] as int]);
                assert(rank[u] < rank_bound(rank));
                assert(!white(color, u));
                assert(!gray(color, u));
                assert(color[u] <= 2);
                assert(black(color, u));
                assert(black(color, g[u][j] as int));
            }
        }
    }
}

/// Marking an unvisited node as being visited keeps the search state.
proof fn lemma_mark_gray(g: Seq<Seq<usize>>, c0: Seq<u8>, pos: Seq<usize>, finish: Seq<usize>, q: int)
    requires
        search_state(g, c0, pos, finish),
        closed_graph(g),
        0 <= q < c0.len(),
        white(c0, q),
    ensures
        search_state(g, c0.update(q, 1), pos, finish),
{
    let c = c0.update(q, 1);
    assert forall|k: int| 0 <= k < finish.len() implies (#[trigger] finish[k]) < g.len() && black(c, finish[k] as int)
        && pos[finish[k] as int] == k by {
        assert(black(c0, finish[k] as int));
    }
    assert forall|v: int| 0 <= v < c.len() && black(c, v) implies pos[v] < finish.len() && #[trigger] finish[pos[v] as int] == v by {
        assert(black(c0, v));
    }
    assert forall|u: int, i: int| 0 <= u < g.len() && 0 <= i < g[u].len() && black(c, u) implies black(c, #[trigger] g[u][i] as int)
        && pos[g[u][i] as int] < pos[u] by {
        let x = g[u][i] as int;
        assert(black(c0, u));
        assert(black(c0, x));
        assert(x != q);
        assert(c[x] == c0[x]);
    }
    assert forall|v: int| 0 <= v < c.len() implies #[trigger] c[v] <= 2 by {
        if v != q {
            assert(c0[v] <= 2);
        }
    }
}

/// What visiting `q` depth first from the colouring `c` gives: the colouring after it, and the
/// nodes in the order they were done. `q` is marked as being visited, its children are visited in
/// order where they are not visited yet, then `q` is done. `fuel` bounds the depth.
pub open spec fn dfs_node(g: Seq<Seq<usize>>, c: Seq<u8>, q: int, fuel: nat) -> (Seq<u8>, Seq<usize>)
    decreases fuel, 1int, 0int,
{
    let (c1, f1) = dfs_children(g, c.update(q, 1u8), q, 0, fuel);
    (c1.update(q, 2u8), f1.push(q as usize))
}

/// Visiting the children of `q` from the `j`th on, depth first, each that is not visited yet.
pub open spec fn dfs_children(g: Seq<Seq<usize>>, c: Seq<u8>, q: int, j: int, fuel: nat) -> (Seq<u8>, Seq<usize>)
    decreases fuel, 0int, g[q].len() - j,
{
    if j < 0 || j >= g[q].len() {
        (c, Seq::empty())
    } else {
        let d = g[q][j] as int;
        if c[d] == 0 {
            if fuel > 0 {
                let (c1, f1) = dfs_node(g, c, d, (fuel - 1) as nat);
                let (c2, f2) = dfs_children(g, c1, q, j + 1, fuel);
                (c2, f1 + f2)
            } else {
                (c, Seq::empty())
            }
        } else {
            dfs_children(g, c, q, j + 1, fuel)
        }
    }
}

/// Some node is unvisited when there are unvisited nodes.
proof fn lemma_whites_positive(c: Seq<u8>, d: int)
    requires
        0 <= d < c.len(),
        c[d] == 0,
    ensures
        whites(c) >= 1,
    decreases c.len(),
{
    if d < c.len() - 1 {
        lemma_whites_positive(c.drop_last(), d);
    }
}

/// Visits `q` and, depth first, everything below it that is not visited yet.
fn visit(adj: &Vec<Vec<usize>>, q: usize, color: &mut Vec<u8>, pos: &mut Vec<usize>, finish: &mut Vec<usize>, Ghost(rank): Ghost<Seq<nat>>, Ghost(fuel): Ghost<nat>)
    requires
        fuel >= whites(old(color)@),
        closed_graph(graph_of(adj@)),
        ranks(graph_of(adj@), rank),
        search_state(graph_of(adj@), old(color)@, old(pos)@, old(finish)@),
        q < adj@.len(),
        white(old(color)@, q as int),
        forall|v: int| 0 <= v < old(color)@.len() && gray(old(color)@, v) ==> rank[v] > rank[q as int],
    ensures
        search_state(graph_of(adj@), final(color)@, final(pos)@, final(finish)@),
        black(final(color)@, q as int),
        forall|v: int| 0 <= v < final(color)@.len() ==> (gray(final(color)@, v) <==> gray(old(color)@, v)),
        forall|v: int| 0 <= v < final(color)@.len() && black(old(color)@, v) ==> black(final(color)@, v) && final(pos)@[v] == old(pos)@[v],
        forall|v: int| 0 <= v < final(color)@.len() && white(final(color)@, v) ==> white(old(color)@, v),
        old(finish)@.len() <= final(finish)@.len(),
        forall|k: int| 0 <= k < old(finish)@.len() ==> final(finish)@[k] == old(finish)@[k],
        final(color)@ == dfs_node(graph_of(adj@), old(color)@, q as int, fuel).0,
        final(finish)@ == old(finish)@ + dfs_node(graph_of(adj@), old(color)@, q as int, fuel).1,
    decreases whites(old(color)@),
{
    let ghost g = graph_of(adj@);
    let ghost color0 = color@;
    let ghost pos0 = pos@;
    let ghost finish0 = finish@;
    color.set(q, 1);
    proof {
        lemma_mark_gray(g, color0, pos0, finish0, q as int);
        assert(color@ == color0.update(q as int, 1));
    }
    let n = adj[q].len();
    assert(g[q as int] == adj@[q as int]@);
    let mut j: usize = 0;
    let ghost total = dfs_children(g, color0.update(q as int, 1u8), q as int, 0, fuel);
    proof {
        lemma_fewer_whites(color0, color@, q as int);
    }
    while j < n
        invariant
            whites(color@) < fuel,
            total == dfs_children(g, color0.update(q as int, 1u8), q as int, 0, fuel),
            dfs_children(g, color@, q as int, j as int, fuel).0 == total.0,
            finish@.subrange(finish0.len() as int, finish@.len() as int) + dfs_children(g, color@, q as int, j as int, fuel).1
                == total.1,
            g == graph_of(adj@),
            closed_graph(g),
            ranks(g, rank),
            q < adj@.len(),
            n == g[q as int].len(),
            j <= n,
            color@.len() == color0.len(),
            color0 == old(color)@,
            color@[q as int] == 1,
            white(color0, q as int),
            forall|v: int| 0 <= v < color0.len() && gray(color0, v) ==> rank[v] > rank[q as int],
            search_state(g, color@, pos@, finish@),
            forall|v: int| 0 <= v < color@.len() && v != q ==> (gray(color@, v) <==> gray(color0, v)),
            forall|v: int| 0 <= v < color@.len() && black(color0, v) ==> black(color@, v) && pos@[v] == pos0[v],
            forall|v: int| #![trigger white(color@, v)] 0 <= v < color@.len() && white(color@, v) ==> white(color0, v),
            finish0.len() <= finish@.len(),
            forall|k: int| 0 <= k < finish0.len() ==> finish@[k] == finish0[k],
            forall|i: int| 0 <= i < j ==> black(color@, #[trigger] g[q as int][i] as int),
        decreases n - j,
    {
        let d = adj[q][j];
        assert(g[q as int][j as int] == d);
        assert(rank[q as int] > rank[d as int]);
        if color[d] == 0 {
            proof {
                assert forall|i: int| 0 <= i < color0.len() && color@[i] == 0 implies color0[i] == 0 by {
                    assert(white(color@, i));
                }
                lemma_fewer_whites(color0, color@, q as int);
                assert forall|v: int| 0 <= v < color@.len() && gray(color@, v) implies rank[v] > rank[d as int] by {
                    if v != q {
                        assert(gray(color0, v));
                    }
                }
            }
            let ghost color1 = color@;
            let ghost pos1 = pos@;
            let ghost finish1 = finish@;
            proof {
                lemma_whites_positive(color1, d as int);
                assert(dfs_children(g, color1, q as int, j as int, fuel) == ({
                    let (c1, f1) = dfs_node(g, color1, d as int, (fuel - 1) as nat);
                    let (c2, f2) = dfs_children(g, c1, q as int, j + 1, fuel);
                    (c2, f1 + f2)
                }));
            }
            visit(adj, d, color, pos, finish, Ghost(rank), Ghost((fuel - 1) as nat));
            proof {
                assert forall|i: int| 0 <= i < color1.len() && color@[i] == 0 implies color1[i] == 0 by {
                    assert(white(color@, i));
                }
                lemma_whites_subset(color1, color@);
                let f1 = dfs_node(g, color1, d as int, (fuel - 1) as nat).1;
                assert(finish@.subrange(finish0.len() as int, finish@.len() as int) =~= finish1.subrange(finish0.len() as int, finish1.len() as int) + f1);
                let rest = dfs_children(g, color@, q as int, j + 1, fuel).1;
                assert(finish1.subrange(finish0.len() as int, finish1.len() as int) + (f1 + rest) =~= finish@.subrange(finish0.len() as int, finish@.len() as int) + rest);
                assert(gray(color1, q as int));
                assert(gray(color@, q as int) <==> gray(color1, q as int));
                assert forall|i: int| 0 <= i < j + 1 implies black(color@, #[trigger] g[q as int][i] as int) by {
                    if i < j {
                        assert(black(color1, g[q as int][i] as int));
                    }
                }
            }
        } else {
            assert(d != q);
            proof {
                if gray(color@, d as int) {
                    assert(gray(color0, d as int));
                }
            }
            assert(!gray(color@, d as int));
            assert(black(color@, d as int));
            assert(dfs_children(g, color@, q as int, j as int, fuel) == dfs_children(g, color@, q as int, j + 1, fuel));
        }
        j = j + 1;
    }
    proof {
        assert(dfs_children(g, color@, q as int, j as int, fuel).1 =~= Seq::<usize>::empty());
        assert(finish@.subrange(finish0.len() as int, finish@.len() as int) =~= total.1);
        assert(finish@ =~= finish0 + total.1);
    }
    let ghost cl = color@;
    let ghost pl = pos@;
    let at = finish.len();
    proof {
        assert forall|v: int| 0 <= v < color@.len() && black(color@, v) implies pos@[v] < at by {
            assert(finish@[pos@[v] as int] == v);
        }
    }
    pos.set(q, at);
    color.set(q, 2);
    finish.push(q);
    proof {
        let c = color@;
        let p = pos@;
        let f = finish@;
        assert forall|v: int| 0 <= v < c.len() && white(c, v) implies white(color0, v) by {
            assert(v != q);
            assert(white(cl, v));
        }
        assert forall|v: int| 0 <= v < c.len() implies (gray(c, v) <==> gray(color0, v)) by {
            if v != q {
                assert(gray(cl, v) <==> gray(color0, v));
            }
        }
        assert forall|v: int| 0 <= v < c.len() && black(color0, v) implies black(c, v) && p[v] == pos0[v] by {
            assert(v != q);
            assert(black(cl, v) && pl[v] == pos0[v]);
        }
        assert forall|k: int| 0 <= k < f.len() implies (#[trigger] f[k]) < g.len() && black(c, f[k] as int) && p[f[k] as int] == k by {
            if k < at {
                assert(f[k] != q);
            }
        }
        assert forall|u: int, i: int| 0 <= u < g.len() && 0 <= i < g[u].len() && black(c, u) implies black(c, #[trigger] g[u][i] as int)
            && p[g[u][i] as int] < p[u] by {
            if u != q {
                assert(g[u][i] != q);
            }
        }
    }
}

/// The first node from `s` on that is not visited yet and that nothing depends on, or the number
/// of nodes where there is none.
pub open spec fn next_root(c: Seq<u8>, t: Seq<bool>, s: int) -> int
    decreases c.len() - s,
{
    if s < 0 || s >= c.len() {
        c.len() as int
    } else if c[s] == 0 && !t[s] {
        s
    } else {
        next_root(c, t, s + 1)
    }
}

/// Searching depth first from each node that nothing depends on (`t` marks the others), always the
/// first such node not visited yet, for at most `rounds` searches: the colouring after it and the
/// nodes in the order they were done.
pub open spec fn dfs_roots(g: Seq<Seq<usize>>, t: Seq<bool>, c: Seq<u8>, rounds: nat) -> (Seq<u8>, Seq<usize>)
    decreases rounds,
{
    let s = next_root(c, t, 0);
    if rounds == 0 || s >= c.len() {
        (c, Seq::empty())
    } else {
        let (c1, f1) = dfs_node(g, c, s, whites(c));
        let (c2, f2) = dfs_roots(g, t, c1, (rounds - 1) as nat);
        (c2, f1 + f2)
    }
}

/// The nodes of a graph in depth-first reverse finishing order: the search starts from each
/// node that nothing depends on, in order, and follows the edges of a node in order.
pub open spec fn depth_first_order(g: Seq<Seq<usize>>) -> Seq<usize> {
    dfs_roots(
        g,
        Seq::new(g.len(), |v: int| depended(g, v)),
        Seq::new(g.len(), |v: int| 0u8),
        (g.len() + 1) as nat,
    ).1.reverse()
}

/// Whether `v` occurs in `r`.
pub open spec fn listed(r: Seq<usize>, v: int) -> bool {
    exists|k: int| 0 <= k < r.len() && r[k] == v
}

/// The nodes of an acyclic graph in depth-first reverse finishing order. The search starts
/// from each node that nothing depends on, in order, and follows the edges of a node in order.
pub fn finish_order(adj: &Vec<Vec<usize>>) -> (r: Vec<usize>)
    requires
        closed_graph(graph_of(adj@)),
        acyclic(graph_of(adj@)),
    ensures
        forall|k: int| 0 <= k < r@.len() ==> #[trigger] r@[k] < adj@.len(),
        forall|a: int, b: int| 0 <= a < b < r@.len() ==> #[trigger] r@[a] != #[trigger] r@[b],
        forall|v: int| 0 <= v < adj@.len() ==> #[trigger] listed(r@, v),
        forall|a: int, b: int, j: int|
            #![trigger r@[b], adj@[r@[a] as int]@[j]]
            0 <= a < r@.len() && 0 <= b < r@.len() && 0 <= j < adj@[r@[a] as int]@.len()
                && r@[b] == adj@[r@[a] as int]@[j] ==> a < b,
        r@ == depth_first_order(graph_of(adj@)),
{
    let ghost g = graph_of(adj@);
    let ghost rank = choose|rank: Seq<nat>| ranks(g, rank);
    let n = adj.len();
    let mut color: Vec<u8> = Vec::new();
    let mut pos: Vec<usize> = Vec::new();
    let mut targets: Vec<bool> = Vec::new();
    let mut i: usize = 0;
    while i < n
        invariant
            n == adj@.len(),
            i <= n,
            color@.len() == i,
            pos@.len() == i,
            targets@.len() == i,
            forall|v: int| 0 <= v < i ==> #[trigger] color@[v] == 0,
            forall|v: int| 0 <= v < i ==> !#[trigger] targets@[v],
        decreases n - i,
    {
        color.push(0);
        pos.push(0);
        targets.push(false);
        i = i + 1;
    }
    let mut u: usize = 0;
    while u < n
        invariant
            g == graph_of(adj@),
            closed_graph(g),
            n == adj@.len(),
            u <= n,
            targets@.len() == n,
            forall|v: int| 0 <= v < n ==> (#[trigger] targets@[v] <==> exists|w: int, j: int|
                0 <= w < u && 0 <= j < g[w].len() && #[trigger] g[w][j] == v),
        decreases n - u,
    {
        let m = adj[u].len();
        assert(g[u as int] == adj@[u as int]@);
        let mut j: usize = 0;
        while j < m
            invariant
                g == graph_of(adj@),
                closed_graph(g),
                n == adj@.len(),
                u < n,
                m == g[u as int].len(),
                j <= m,
                targets@.len() == n,
                forall|v: int| 0 <= v < n ==> (#[trigger] targets@[v] <==> (exists|w: int, k: int|
                    0 <= w < u && 0 <= k < g[w].len() && #[trigger] g[w][k] == v) || exists|k: int|
                    0 <= k < j && #[trigger] g[u as int][k] == v),
            decreases m - j,
        {
            let d = adj[u][j];
            assert(g[u as int][j as int] == d);
            targets.set(d, true);
            j = j + 1;
        }
        u = u + 1;
    }
    let mut finish: Vec<usize> = Vec::new();
    assert(search_state(g, color@, pos@, finish@));
    let ghost t = Seq::new(g.len(), |v: int| depended(g, v));
    let ghost c0 = Seq::new(g.len(), |v: int| 0u8);
    assert(targets@ =~= t);
    assert(color@ =~= c0);
    let ghost total = dfs_roots(g, t, c0, (g.len() + 1) as nat);
    let ghost mut rounds: nat = (g.len() + 1) as nat;
    proof {
        lemma_whites_at_most(color@);
    }
    loop
        invariant
            targets@ == t,
            rounds > whites(color@),
            dfs_roots(g, t, color@, rounds).0 == total.0,
            finish@ + dfs_roots(g, t, color@, rounds).1 == total.1,
            total == dfs_roots(g, t, c0, (g.len() + 1) as nat),
            g == graph_of(adj@),
            closed_graph(g),
            ranks(g, rank),
            n == adj@.len(),
            targets@.len() == n,
            forall|v: int| 0 <= v < n ==> (#[trigger] targets@[v] <==> depended(g, v)),
            search_state(g, color@, pos@, finish@),
            forall|v: int| 0 <= v < n ==> !gray(color@, v),
        ensures
            search_state(g, color@, pos@, finish@),
            forall|v: int| 0 <= v < n ==> black(color@, v),
            finish@ == total.1,
        decreases whites(color@),
    {
        let mut s: usize = 0;
        while s < n && !(color[s] == 0 && !targets[s])
            invariant
                s <= n,
                color@.len() == n,
                targets@.len() == n,
                next_root(color@, targets@, s as int) == next_root(color@, targets@, 0),
                forall|v: int| 0 <= v < s ==> !(#[trigger] color@[v] == 0 && !targets@[v]),
            decreases n - s,
        {
            s = s + 1;
        }
        if s == n {
            proof {
                assert(finish@ + dfs_roots(g, t, color@, rounds).1 =~= finish@);
                lemma_rank_bound(rank);
                assert forall|v: int| 0 <= v < color@.len() && white(color@, v) implies depended(g, v) by {
                    assert(!(color@[v] == 0 && !targets@[v]));
                }
                lemma_none_unvisited(g, color@, pos@, finish@, rank, 0);
                assert forall|v: int| 0 <= v < n implies black(color@, v) by {
                    assert(!gray(color@, v));
                    assert(color@[v] <= 2);
                    if white(color@, v) {
                        assert(rank[v] < 0);
                    }
                }
            }
            break;
        }
        let ghost color1 = color@;
        let ghost finish1 = finish@;
        let ghost w = whites(color1);
        proof {
            lemma_whites_positive(color1, s as int);
        }
        visit(adj, s, &mut color, &mut pos, &mut finish, Ghost(rank), Ghost(w));
        proof {
            let f1 = dfs_node(g, color1, s as int, w).1;
            let rest = dfs_roots(g, t, color@, (rounds - 1) as nat).1;
            assert(finish1 + (f1 + rest) =~= finish@ + rest);
            rounds = (rounds - 1) as nat;
            assert forall|i: int| 0 <= i < color1.len() && color@[i] == 0 implies color1[i] == 0 by {
                assert(white(color@, i));
            }
            lemma_fewer_whites(color1, color@, s as int);
        }
    }
    let mut r: Vec<usize> = Vec::new();
    let len = finish.len();
    let mut k: usize = 0;
    while k < len
        invariant
            len == finish@.len(),
            k <= len,
            r@.len() == k,
            forall|m: int| 0 <= m < k ==> #[trigger] r@[m] == finish@[len - 1 - m],
        decreases len - k,
    {
        r.push(finish[len - 1 - k]);
        k = k + 1;
    }
    proof {
        assert forall|a: int| 0 <= a < r@.len() implies #[trigger] r@[a] < adj@.len() by {
            assert(finish@[len - 1 - a] < g.len());
        }
        assert forall|a: int, b: int| 0 <= a < b < r@.len() implies #[trigger] r@[a] != #[trigger] r@[b] by {
            assert(pos@[finish@[len - 1 - a] as int] == len - 1 - a);
            assert(pos@[finish@[len - 1 - b] as int] == len - 1 - b);
        }
        assert forall|v: int| 0 <= v < adj@.len() implies #[trigger] listed(r@, v) by {
            assert(black(color@, v));
            let p = pos@[v] as int;
            assert(r@[len - 1 - p] == finish@[p]);
        }
        assert(r@ =~= depth_first_order(g));
        assert forall|a: int, b: int, j: int|
            #![trigger r@[b], adj@[r@[a] as int]@[j]]
            0 <= a < r@.len() && 0 <= b < r@.len() && 0 <= j < adj@[r@[a] as int]@.len()
                && r@[b] == adj@[r@[a] as int]@[j] implies a < b by {
            let u = r@[a] as int;
            assert(finish@[len - 1 - a] == u);
            assert(u < g.len());
            assert(g[u][j] == adj@[u]@[j]);
            assert(black(color@, u));
            assert(pos@[finish@[len - 1 - a] as int] == len - 1 - a);
            assert(pos@[finish@[len - 1 - b] as int] == len - 1 - b);
        }
    }
    r
}

/// The number of nodes not done yet.
pub open spec fn pending(done: Seq<bool>) -> nat
    decreases done.len(),
{
    if done.len() == 0 {
        0
    } else {
        pending(done.drop_last()) + if done.last() { 0nat } else { 1nat }
    }
}

proof fn lemma_fewer_pending(a: Seq<bool>, q: int)
    requires
        0 <= q < a.len(),
        !a[q],
    ensures
        pending(a.update(q, true)) < pending(a),
    decreases a.len(),
{
    let b = a.update(q, true);
    if q < a.len() - 1 {
        assert(b.drop_last() =~= a.drop_last().update(q, true));
        lemma_fewer_pending(a.drop_last(), q);
    } else {
        assert(b.drop_last() =~= a.drop_last());
    }
}

/// Node `w` has a child that is not taken away.
#[verifier::opaque]
pub open spec fn blocked(g: Seq<Seq<usize>>, done: Seq<bool>, w: int) -> bool {
    exists|j: int| 0 <= j < g[w].len() && !done[#[trigger] g[w][j] as int]
}

/// When every node not taken away has a child not taken away, no ranking exists: by induction on
/// `b`, every such node has a rank of at least `b`.
proof fn lemma_stuck_ranks(g: Seq<Seq<usize>>, done: Seq<bool>, rank: Seq<nat>, b: nat)
    requires
        closed_graph(g),
        done.len() == g.len(),
        ranks(g, rank),
        forall|v: int| 0 <= v < g.len() && !done[v] ==> #[trigger] blocked(g, done, v),
    ensures
        forall|v: int| 0 <= v < g.len() && !#[trigger] done[v] ==> rank[v] >= b,
    decreases b,
{
    if b > 0 {
        lemma_stuck_ranks(g, done, rank, (b - 1) as nat);
        assert forall|v: int| 0 <= v < g.len() && !#[trigger] done[v] implies rank[v] >= b by {
            assert(blocked(g, done, v));
            reveal(blocked);
            let j = choose|j: int| 0 <= j < g[v].len() && !done[#[trigger] g[v][j] as int];
            let c = g[v][j] as int;
            assert(c < g.len());
            assert(rank[v] > rank[c]);
        }
    }
}

/// Whether the graph has no cycle, found by taking away, round by round, a node all of whose
/// children are taken away already: that succeeds for every node exactly when there is no cycle.
/// A `true` answer comes with a ranking, so it is sound.
pub fn has_no_cycle(adj: &Vec<Vec<usize>>) -> (r: bool)
    requires
        closed_graph(graph_of(adj@)),
    ensures
        r == acyclic(graph_of(adj@)),
{
    let ghost g = graph_of(adj@);
    let n = adj.len();
    let mut done: Vec<bool> = Vec::new();
    let mut i: usize = 0;
    while i < n
        invariant
            i <= n,
            n == adj@.len(),
            done@.len() == i,
            forall|v: int| 0 <= v < i ==> !#[trigger] done@[v],
        decreases n - i,
    {
        done.push(false);
        i = i + 1;
    }
    let ghost mut rank: Seq<nat> = Seq::new(n as nat, |v: int| 0nat);
    let ghost mut round: nat = 1;
    loop
        invariant
            g == graph_of(adj@),
            closed_graph(g),
            n == adj@.len(),
            done@.len() == n,
            rank.len() == n,
            forall|v: int| 0 <= v < n && #[trigger] done@[v] ==> rank[v] < round,
            forall|u: int, j: int|
                0 <= u < n && 0 <= j < g[u].len() && done@[u] ==> done@[#[trigger] g[u][j] as int] && rank[u] > rank[g[u][j] as int],
        decreases pending(done@),
    {
        let mut pick: Option<usize> = None;
        let mut v: usize = 0;
        let mut all_done = true;
        while v < n
            invariant
                g == graph_of(adj@),
                closed_graph(g),
                n == adj@.len(),
                done@.len() == n,
                v <= n,
                pick matches Some(p) ==> p < n && !done@[p as int] && forall|j: int| 0 <= j < g[p as int].len() ==> #[trigger] done@[g[p as int][j] as int],
                all_done == forall|w: int| 0 <= w < v ==> #[trigger] done@[w],
                pick is None ==> forall|w: int| 0 <= w < v && !done@[w] ==> #[trigger] blocked(g, done@, w),
            decreases n - v,
        {
            if !done[v] {
                all_done = false;
                if pick.is_none() {
                    let row = &adj[v];
                    assert(g[v as int] == row@);
                    let mut ready = true;
                    let mut j: usize = 0;
                    while j < row.len()
                        invariant
                            g == graph_of(adj@),
                            n == adj@.len(),
                            done@.len() == n,
                            v < n,
                            g[v as int] == row@,
                            closed_graph(g),
                            j <= row@.len(),
                            ready == forall|k: int| 0 <= k < j ==> #[trigger] done@[g[v as int][k] as int],
                        decreases row@.len() - j,
                    {
                        assert(row@[j as int] == g[v as int][j as int]);
                        if !done[row[j]] {
                            ready = false;
                        }
                        j = j + 1;
                    }
                    if ready {
                        pick = Some(v);
                    } else {
                        proof {
                            reveal(blocked);
                            let k = choose|k: int| 0 <= k < row@.len() && !done@[#[trigger] g[v as int][k] as int];
                            assert(blocked(g, done@, v as int));
                        }
                    }
                }
            }
            v = v + 1;
        }
        if all_done {
            proof {
                assert(ranks(g, rank));
            }
            return true;
        }
        match pick {
            None => {
                proof {
                    if acyclic(g) {
                        let rk = choose|rk: Seq<nat>| ranks(g, rk);
                        let w = choose|w: int| 0 <= w < n && !#[trigger] done@[w];
                        lemma_stuck_ranks(g, done@, rk, rk[w] + 1);
                        assert(rk[w] >= rk[w] + 1);
                    }
                }
                return false;
            },
            Some(p) => {
                let ghost d0 = done@;
                let ghost r0 = rank;
                let ghost round0 = round;
                proof {
                    lemma_fewer_pending(done@, p as int);
                    rank = rank.update(p as int, round);
                    round = round + 1;
                }
                done.set(p, true);
                proof {
                    assert forall|u: int, j: int|
                        0 <= u < n && 0 <= j < g[u].len() && done@[u] implies done@[#[trigger] g[u][j] as int] && rank[u] > rank[g[u][j] as int] by {
                        let c = g[u][j] as int;
                        assert(c < n);
                        if u == p {
                            assert(d0[c]);
                            assert(r0[c] < round0);
                            assert(c != p);
                        } else {
                            assert(d0[u]);
                            assert(d0[c]);
                            assert(c != p);
                        }
                    }
                    assert forall|w: int| 0 <= w < n && #[trigger] done@[w] implies rank[w] < round by {
                        if w != p {
                            assert(d0[w]);
                        }
                    }
                }
            },
        }
    }
}

} // verus!
