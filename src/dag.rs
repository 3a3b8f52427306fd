//! Dependency graphs over step indices: node `v` depends on each node listed in `g[v]`.
use vstd::prelude::*;

verus! {

/// Every dependency names a node of the graph.
pub open spec fn graph_wf(g: Seq<Vec<usize>>) -> bool {
    forall|v: int, k: int|
        0 <= v < g.len() && 0 <= k < g[v].len() ==> (#[trigger] g[v]@[k] as int) < g.len()
}

/// `v` depends on `u`: an edge `u -> v`.
pub open spec fn depends(g: Seq<Vec<usize>>, u: int, v: int) -> bool {
    0 <= u < g.len() && 0 <= v < g.len() && exists|k: int|
        0 <= k < g[v].len() && #[trigger] g[v]@[k] as int == u
}

/// A numbering of the nodes below their count in which every edge climbs.
pub open spec fn is_rank(g: Seq<Vec<usize>>, rank: Seq<int>) -> bool {
    &&& rank.len() == g.len()
    &&& forall|v: int| 0 <= v < g.len() ==> 0 <= #[trigger] rank[v] < g.len()
    &&& forall|u: int, v: int| #[trigger] depends(g, u, v) ==> rank[u] < rank[v]
}

/// `c[i]` depends on `c[i + 1]`, and the last depends on the first.
pub open spec fn is_cycle(g: Seq<Vec<usize>>, c: Seq<int>) -> bool {
    &&& c.len() > 0
    &&& forall|i: int| 0 <= i < c.len() ==> 0 <= #[trigger] c[i] < g.len()
    &&& forall|i: int| 0 <= i < c.len() - 1 ==> #[trigger] depends(g, c[i + 1], c[i])
    &&& depends(g, c[0], c[c.len() - 1])
}

/// A path along edges: `p[i + 1]` depends on `p[i]`.
pub open spec fn is_chain(g: Seq<Vec<usize>>, p: Seq<int>) -> bool {
    &&& p.len() > 0
    &&& forall|i: int| 0 <= i < p.len() ==> 0 <= #[trigger] p[i] < g.len()
    &&& forall|i: int| 0 <= i < p.len() - 1 ==> #[trigger] depends(g, p[i], p[i + 1])
}

/// Number of `false` entries.
pub open spec fn count_false(s: Seq<bool>) -> nat
    decreases s.len(),
{
    if s.len() == 0 {
        0
    } else {
        count_false(s.drop_last()) + if s.last() {
            0nat
        } else {
            1nat
        }
    }
}

proof fn lemma_count_false_bound(s: Seq<bool>)
    ensures
        count_false(s) <= s.len(),
        count_false(s) == 0 <==> forall|i: int| 0 <= i < s.len() ==> #[trigger] s[i],
    decreases s.len(),
{
    if s.len() > 0 {
        let t = s.drop_last();
        lemma_count_false_bound(t);
        assert forall|i: int| 0 <= i < s.len() - 1 implies s[i] == #[trigger] t[i] by {}
        if count_false(s) == 0 {
            assert forall|i: int| 0 <= i < s.len() implies #[trigger] s[i] by {
                if i < s.len() - 1 {
                    assert(t[i]);
                }
            }
        }
        if forall|i: int| 0 <= i < s.len() ==> #[trigger] s[i] {
            assert(s[s.len() - 1]);
            assert forall|i: int| 0 <= i < t.len() implies #[trigger] t[i] by {
                assert(s[i]);
            }
        }
    }
}

proof fn lemma_count_false_set(s: Seq<bool>, v: int)
    requires
        0 <= v < s.len(),
        !s[v],
    ensures
        count_false(s.update(v, true)) + 1 == count_false(s),
    decreases s.len(),
{
    let t = s.update(v, true);
    if v == s.len() - 1 {
        assert(t.drop_last() =~= s.drop_last());
    } else {
        assert(t.drop_last() =~= s.drop_last().update(v, true));
        lemma_count_false_set(s.drop_last(), v);
    }
}

proof fn lemma_count_false_all(n: nat)
    ensures
        count_false(Seq::new(n, |i: int| false)) == n,
    decreases n,
{
    if n > 0 {
        assert(Seq::new(n, |i: int| false).drop_last() =~= Seq::new((n - 1) as nat, |i: int| false));
        lemma_count_false_all((n - 1) as nat);
    }
}

/// A graph with a cycle has no rank.
pub proof fn lemma_cycle_has_no_rank(g: Seq<Vec<usize>>, c: Seq<int>, rank: Seq<int>)
    requires
        is_cycle(g, c),
    ensures
        !is_rank(g, rank),
{
    if is_rank(g, rank) {
        assert forall|i: int| 0 <= i < c.len() implies #[trigger] rank[c[i]] <= rank[c[0]] - i by {
            lemma_cycle_descends(g, c, rank, i);
        }
        assert(depends(g, c[0], c[c.len() - 1]));
    }
}

proof fn lemma_cycle_descends(g: Seq<Vec<usize>>, c: Seq<int>, rank: Seq<int>, i: int)
    requires
        is_cycle(g, c),
        is_rank(g, rank),
        0 <= i < c.len(),
    ensures
        rank[c[i]] <= rank[c[0]] - i,
    decreases i,
{
    if i > 0 {
        lemma_cycle_descends(g, c, rank, i - 1);
        assert(depends(g, c[(i - 1) + 1], c[i - 1]));
    }
}

/// In a graph with a rank, no chain is longer than the number of nodes.
pub proof fn lemma_chain_fits(g: Seq<Vec<usize>>, p: Seq<int>, rank: Seq<int>)
    requires
        is_chain(g, p),
        is_rank(g, rank),
    ensures
        p.len() <= g.len(),
{
    assert forall|i: int| 0 <= i < p.len() implies #[trigger] rank[p[i]] >= i by {
        lemma_chain_climbs(g, p, rank, i);
    }
    assert(rank[p[p.len() - 1]] >= p.len() - 1);
}

proof fn lemma_chain_climbs(g: Seq<Vec<usize>>, p: Seq<int>, rank: Seq<int>, i: int)
    requires
        is_chain(g, p),
        is_rank(g, rank),
        0 <= i < p.len(),
    ensures
        rank[p[i]] >= i,
    decreases i,
{
    if i > 0 {
        lemma_chain_climbs(g, p, rank, i - 1);
        assert(depends(g, p[i - 1], p[(i - 1) + 1]));
    }
}

/// Whether every node of `deps` is marked in `placed`.
fn all_placed(deps: &Vec<usize>, placed: &Vec<bool>) -> (r: bool)
    requires
        forall|k: int| 0 <= k < deps.len() ==> (#[trigger] deps@[k] as int) < placed.len(),
    ensures
        r == forall|k: int| 0 <= k < deps.len() ==> placed@[#[trigger] deps@[k] as int],
{
    let mut k: usize = 0;
    while k < deps.len()
        invariant
            k <= deps.len(),
            forall|k: int| 0 <= k < deps.len() ==> (#[trigger] deps@[k] as int) < placed.len(),
            forall|j: int| 0 <= j < k ==> placed@[#[trigger] deps@[j] as int],
        decreases deps.len() - k,
    {
        if !placed[deps[k]] {
            return false;
        }
        k = k + 1;
    }
    true
}

/// Orders the nodes so that each comes after all it depends on, or finds a cycle.
///
/// On success the result holds the order and each node's position in it.
pub fn topo_sort(g: &Vec<Vec<usize>>) -> (r: Result<(Vec<usize>, Vec<usize>), Vec<usize>>)
    requires
        graph_wf(g@),
    ensures
        match r {
            Ok((order, pos)) => {
                &&& order.len() == g.len()
                &&& pos.len() == g.len()
                &&& forall|i: int| 0 <= i < order.len() ==> (#[trigger] order@[i] as int) < g.len()
                    && pos@[order@[i] as int] == i
                &&& forall|v: int| 0 <= v < g.len() ==> (#[trigger] pos@[v] as int) < g.len()
                    && order@[pos@[v] as int] == v
                &&& is_rank(g@, pos@.map_values(|x: usize| x as int))
            },
            Err(c) => is_cycle(g@, c@.map_values(|x: usize| x as int)),
        },
{
    let n = g.len();
    let mut placed: Vec<bool> = Vec::new();
    let mut pos: Vec<usize> = Vec::new();
    let mut i: usize = 0;
    while i < n
        invariant
            i <= n,
            placed.len() == i,
            pos.len() == i,
            forall|j: int| 0 <= j < i ==> !#[trigger] placed@[j],
        decreases n - i,
    {
        placed.push(false);
        pos.push(0);
        i = i + 1;
    }
    proof {
        assert(placed@ =~= Seq::new(n as nat, |i: int| false));
        lemma_count_false_all(n as nat);
    }
    let mut order: Vec<usize> = Vec::new();
    loop
        invariant
            n == g.len(),
            graph_wf(g@),
            placed.len() == n,
            pos.len() == n,
            order.len() <= n,
            count_false(placed@) + order.len() == n,
            forall|i: int| 0 <= i < order.len() ==> (#[trigger] order@[i] as int) < n
                && placed@[order@[i] as int] && pos@[order@[i] as int] == i,
            forall|v: int| 0 <= v < n && #[trigger] placed@[v] ==> (pos@[v] as int) < order.len()
                && order@[pos@[v] as int] == v,
            forall|v: int, k: int|
                0 <= v < n && placed@[v] && 0 <= k < g@[v].len() ==> placed@[#[trigger] g@[v]@[k] as int]
                    && pos@[g@[v]@[k] as int] < pos@[v],
        decreases n - order.len(),
    {
        let mut ready: Option<usize> = None;
        let mut open: Option<usize> = None;
        let mut v: usize = 0;
        while v < n
            invariant
                n == g.len(),
                graph_wf(g@),
                placed.len() == n,
                v <= n,
                match ready {
                    Some(w) => w < n && !placed@[w as int] && forall|k: int|
                        0 <= k < g@[w as int].len() ==> placed@[#[trigger] g@[w as int]@[k] as int],
                    None => forall|u: int| 0 <= u < v && !#[trigger] placed@[u] ==> exists|k: int|
                        0 <= k < g@[u].len() && !placed@[#[trigger] g@[u]@[k] as int],
                },
                match open {
                    Some(w) => w < n && !placed@[w as int],
                    None => forall|u: int| 0 <= u < v ==> #[trigger] placed@[u],
                },
            decreases n - v,
        {
            if !placed[v] {
                if open.is_none() {
                    open = Some(v);
                }
                if ready.is_none() && all_placed(&g[v], &placed) {
                    ready = Some(v);
                }
            }
            v = v + 1;
        }
        match ready {
            Some(w) => {
                proof {
                    lemma_count_false_bound(placed@);
                    lemma_count_false_set(placed@, w as int);
                }
                let ghost old_placed = placed@;
                let t = order.len();
                placed.set(w, true);
                pos.set(w, t);
                order.push(w);
                proof {
                    assert forall|v: int, k: int|
                        0 <= v < n && placed@[v] && 0 <= k < g@[v].len() implies placed@[#[trigger] g@[v]@[k] as int]
                            && pos@[g@[v]@[k] as int] < pos@[v] by {
                        if v != w {
                            assert(old_placed[v]);
                        } else {
                            assert(old_placed[g@[v]@[k] as int]);
                        }
                    }
                }
            },
            None => {
                match open {
                    None => {
                        proof {
                            lemma_count_false_bound(placed@);
                        }
                        let ghost rank = pos@.map_values(|x: usize| x as int);
                        proof {
                            assert forall|u: int, v: int| #[trigger] depends(g@, u, v) implies rank[u] < rank[v] by {
                                let k = choose|k: int| 0 <= k < g@[v].len() && #[trigger] g@[v]@[k] as int == u;
                                assert(placed@[v]);
                            }
                            assert forall|v: int| 0 <= v < n implies 0 <= #[trigger] rank[v] < n by {
                                assert(placed@[v]);
                            }
                            assert forall|v: int| 0 <= v < n implies (#[trigger] pos@[v] as int) < n
                                && order@[pos@[v] as int] == v by {
                                assert(placed@[v]);
                            }
                        }
                        return Ok((order, pos));
                    },
                    Some(w) => {
                        return Err(find_cycle(g, &placed, w));
                    },
                }
            },
        }
    }
}

/// A dependency of `cur` that is not placed.
fn open_dependency(g: &Vec<Vec<usize>>, placed: &Vec<bool>, cur: usize) -> (next: usize)
    requires
        graph_wf(g@),
        placed.len() == g.len(),
        cur < g.len(),
        exists|k: int| 0 <= k < g@[cur as int].len() && !placed@[#[trigger] g@[cur as int]@[k] as int],
    ensures
        next < g.len(),
        !placed@[next as int],
        depends(g@, next as int, cur as int),
{
    let deps = &g[cur];
    let mut k: usize = 0;
    while k < deps.len()
        invariant
            graph_wf(g@),
            placed.len() == g.len(),
            cur < g.len(),
            deps == g@[cur as int],
            k <= deps.len(),
            forall|j: int| 0 <= j < k ==> placed@[#[trigger] deps@[j] as int],
        decreases deps.len() - k,
    {
        if !placed[deps[k]] {
            assert(deps@[k as int] == g@[cur as int]@[k as int]);
            return deps[k];
        }
        k = k + 1;
    }
    proof {
        let k = choose|k: int| 0 <= k < g@[cur as int].len() && !placed@[#[trigger] g@[cur as int]@[k] as int];
        assert(deps@[k] == g@[cur as int]@[k]);
    }
    0
}

/// The entries of `path` from position `j` on.
fn suffix_from(path: &Vec<usize>, j: usize) -> (c: Vec<usize>)
    requires
        j <= path.len(),
    ensures
        c@ == path@.subrange(j as int, path.len() as int),
{
    let mut c: Vec<usize> = Vec::new();
    let mut m: usize = j;
    while m < path.len()
        invariant
            j <= m <= path.len(),
            c@ =~= path@.subrange(j as int, m as int),
        decreases path.len() - m,
    {
        c.push(path[m]);
        m = m + 1;
    }
    c
}

/// Follows unplaced dependencies from `start` until a node repeats.
#[verifier::rlimit(40)]
fn find_cycle(g: &Vec<Vec<usize>>, placed: &Vec<bool>, start: usize) -> (c: Vec<usize>)
    requires
        graph_wf(g@),
        placed.len() == g.len(),
        start < g.len(),
        !placed@[start as int],
        forall|u: int| 0 <= u < g.len() && !#[trigger] placed@[u] ==> exists|k: int|
            0 <= k < g@[u].len() && !placed@[#[trigger] g@[u]@[k] as int],
    ensures
        is_cycle(g@, c@.map_values(|x: usize| x as int)),
{
    let n = g.len();
    let mut on_path: Vec<bool> = Vec::new();
    let mut at: Vec<usize> = Vec::new();
    let mut i: usize = 0;
    while i < n
        invariant
            i <= n,
            on_path.len() == i,
            at.len() == i,
            forall|j: int| 0 <= j < i ==> !#[trigger] on_path@[j],
        decreases n - i,
    {
        on_path.push(false);
        at.push(0);
        i = i + 1;
    }
    proof {
        assert(on_path@ =~= Seq::new(n as nat, |i: int| false));
        lemma_count_false_all(n as nat);
        lemma_count_false_set(on_path@, start as int);
    }
    on_path.set(start, true);
    at.set(start, 0);
    let mut path: Vec<usize> = Vec::new();
    path.push(start);
    loop
        invariant
            n == g.len(),
            graph_wf(g@),
            placed.len() == n,
            forall|u: int| 0 <= u < n && !#[trigger] placed@[u] ==> exists|k: int|
                0 <= k < g@[u].len() && !placed@[#[trigger] g@[u]@[k] as int],
            on_path.len() == n,
            at.len() == n,
            1 <= path.len() <= n,
            count_false(on_path@) + path.len() == n,
            forall|i: int| 0 <= i < path.len() ==> (#[trigger] path@[i] as int) < n
                && !placed@[path@[i] as int] && on_path@[path@[i] as int] && at@[path@[i] as int] == i,
            forall|v: int| 0 <= v < n && #[trigger] on_path@[v] ==> (at@[v] as int) < path.len()
                && path@[at@[v] as int] == v,
            forall|i: int| 0 <= i < path.len() - 1 ==> #[trigger] depends(g@, path@[i + 1] as int, path@[i] as int),
        decreases n - path.len(),
    {
        let cur = path[path.len() - 1];
        proof {
            assert(!placed@[path@[path.len() - 1] as int]);
        }
        let next = open_dependency(g, placed, cur);
        if on_path[next] {
            let j = at[next];
            let c = suffix_from(&path, j);
            proof {
                let cs = c@.map_values(|x: usize| x as int);
                assert forall|i: int| 0 <= i < cs.len() - 1 implies #[trigger] depends(g@, cs[i + 1], cs[i]) by {
                    assert(depends(g@, path@[(j + i) + 1] as int, path@[j + i] as int));
                }
                assert(depends(g@, cs[0], cs[cs.len() - 1]));
            }
            return c;
        }
        proof {
            lemma_count_false_bound(on_path@);
            lemma_count_false_set(on_path@, next as int);
        }
        let t = path.len();
        on_path.set(next, true);
        at.set(next, t);
        path.push(next);
        proof {
            assert(depends(g@, path@[t as int] as int, path@[t - 1] as int));
        }
    }
}

} // verus!
