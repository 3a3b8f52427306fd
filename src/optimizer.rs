//! Pure estimates over a plan: tokens, wall time, and the shape of its dependency graph.
use vstd::prelude::*;
use crate::dag::{depends, graph_wf, is_chain, topo_sort};
use crate::plan::{
    acyclic, deps_resolve, ids_ok, lemma_resolved_edges, resolve_dependencies,
    step_chain, step_depends, step_rank, Plan, Step, CREATE_FILE, RUN_GEMINI,
};
use crate::text::{chars_of, owned};

verus! {

/// Steps with at least this many dependencies are reported as bottlenecks.
pub const HIGH_DEPENDENCY_COUNT: usize = 3;

/// Token estimate of one step: ⌈1.3 × prompt length⌉ + 100 for a prompt, 50 for a file,
/// 100 for any other kind.
pub open spec fn step_tokens(s: Step) -> nat {
    if s.task@ == RUN_GEMINI@ {
        match s.params.prompt {
            Some(p) => (13 * p@.len() + 9) / 10 + 100,
            None => 0,
        }
    } else if s.task@ == CREATE_FILE@ {
        50
    } else {
        100
    }
}

pub open spec fn tokens_of(steps: Seq<Step>) -> nat
    decreases steps.len(),
{
    if steps.len() == 0 {
        0
    } else {
        tokens_of(steps.drop_last()) + step_tokens(steps.last())
    }
}

/// Seconds estimated for one step: 3 for a prompt, 1 for a file, 2 for any other kind.
pub open spec fn step_seconds(s: Step) -> nat {
    if s.task@ == RUN_GEMINI@ {
        3
    } else if s.task@ == CREATE_FILE@ {
        1
    } else {
        2
    }
}

pub open spec fn seconds_of(steps: Seq<Step>) -> nat
    decreases steps.len(),
{
    if steps.len() == 0 {
        0
    } else {
        seconds_of(steps.drop_last()) + step_seconds(steps.last())
    }
}

/// Ids of the steps with at least [`HIGH_DEPENDENCY_COUNT`] dependencies, in plan order.
pub open spec fn high_dependency_ids(steps: Seq<Step>) -> Seq<Seq<char>>
    decreases steps.len(),
{
    if steps.len() == 0 {
        Seq::empty()
    } else if steps.last().dependencies.len() >= HIGH_DEPENDENCY_COUNT {
        high_dependency_ids(steps.drop_last()).push(steps.last().id@)
    } else {
        high_dependency_ids(steps.drop_last())
    }
}

/// Number of steps without dependencies.
pub open spec fn independent_count(steps: Seq<Step>) -> nat
    decreases steps.len(),
{
    if steps.len() == 0 {
        0
    } else {
        independent_count(steps.drop_last()) + if steps.last().dependencies.len() == 0 {
            1nat
        } else {
            0nat
        }
    }
}

/// The plan's ids are unique, its dependencies resolve, and they form no cycle.
pub open spec fn graph_ok(plan: Plan) -> bool {
    ids_ok(plan) && deps_resolve(plan) && acyclic(plan)
}

/// `len` is the length of the longest dependency chain (0 for an empty plan).
pub open spec fn is_longest_chain(plan: Plan, len: int) -> bool {
    &&& plan.steps.len() == 0 ==> len == 0
    &&& plan.steps.len() > 0 ==> (exists|p: Seq<int>| #[trigger] step_chain(plan, p) && p.len() == len)
    &&& forall|p: Seq<int>| #[trigger] step_chain(plan, p) ==> p.len() <= len
}

/// Bottleneck analysis of a plan.
#[derive(Clone, Debug)]
pub struct BottleneckAnalysis {
    /// Steps that have many dependencies.
    pub high_dependency_steps: Vec<String>,
    /// Longest sequential chain length.
    pub longest_chain_length: usize,
    /// Number of steps that depend on nothing.
    pub independent_steps: usize,
}

/// Number of characters of `s`.
fn char_count(s: &String) -> (r: usize)
    ensures
        r == s@.len(),
{
    chars_of(s.as_str()).len()
}

proof fn lemma_tokens_append(a: Seq<Step>, b: Seq<Step>)
    ensures
        tokens_of(a + b) == tokens_of(a) + tokens_of(b),
    decreases b.len(),
{
    if b.len() > 0 {
        assert((a + b).drop_last() =~= a + b.drop_last());
        lemma_tokens_append(a, b.drop_last());
    }
}

/// Adding steps to a plan never lowers its token estimate: the estimate grows with the
/// step count when the kinds of the steps are fixed.
pub proof fn lemma_tokens_monotonic(a: Seq<Step>, b: Seq<Step>)
    ensures
        tokens_of(a) <= tokens_of(a + b),
        tokens_of(a + b) == tokens_of(a) + tokens_of(b),
{
    lemma_tokens_append(a, b);
}

proof fn lemma_tokens_floor(b: Seq<Step>)
    requires
        forall|i: int| 0 <= i < b.len() && (#[trigger] b[i]).task@ == RUN_GEMINI@ ==> b[i].params.prompt is Some,
    ensures
        tokens_of(b) >= 50 * b.len(),
    decreases b.len(),
{
    if b.len() > 0 {
        assert forall|i: int| 0 <= i < b.len() - 1 && (#[trigger] b.drop_last()[i]).task@ == RUN_GEMINI@ implies b.drop_last()[i].params.prompt is Some by {
            assert(b.drop_last()[i] == b[i]);
        }
        lemma_tokens_floor(b.drop_last());
        assert(b.last() == b[b.len() - 1]);
    }
}

/// Each added step raises the estimate by at least 50 tokens, when every added prompt step
/// has a prompt.
pub proof fn lemma_tokens_per_added_step(a: Seq<Step>, b: Seq<Step>)
    requires
        forall|i: int| 0 <= i < b.len() && (#[trigger] b[i]).task@ == RUN_GEMINI@ ==> b[i].params.prompt is Some,
    ensures
        tokens_of(a + b) >= tokens_of(a) + 50 * b.len(),
{
    lemma_tokens_append(a, b);
    lemma_tokens_floor(b);
}

/// In a plan that meets the graph rules, the longest chain has at least one and at most
/// as many steps as the plan.
pub proof fn lemma_longest_chain_bounds(plan: Plan, len: int)
    requires
        graph_ok(plan),
        plan.steps.len() > 0,
        is_longest_chain(plan, len),
    ensures
        1 <= len <= plan.steps.len(),
{
    let p = choose|p: Seq<int>| #[trigger] step_chain(plan, p) && p.len() == len;
    let rank = choose|rank: Seq<int>| step_rank(plan, rank);
    assert forall|i: int| 0 <= i < p.len() implies #[trigger] rank[p[i]] >= i by {
        lemma_step_chain_climbs(plan, p, rank, i);
    }
    assert(rank[p[p.len() - 1]] >= p.len() - 1);
}

proof fn lemma_step_chain_climbs(plan: Plan, p: Seq<int>, rank: Seq<int>, i: int)
    requires
        step_chain(plan, p),
        step_rank(plan, rank),
        0 <= i < p.len(),
    ensures
        rank[p[i]] >= i,
    decreases i,
{
    if i > 0 {
        lemma_step_chain_climbs(plan, p, rank, i - 1);
        assert(step_depends(plan, p[i - 1], p[(i - 1) + 1]));
    }
}

/// Token estimate of one step.
fn step_token_estimate(s: &Step) -> (r: usize)
    requires
        step_tokens(*s) <= usize::MAX,
    ensures
        r == step_tokens(*s),
{
    if s.task == owned(RUN_GEMINI) {
        match &s.params.prompt {
            Some(p) => {
                let n = char_count(p);
                let q = n / 10;
                let m = n % 10;
                proof {
                    assert((13 * n + 9) / 10 == n + 3 * q + (3 * m + 9) / 10) by (nonlinear_arith)
                        requires
                            q == n / 10,
                            m == n % 10,
                    ;
                }
                n + 3 * q + (3 * m + 9) / 10 + 100
            },
            None => 0,
        }
    } else if s.task == owned(CREATE_FILE) {
        50
    } else {
        100
    }
}

/// Estimated tokens for the whole plan.
pub fn estimate_token_usage(plan: &Plan) -> (r: usize)
    requires
        tokens_of(plan.steps@) <= usize::MAX,
    ensures
        r == tokens_of(plan.steps@),
{
    let mut total: usize = 0;
    let mut i: usize = 0;
    while i < plan.steps.len()
        invariant
            i <= plan.steps.len(),
            tokens_of(plan.steps@) <= usize::MAX,
            total == tokens_of(plan.steps@.subrange(0, i as int)),
        decreases plan.steps.len() - i,
    {
        proof {
            let pre = plan.steps@.subrange(0, i + 1);
            assert(pre.drop_last() =~= plan.steps@.subrange(0, i as int));
            lemma_tokens_append(pre, plan.steps@.subrange(i + 1, plan.steps.len() as int));
            assert(pre + plan.steps@.subrange(i + 1, plan.steps.len() as int) =~= plan.steps@);
        }
        let t = step_token_estimate(&plan.steps[i]);
        total = total + t;
        i = i + 1;
    }
    proof {
        assert(plan.steps@.subrange(0, i as int) =~= plan.steps@);
    }
    total
}

/// Estimated seconds for the whole plan, ignoring parallelism.
pub fn estimate_execution_time(plan: &Plan) -> (r: usize)
    requires
        plan.steps.len() <= usize::MAX / 3,
    ensures
        r == seconds_of(plan.steps@),
{
    let mut total: usize = 0;
    let mut i: usize = 0;
    while i < plan.steps.len()
        invariant
            i <= plan.steps.len(),
            plan.steps.len() <= usize::MAX / 3,
            total == seconds_of(plan.steps@.subrange(0, i as int)),
            total <= 3 * i,
        decreases plan.steps.len() - i,
    {
        proof {
            assert(plan.steps@.subrange(0, i + 1).drop_last() =~= plan.steps@.subrange(0, i as int));
        }
        let s = &plan.steps[i];
        if s.task == owned(RUN_GEMINI) {
            total = total + 3;
        } else if s.task == owned(CREATE_FILE) {
            total = total + 1;
        } else {
            total = total + 2;
        }
        i = i + 1;
    }
    proof {
        assert(plan.steps@.subrange(0, i as int) =~= plan.steps@);
    }
    total
}

/// Length of the longest chain of an index graph, computed along a topological order.
fn longest_chain(g: &Vec<Vec<usize>>, order: &Vec<usize>, pos: &Vec<usize>) -> (r: usize)
    requires
        graph_wf(g@),
        order.len() == g.len(),
        pos.len() == g.len(),
        forall|i: int| 0 <= i < order.len() ==> (#[trigger] order@[i] as int) < g.len()
            && pos@[order@[i] as int] == i,
        forall|v: int| 0 <= v < g.len() ==> (#[trigger] pos@[v] as int) < g.len()
            && order@[pos@[v] as int] == v,
        forall|u: int, v: int| #[trigger] depends(g@, u, v) ==> pos@[u] < pos@[v],
    ensures
        g.len() == 0 ==> r == 0,
        g.len() > 0 ==> exists|p: Seq<int>| #[trigger] is_chain(g@, p) && p.len() == r,
        forall|p: Seq<int>| #[trigger] is_chain(g@, p) ==> p.len() <= r,
{
    let n = g.len();
    let mut depth: Vec<usize> = Vec::new();
    let mut i: usize = 0;
    while i < n
        invariant
            i <= n,
            depth.len() == i,
        decreases n - i,
    {
        depth.push(0);
        i = i + 1;
    }
    let ghost mut wit: Seq<Seq<int>> = Seq::new(n as nat, |i: int| Seq::<int>::empty());
    let mut t: usize = 0;
    while t < n
        invariant
            n == g.len(),
            graph_wf(g@),
            order.len() == n,
            pos.len() == n,
            depth.len() == n,
            wit.len() == n,
            t <= n,
            forall|i: int| 0 <= i < order.len() ==> (#[trigger] order@[i] as int) < g.len()
                && pos@[order@[i] as int] == i,
            forall|v: int| 0 <= v < g.len() ==> (#[trigger] pos@[v] as int) < g.len()
                && order@[pos@[v] as int] == v,
            forall|u: int, v: int| #[trigger] depends(g@, u, v) ==> pos@[u] < pos@[v],
            forall|v: int|
                0 <= v < n && (#[trigger] pos@[v] as int) < t ==> 1 <= depth@[v] <= pos@[v] + 1
                    && is_chain(g@, wit[v]) && wit[v].last() == v && wit[v].len() == depth@[v],
            forall|p: Seq<int>|
                #[trigger] is_chain(g@, p) && (pos@[p.last()] as int) < t ==> p.len() <= depth@[p.last()],
        decreases n - t,
    {
        let v = order[t];
        let deps = &g[v];
        let mut best: usize = 0;
        let ghost mut best_wit: Seq<int> = Seq::empty();
        let mut k: usize = 0;
        while k < deps.len()
            invariant
                n == g.len(),
                graph_wf(g@),
                pos.len() == n,
                depth.len() == n,
                wit.len() == n,
                v < n,
                pos@[v as int] == t,
                deps == g@[v as int],
                k <= deps.len(),
                forall|u: int, v: int| #[trigger] depends(g@, u, v) ==> pos@[u] < pos@[v],
                forall|w: int|
                    0 <= w < n && (#[trigger] pos@[w] as int) < t ==> 1 <= depth@[w] <= pos@[w] + 1
                        && is_chain(g@, wit[w]) && wit[w].last() == w && wit[w].len() == depth@[w],
                best <= t,
                forall|j: int| 0 <= j < k ==> depth@[#[trigger] deps@[j] as int] <= best,
                best == 0 ==> best_wit.len() == 0,
                best > 0 ==> is_chain(g@, best_wit) && best_wit.len() == best && depends(
                    g@,
                    best_wit.last(),
                    v as int,
                ),
            decreases deps.len() - k,
        {
            let u = deps[k];
            proof {
                assert(depends(g@, u as int, v as int));
            }
            if depth[u] > best {
                best = depth[u];
                proof {
                    best_wit = wit[u as int];
                }
            }
            k = k + 1;
        }
        depth.set(v, best + 1);
        proof {
            let nw = best_wit.push(v as int);
            if best > 0 {
                assert forall|i: int| 0 <= i < nw.len() - 1 implies #[trigger] depends(g@, nw[i], nw[i + 1]) by {
                    if i < nw.len() - 2 {
                        assert(nw[i] == best_wit[i] && nw[i + 1] == best_wit[i + 1]);
                        assert(depends(g@, best_wit[i], best_wit[i + 1]));
                    }
                }
            }
            assert(is_chain(g@, nw));
            wit = wit.update(v as int, nw);
            assert forall|p: Seq<int>|
                #[trigger] is_chain(g@, p) && (pos@[p.last()] as int) < t + 1 implies p.len() <= depth@[p.last()] by {
                if p.last() == v as int && p.len() > 1 {
                    let q = p.drop_last();
                    assert(depends(g@, p[p.len() - 2], p[(p.len() - 2) + 1]));
                    assert(is_chain(g@, q));
                    let kk = choose|kk: int| 0 <= kk < g@[v as int].len() && #[trigger] g@[v as int]@[kk] as int == p[p.len() - 2];
                    assert(depth@[deps@[kk] as int] <= best);
                }
            }
        }
        t = t + 1;
    }
    let mut best: usize = 0;
    let mut v: usize = 0;
    let ghost mut arg: int = 0;
    while v < n
        invariant
            n == g.len(),
            graph_wf(g@),
            pos.len() == n,
            depth.len() == n,
            wit.len() == n,
            v <= n,
            forall|w: int| 0 <= w < n ==> (#[trigger] pos@[w] as int) < n,
            forall|w: int|
                0 <= w < n && (#[trigger] pos@[w] as int) < n ==> 1 <= depth@[w] && is_chain(g@, wit[w])
                    && wit[w].len() == depth@[w],
            forall|w: int| 0 <= w < v ==> #[trigger] depth@[w] <= best,
            v > 0 ==> 0 <= arg < n && depth@[arg] == best,
            v == 0 ==> best == 0,
        decreases n - v,
    {
        if depth[v] > best || v == 0 {
            best = depth[v];
            proof {
                arg = v as int;
            }
        }
        v = v + 1;
    }
    proof {
        if n > 0 {
            assert(pos@[arg] < n);
            assert(is_chain(g@, wit[arg]));
        }
        assert forall|p: Seq<int>| #[trigger] is_chain(g@, p) implies p.len() <= best by {
            assert(depth@[p.last()] <= best);
        }
    }
    best
}

/// Steps with many dependencies, independent steps, and the longest dependency chain.
#[verifier::rlimit(40)]
pub fn analyze_bottlenecks(plan: &Plan) -> (r: BottleneckAnalysis)
    requires
        graph_ok(*plan),
    ensures
        r.high_dependency_steps@.map_values(|s: String| s@) == high_dependency_ids(plan.steps@),
        r.independent_steps == independent_count(plan.steps@),
        is_longest_chain(*plan, r.longest_chain_length as int),
{
    let mut high: Vec<String> = Vec::new();
    let mut independent: usize = 0;
    let mut i: usize = 0;
    while i < plan.steps.len()
        invariant
            i <= plan.steps.len(),
            independent <= i,
            high@.map_values(|s: String| s@) == high_dependency_ids(plan.steps@.subrange(0, i as int)),
            independent == independent_count(plan.steps@.subrange(0, i as int)),
        decreases plan.steps.len() - i,
    {
        proof {
            assert(plan.steps@.subrange(0, i + 1).drop_last() =~= plan.steps@.subrange(0, i as int));
        }
        let s = &plan.steps[i];
        if s.dependencies.len() >= HIGH_DEPENDENCY_COUNT {
            high.push(s.id.clone());
            proof {
                assert(high@.map_values(|s: String| s@) =~= high_dependency_ids(plan.steps@.subrange(0, i as int)).push(s.id@));
            }
        }
        if s.dependencies.len() == 0 {
            independent = independent + 1;
        }
        i = i + 1;
    }
    proof {
        assert(plan.steps@.subrange(0, i as int) =~= plan.steps@);
    }
    let g = match resolve_dependencies(plan) {
        Ok(g) => g,
        Err(_) => {
            return BottleneckAnalysis { high_dependency_steps: high, longest_chain_length: 0, independent_steps: independent };
        },
    };
    proof {
        lemma_resolved_edges(*plan, g@);
    }
    let longest = match topo_sort(&g) {
        Ok((order, pos)) => {
            proof {
                assert forall|u: int, v: int| #[trigger] depends(g@, u, v) implies pos@[u] < pos@[v] by {
                    let rank = pos@.map_values(|x: usize| x as int);
                    assert(rank[u] < rank[v]);
                }
            }
            longest_chain(&g, &order, &pos)
        },
        Err(c) => {
            proof {
                crate::plan::lemma_step_cycle_not_acyclic(*plan, g@, c@.map_values(|x: usize| x as int));
            }
            0
        },
    };
    proof {
        assert forall|p: Seq<int>| #[trigger] step_chain(*plan, p) implies p.len() <= longest by {
            assert(is_chain(g@, p));
        }
        if plan.steps.len() > 0 {
            let p = choose|p: Seq<int>| #[trigger] is_chain(g@, p) && p.len() == longest;
            assert(step_chain(*plan, p));
        }
    }
    BottleneckAnalysis { high_dependency_steps: high, longest_chain_length: longest, independent_steps: independent }
}

} // verus!
