//! From a validated plan to a task graph, and queries over a plan's structure.
use vstd::prelude::*;
use crate::plan::{
    content_ref_ok, plan_valid, validation_result, Plan, PlanError, Step, OUTPUT_SUFFIX, RUN_GEMINI,
};
use crate::text::{joined, owned};

verus! {

/// Id of every graph built from a plan.
pub const DEFAULT_GRAPH_ID: &'static str = "plan_execution";

/// Where a file's content comes from.
#[derive(Clone, Debug, PartialEq, Eq)]
pub enum ContentSource {
    /// The output of the step with this id.
    From(String),
    /// This literal text.
    Literal(String),
}

/// One task of the graph, bound to one step.
#[derive(Clone, Debug, PartialEq, Eq)]
pub enum TaskNode {
    RunGemini { step_id: String, prompt: String },
    CreateFile { step_id: String, filename: String, source: ContentSource },
}

/// A task graph: one node per step, one edge `dep -> step` per declared dependency.
#[derive(Clone, Debug)]
pub struct TaskGraph {
    pub graph_id: String,
    pub tasks: Vec<TaskNode>,
    pub edges: Vec<(String, String)>,
    pub start_task_id: String,
}

/// The node built for a step of a valid plan.
pub open spec fn node_matches(s: Step, t: TaskNode) -> bool {
    match t {
        TaskNode::RunGemini { step_id, prompt } => s.task@ == RUN_GEMINI@ && step_id@ == s.id@
            && s.params.prompt == Some(prompt),
        TaskNode::CreateFile { step_id, filename, source } => s.task@ != RUN_GEMINI@ && step_id@
            == s.id@ && s.params.filename == Some(filename) && match source {
            ContentSource::From(dep) => exists|k: int|
                0 <= k < s.dependencies.len() && (#[trigger] s.dependencies@[k])@ == dep@
                    && s.params.content_from is Some && s.params.content_from->0@ == dep@
                    + OUTPUT_SUFFIX@,
            ContentSource::Literal(text) => s.params.content_from is None && s.params.content
                == Some(text),
        },
    }
}

/// The edges of the steps, in plan order and then dependency order, as `(dep, step)` ids.
pub open spec fn edges_of(steps: Seq<Step>) -> Seq<(Seq<char>, Seq<char>)>
    decreases steps.len(),
{
    if steps.len() == 0 {
        Seq::empty()
    } else {
        edges_of(steps.drop_last()) + steps.last().dependencies@.map_values(
            |d: String| (d@, steps.last().id@),
        )
    }
}

pub open spec fn pair_view(e: (String, String)) -> (Seq<char>, Seq<char>) {
    (e.0@, e.1@)
}

/// Index of the first step without dependencies.
pub open spec fn is_first_independent(plan: Plan, i: int) -> bool {
    &&& 0 <= i < plan.steps.len()
    &&& plan.steps@[i].dependencies.len() == 0
    &&& forall|j: int| 0 <= j < i ==> (#[trigger] plan.steps@[j]).dependencies.len() > 0
}

/// The step whose output `content_from` names, among the step's dependencies.
fn content_dependency(s: &Step) -> (r: Option<usize>)
    ensures
        match r {
            Some(k) => k < s.dependencies.len() && s.params.content_from is Some
                && s.params.content_from->0@ == s.dependencies@[k as int]@ + OUTPUT_SUFFIX@,
            None => s.params.content_from is None || !content_ref_ok(*s),
        },
{
    match &s.params.content_from {
        None => None,
        Some(cf) => {
            let mut k: usize = 0;
            while k < s.dependencies.len()
                invariant
                    k <= s.dependencies.len(),
                    s.params.content_from == Some(*cf),
                    forall|m: int|
                        0 <= m < k ==> cf@ != (#[trigger] s.dependencies@[m])@ + OUTPUT_SUFFIX@,
                decreases s.dependencies.len() - k,
            {
                if joined(s.dependencies[k].as_str(), OUTPUT_SUFFIX) == *cf {
                    return Some(k);
                }
                k = k + 1;
            }
            None
        },
    }
}

/// Builds the node of one step of a valid plan.
fn build_node(s: &Step) -> (r: TaskNode)
    requires
        crate::plan::known_task(s.task@),
        crate::plan::params_ok(*s),
        content_ref_ok(*s),
    ensures
        node_matches(*s, r),
{
    if s.task == owned(RUN_GEMINI) {
        let prompt = match &s.params.prompt {
            Some(p) => p.clone(),
            None => owned(""),
        };
        TaskNode::RunGemini { step_id: s.id.clone(), prompt }
    } else {
        let filename = match &s.params.filename {
            Some(f) => f.clone(),
            None => owned(""),
        };
        let source = match content_dependency(s) {
            Some(k) => ContentSource::From(s.dependencies[k].clone()),
            None => {
                let text = match &s.params.content {
                    Some(t) => t.clone(),
                    None => owned(""),
                };
                ContentSource::Literal(text)
            },
        };
        TaskNode::CreateFile { step_id: s.id.clone(), filename, source }
    }
}

/// Ids of all steps, in order.
pub fn extract_task_ids(plan: &Plan) -> (r: Vec<String>)
    ensures
        r@.map_values(|s: String| s@) == plan.steps@.map_values(|s: Step| s.id@),
{
    let mut r: Vec<String> = Vec::new();
    let mut i: usize = 0;
    while i < plan.steps.len()
        invariant
            i <= plan.steps.len(),
            r@.map_values(|s: String| s@) == plan.steps@.subrange(0, i as int).map_values(
                |s: Step| s.id@,
            ),
        decreases plan.steps.len() - i,
    {
        let ghost old_r = r@;
        r.push(plan.steps[i].id.clone());
        proof {
            assert(r@ == old_r.push(plan.steps@[i as int].id));
            assert(r@.map_values(|s: String| s@) =~= old_r.map_values(|s: String| s@).push(plan.steps@[i as int].id@));
            assert(plan.steps@.subrange(0, i + 1).map_values(|s: Step| s.id@) =~= plan.steps@.subrange(0, i as int).map_values(
                |s: Step| s.id@).push(plan.steps@[i as int].id@));
        }
        i = i + 1;
    }
    proof {
        assert(plan.steps@.subrange(0, i as int) =~= plan.steps@);
    }
    r
}

/// Every dependency as a `(dep, step)` pair.
pub fn extract_edges(plan: &Plan) -> (r: Vec<(String, String)>)
    ensures
        r@.map_values(|e: (String, String)| pair_view(e)) == edges_of(plan.steps@),
{
    let mut r: Vec<(String, String)> = Vec::new();
    let mut i: usize = 0;
    while i < plan.steps.len()
        invariant
            i <= plan.steps.len(),
            r@.map_values(|e: (String, String)| pair_view(e)) == edges_of(
                plan.steps@.subrange(0, i as int),
            ),
        decreases plan.steps.len() - i,
    {
        let s = &plan.steps[i];
        let ghost before = r@.map_values(|e: (String, String)| pair_view(e));
        let mut k: usize = 0;
        while k < s.dependencies.len()
            invariant
                k <= s.dependencies.len(),
                r@.map_values(|e: (String, String)| pair_view(e)) == before + s.dependencies@.subrange(
                    0,
                    k as int,
                ).map_values(|d: String| (d@, s.id@)),
            decreases s.dependencies.len() - k,
        {
            let ghost old_r = r@;
            r.push((s.dependencies[k].clone(), s.id.clone()));
            proof {
                assert(r@ == old_r.push((s.dependencies@[k as int], s.id)));
                assert(r@.map_values(|e: (String, String)| pair_view(e)) =~= old_r.map_values(
                    |e: (String, String)| pair_view(e)).push((s.dependencies@[k as int]@, s.id@)));
                assert(s.dependencies@.subrange(0, k + 1).map_values(|d: String| (d@, s.id@)) =~= s.dependencies@.subrange(0, k as int).map_values(|d: String| (d@, s.id@)).push((s.dependencies@[k as int]@, s.id@)));
            }
            k = k + 1;
        }
        proof {
            assert(plan.steps@.subrange(0, i + 1).drop_last() =~= plan.steps@.subrange(0, i as int));
            assert(s.dependencies@.subrange(0, k as int) =~= s.dependencies@);
        }
        i = i + 1;
    }
    proof {
        assert(plan.steps@.subrange(0, i as int) =~= plan.steps@);
    }
    r
}

/// Index of the first step without dependencies.
fn first_independent(plan: &Plan) -> (r: Option<usize>)
    ensures
        match r {
            Some(i) => is_first_independent(*plan, i as int),
            None => forall|j: int|
                0 <= j < plan.steps.len() ==> (#[trigger] plan.steps@[j]).dependencies.len() > 0,
        },
{
    let mut i: usize = 0;
    while i < plan.steps.len()
        invariant
            i <= plan.steps.len(),
            forall|j: int| 0 <= j < i ==> (#[trigger] plan.steps@[j]).dependencies.len() > 0,
        decreases plan.steps.len() - i,
    {
        if plan.steps[i].dependencies.len() == 0 {
            return Some(i);
        }
        i = i + 1;
    }
    None
}

/// The first step without dependencies, else the first step, else nothing.
pub fn find_start_step_id(plan: &Plan) -> (r: Option<String>)
    ensures
        plan.steps.len() == 0 ==> r is None,
        plan.steps.len() > 0 ==> (r is Some && ((exists|i: int|
            is_first_independent(*plan, i) && plan.steps@[i].id@ == r->0@) || ((forall|j: int|
            0 <= j < plan.steps.len() ==> (#[trigger] plan.steps@[j]).dependencies.len() > 0)
            && r->0@ == plan.steps@[0].id@))),
{
    match first_independent(plan) {
        Some(i) => Some(plan.steps[i].id.clone()),
        None => {
            if plan.steps.len() == 0 {
                None
            } else {
                Some(plan.steps[0].id.clone())
            }
        },
    }
}

/// Ids of the steps without dependencies, in order.
pub open spec fn independent_ids(steps: Seq<Step>) -> Seq<Seq<char>>
    decreases steps.len(),
{
    if steps.len() == 0 {
        Seq::empty()
    } else if steps.last().dependencies.len() == 0 {
        independent_ids(steps.drop_last()).push(steps.last().id@)
    } else {
        independent_ids(steps.drop_last())
    }
}

/// Ids of the steps that declare a dependency on `id`, in order.
pub open spec fn dependent_ids(steps: Seq<Step>, id: Seq<char>) -> Seq<Seq<char>>
    decreases steps.len(),
{
    if steps.len() == 0 {
        Seq::empty()
    } else if declares(steps.last(), id) {
        dependent_ids(steps.drop_last(), id).push(steps.last().id@)
    } else {
        dependent_ids(steps.drop_last(), id)
    }
}

/// Ids of the steps without dependencies, in order.
pub fn find_independent_steps(plan: &Plan) -> (r: Vec<String>)
    ensures
        r@.map_values(|s: String| s@) == independent_ids(plan.steps@),
{
    let mut r: Vec<String> = Vec::new();
    let mut i: usize = 0;
    while i < plan.steps.len()
        invariant
            i <= plan.steps.len(),
            r@.map_values(|s: String| s@) == independent_ids(plan.steps@.subrange(0, i as int)),
        decreases plan.steps.len() - i,
    {
        proof {
            let pre = plan.steps@.subrange(0, i + 1);
            assert(pre.drop_last() =~= plan.steps@.subrange(0, i as int));
        }
        if plan.steps[i].dependencies.len() == 0 {
            let ghost old_r = r@;
            r.push(plan.steps[i].id.clone());
            proof {
                assert(r@ == old_r.push(plan.steps@[i as int].id));
                assert(r@.map_values(|s: String| s@) =~= old_r.map_values(|s: String| s@).push(plan.steps@[i as int].id@));
            }
        }
        i = i + 1;
    }
    proof {
        assert(plan.steps@.subrange(0, i as int) =~= plan.steps@);
    }
    r
}

/// Whether some entry of `v` equals `x`.
fn contains_string(v: &Vec<String>, x: &String) -> (r: bool)
    ensures
        r == exists|k: int| 0 <= k < v.len() && (#[trigger] v@[k])@ == x@,
{
    let mut k: usize = 0;
    while k < v.len()
        invariant
            k <= v.len(),
            forall|m: int| 0 <= m < k ==> (#[trigger] v@[m])@ != x@,
        decreases v.len() - k,
    {
        if v[k] == *x {
            return true;
        }
        k = k + 1;
    }
    false
}

/// The step declares a dependency on `id`.
pub open spec fn declares(s: Step, id: Seq<char>) -> bool {
    exists|k: int| 0 <= k < s.dependencies.len() && (#[trigger] s.dependencies@[k])@ == id
}

/// Ids of the steps that declare a dependency on `step_id`, in order.
pub fn find_dependents(plan: &Plan, step_id: &str) -> (r: Vec<String>)
    ensures
        r@.map_values(|s: String| s@) == dependent_ids(plan.steps@, step_id@),
{
    let target = owned(step_id);
    let mut r: Vec<String> = Vec::new();
    let mut i: usize = 0;
    while i < plan.steps.len()
        invariant
            i <= plan.steps.len(),
            target@ == step_id@,
            r@.map_values(|s: String| s@) == dependent_ids(plan.steps@.subrange(0, i as int), step_id@),
        decreases plan.steps.len() - i,
    {
        proof {
            let pre = plan.steps@.subrange(0, i + 1);
            assert(pre.drop_last() =~= plan.steps@.subrange(0, i as int));
        }
        if contains_string(&plan.steps[i].dependencies, &target) {
            let ghost old_r = r@;
            r.push(plan.steps[i].id.clone());
            proof {
                assert(r@ == old_r.push(plan.steps@[i as int].id));
                assert(r@.map_values(|s: String| s@) =~= old_r.map_values(|s: String| s@).push(plan.steps@[i as int].id@));
            }
        }
        i = i + 1;
    }
    proof {
        assert(plan.steps@.subrange(0, i as int) =~= plan.steps@);
    }
    r
}

/// Number of dependencies over all steps.
pub open spec fn dependency_total(steps: Seq<Step>) -> nat
    decreases steps.len(),
{
    if steps.len() == 0 {
        0
    } else {
        dependency_total(steps.drop_last()) + steps.last().dependencies@.len()
    }
}

pub fn count_total_dependencies(plan: &Plan) -> (r: usize)
    requires
        dependency_total(plan.steps@) <= usize::MAX,
    ensures
        r == dependency_total(plan.steps@),
{
    let mut total: usize = 0;
    let mut i: usize = 0;
    while i < plan.steps.len()
        invariant
            i <= plan.steps.len(),
            dependency_total(plan.steps@) <= usize::MAX,
            total == dependency_total(plan.steps@.subrange(0, i as int)),
        decreases plan.steps.len() - i,
    {
        proof {
            let pre = plan.steps@.subrange(0, i + 1);
            assert(pre.drop_last() =~= plan.steps@.subrange(0, i as int));
            lemma_dependency_total_prefix(plan.steps@, i + 1);
        }
        total = total + plan.steps[i].dependencies.len();
        i = i + 1;
    }
    proof {
        assert(plan.steps@.subrange(0, i as int) =~= plan.steps@);
    }
    total
}

proof fn lemma_dependency_total_prefix(s: Seq<Step>, i: int)
    requires
        0 <= i <= s.len(),
    ensures
        dependency_total(s.subrange(0, i)) <= dependency_total(s),
    decreases s.len() - i,
{
    if i < s.len() {
        lemma_dependency_total_prefix(s, i + 1);
        assert(s.subrange(0, i + 1).drop_last() =~= s.subrange(0, i));
    } else {
        assert(s.subrange(0, i) =~= s);
    }
}

/// Whether the plan has at least one step.
pub fn has_steps(plan: &Plan) -> (r: bool)
    ensures
        r == (plan.steps.len() > 0),
{
    plan.steps.len() > 0
}

/// Some entry of `v` among the first `k` has this id.
pub open spec fn listed(v: Seq<String>, k: int, id: Seq<char>) -> bool {
    exists|m: int| 0 <= m < k && (#[trigger] v[m])@ == id
}

/// Some step among the first `i` declares a dependency on `id`.
pub open spec fn referenced(plan: Plan, i: int, id: Seq<char>) -> bool {
    exists|j: int| 0 <= j < i && declares(#[trigger] plan.steps@[j], id)
}

/// Every id that some dependency names, once each, in order of first mention.
pub fn get_all_referenced_step_ids(plan: &Plan) -> (r: Vec<String>)
    ensures
        forall|a: int, b: int| 0 <= a < b < r.len() ==> (#[trigger] r@[a])@ != (#[trigger] r@[b])@,
        forall|id: Seq<char>|
            #[trigger] listed(r@, r.len() as int, id) <==> referenced(*plan, plan.steps.len() as int, id),
{
    let mut r: Vec<String> = Vec::new();
    let mut i: usize = 0;
    while i < plan.steps.len()
        invariant
            i <= plan.steps.len(),
            forall|a: int, b: int| 0 <= a < b < r.len() ==> (#[trigger] r@[a])@ != (#[trigger] r@[b])@,
            forall|id: Seq<char>| #[trigger] listed(r@, r.len() as int, id) <==> referenced(*plan, i as int, id),
        decreases plan.steps.len() - i,
    {
        let s = &plan.steps[i];
        let mut k: usize = 0;
        while k < s.dependencies.len()
            invariant
                i < plan.steps.len(),
                s == plan.steps@[i as int],
                k <= s.dependencies.len(),
                forall|a: int, b: int| 0 <= a < b < r.len() ==> (#[trigger] r@[a])@ != (#[trigger] r@[b])@,
                forall|id: Seq<char>|
                    #[trigger] listed(r@, r.len() as int, id) <==> (referenced(*plan, i as int, id)
                        || listed(s.dependencies@, k as int, id)),
            decreases s.dependencies.len() - k,
        {
            let d = &s.dependencies[k];
            let ghost old_r = r@;
            if !contains_string(&r, d) {
                r.push(d.clone());
                proof {
                    assert forall|id: Seq<char>|
                        #[trigger] listed(r@, r.len() as int, id) <==> (referenced(*plan, i as int, id)
                            || listed(s.dependencies@, k + 1, id)) by {
                        if listed(r@, r.len() as int, id) {
                            let m = choose|m: int| 0 <= m < r.len() && (#[trigger] r@[m])@ == id;
                            if m < r.len() - 1 {
                                assert(old_r[m] == r@[m]);
                                assert(listed(old_r, old_r.len() as int, id));
                            }
                        }
                        if listed(s.dependencies@, k + 1, id) {
                            let m = choose|m: int| 0 <= m < k + 1 && (#[trigger] s.dependencies@[m])@ == id;
                            if m < k {
                                assert(listed(s.dependencies@, k as int, id));
                                assert(listed(old_r, old_r.len() as int, id));
                                let w = choose|w: int| 0 <= w < old_r.len() && (#[trigger] old_r[w])@ == id;
                                assert(r@[w] == old_r[w]);
                            } else {
                                assert(r@[r.len() - 1]@ == id);
                            }
                        }
                        if referenced(*plan, i as int, id) {
                            assert(listed(old_r, old_r.len() as int, id));
                            let w = choose|w: int| 0 <= w < old_r.len() && (#[trigger] old_r[w])@ == id;
                            assert(r@[w] == old_r[w]);
                        }
                    }
                }
            } else {
                proof {
                    assert forall|id: Seq<char>|
                        #[trigger] listed(r@, r.len() as int, id) <==> (referenced(*plan, i as int, id)
                            || listed(s.dependencies@, k + 1, id)) by {
                        if listed(s.dependencies@, k + 1, id) {
                            let m = choose|m: int| 0 <= m < k + 1 && (#[trigger] s.dependencies@[m])@ == id;
                            if m < k {
                                assert(listed(s.dependencies@, k as int, id));
                            } else {
                                let w = choose|w: int| 0 <= w < r.len() && (#[trigger] r@[w])@ == d@;
                                assert(listed(r@, r.len() as int, id));
                            }
                        }
                    }
                }
            }
            k = k + 1;
        }
        proof {
            assert forall|id: Seq<char>|
                #[trigger] listed(r@, r.len() as int, id) <==> referenced(*plan, i + 1, id) by {
                if listed(s.dependencies@, s.dependencies.len() as int, id) {
                    let m = choose|m: int| 0 <= m < s.dependencies.len() && (#[trigger] s.dependencies@[m])@ == id;
                    assert(declares(plan.steps@[i as int], id));
                }
                if declares(plan.steps@[i as int], id) {
                    let m = choose|m: int| 0 <= m < s.dependencies.len() && (#[trigger] s.dependencies@[m])@ == id;
                    assert(listed(s.dependencies@, s.dependencies.len() as int, id));
                }
                if referenced(*plan, i + 1, id) {
                    let j = choose|j: int| 0 <= j < i + 1 && declares(#[trigger] plan.steps@[j], id);
                    if j < i {
                        assert(referenced(*plan, i as int, id));
                    }
                }
            }
        }
        i = i + 1;
    }
    r
}

/// Validates the plan and builds its task graph: one node per step, in plan order, one edge
/// per declared dependency, and the first step without dependencies as start.
pub fn build_graph_from_plan(plan: &Plan) -> (r: Result<TaskGraph, PlanError>)
    ensures
        match r {
            Ok(g) => {
                &&& plan_valid(*plan)
                &&& g.graph_id@ == DEFAULT_GRAPH_ID@
                &&& g.tasks.len() == plan.steps.len()
                &&& forall|i: int| 0 <= i < g.tasks.len() ==> node_matches(plan.steps@[i], #[trigger] g.tasks@[i])
                &&& g.edges@.map_values(|e: (String, String)| pair_view(e)) == edges_of(plan.steps@)
                &&& exists|i: int| is_first_independent(*plan, i) && plan.steps@[i].id@ == g.start_task_id@
            },
            Err(e) => validation_result(*plan, Err(e)),
        },
{
    match plan.validate() {
        Ok(()) => {},
        Err(e) => {
            return Err(e);
        },
    }
    let mut tasks: Vec<TaskNode> = Vec::new();
    let mut i: usize = 0;
    while i < plan.steps.len()
        invariant
            i <= plan.steps.len(),
            plan_valid(*plan),
            tasks.len() == i,
            forall|j: int| 0 <= j < i ==> node_matches(plan.steps@[j], #[trigger] tasks@[j]),
        decreases plan.steps.len() - i,
    {
        proof {
            assert(crate::plan::known_task(plan.steps@[i as int].task@));
            assert(content_ref_ok(plan.steps@[i as int]));
        }
        let node = build_node(&plan.steps[i]);
        tasks.push(node);
        i = i + 1;
    }
    let edges = extract_edges(plan);
    let start = match first_independent(plan) {
        Some(i) => plan.steps[i].id.clone(),
        None => {
            proof {
                lemma_some_step_independent(plan);
            }
            owned("")
        },
    };
    Ok(TaskGraph { graph_id: owned(DEFAULT_GRAPH_ID), tasks, edges, start_task_id: start })
}

/// A valid plan has a step without dependencies.
proof fn lemma_some_step_independent(plan: &Plan)
    requires
        plan_valid(*plan),
    ensures
        exists|j: int| 0 <= j < plan.steps.len() && (#[trigger] plan.steps@[j]).dependencies.len() == 0,
{
    let rank = choose|rank: Seq<int>| crate::plan::step_rank(*plan, rank);
    let j = lemma_min_rank(*plan, rank, plan.steps.len() as int);
    if plan.steps@[j].dependencies.len() > 0 {
        let d = plan.steps@[j].dependencies@[0];
        assert(crate::plan::names_step(*plan, d@));
        let u = choose|u: int| 0 <= u < plan.steps.len() && (#[trigger] plan.steps@[u]).id@ == d@;
        assert(crate::plan::step_depends(*plan, u, j));
    }
}

/// Some index below `m` has the least rank among those below `m`.
proof fn lemma_min_rank(plan: Plan, rank: Seq<int>, m: int) -> (j: int)
    requires
        crate::plan::step_rank(plan, rank),
        0 < m <= plan.steps.len(),
    ensures
        0 <= j < m,
        forall|v: int| 0 <= v < m ==> rank[j] <= #[trigger] rank[v],
    decreases m,
{
    if m == 1 {
        0
    } else {
        let j = lemma_min_rank(plan, rank, m - 1);
        if rank[m - 1] < rank[j] {
            m - 1
        } else {
            j
        }
    }
}

} // verus!
