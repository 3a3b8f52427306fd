//! The plan model: steps, their parameters and dependencies, and the rules a plan must meet
//! before anything runs.
use vstd::prelude::*;
use crate::dag::{depends, graph_wf, is_cycle, is_rank, lemma_cycle_has_no_rank, topo_sort};
use crate::text::{check_filename, filename_ok, joined, owned, trimmed, trimmed_len};

verus! {

/// Task kind that sends a prompt to the language model.
pub const RUN_GEMINI: &'static str = "run_gemini";

/// Task kind that writes a file.
pub const CREATE_FILE: &'static str = "create_file";

/// Suffix of the context key under which a step stores its output.
pub const OUTPUT_SUFFIX: &'static str = ".output";

/// Longest prompt, in characters once trimmed.
pub const MAX_PROMPT_CHARS: usize = 10000;

/// Task-specific parameters of a step.
#[derive(Clone, Debug, PartialEq, Eq)]
pub struct StepParams {
    /// Prompt of a `run_gemini` step.
    pub prompt: Option<String>,
    /// Target file of a `create_file` step.
    pub filename: Option<String>,
    /// `"<step_id>.output"`: the output of another step becomes the file's content.
    pub content_from: Option<String>,
    /// Literal content of a `create_file` step.
    pub content: Option<String>,
}

impl Default for StepParams {
    fn default() -> (r: Self)
        ensures
            r.prompt is None,
            r.filename is None,
            r.content_from is None,
            r.content is None,
    {
        StepParams { prompt: None, filename: None, content_from: None, content: None }
    }
}

/// One node of a plan: one task invocation.
#[derive(Clone, Debug, PartialEq, Eq)]
pub struct Step {
    pub id: String,
    pub task: String,
    pub params: StepParams,
    pub dependencies: Vec<String>,
}

/// An ordered sequence of steps and a schema version.
#[derive(Clone, Debug, PartialEq, Eq)]
pub struct Plan {
    pub version: String,
    pub steps: Vec<Step>,
}

/// The rules of a plan, in the order in which they are checked.
#[derive(Clone, Copy, Debug, PartialEq, Eq, Structural)]
pub enum PlanRule {
    NonEmpty,
    UniqueIds,
    KnownTasks,
    DependenciesResolve,
    Acyclic,
    ContentFromDeclared,
    FilenameHygiene,
}

/// Why a plan was rejected.
#[derive(Clone, Debug, PartialEq, Eq)]
pub enum PlanError {
    /// The plan has no steps.
    EmptyPlan,
    /// A step's id is empty or used by another step too.
    InvalidStepId { step_id: String },
    /// A step's task kind is not one of the known kinds.
    UnknownTask { step_id: String, task: String },
    /// A step lacks a parameter that its task needs, or holds a malformed one.
    InvalidParams { step_id: String },
    /// A dependency names no step of the plan.
    UnknownDependency { step_id: String, dependency: String },
    /// The steps named depend on one another in a circle: each on the next, the last on the first.
    Cycle { step_ids: Vec<String> },
    /// `content_from` does not name the output of a declared dependency.
    ContentFromNotDependency { step_id: String, content_from: String },
    /// A file name escapes the working directory or holds control characters.
    InvalidFilename { step_id: String, filename: String },
}

impl PlanError {
    /// The rule that the error reports.
    pub open spec fn rule_spec(&self) -> PlanRule {
        match self {
            PlanError::EmptyPlan => PlanRule::NonEmpty,
            PlanError::InvalidStepId { .. } => PlanRule::UniqueIds,
            PlanError::UnknownTask { .. } => PlanRule::KnownTasks,
            PlanError::InvalidParams { .. } => PlanRule::KnownTasks,
            PlanError::UnknownDependency { .. } => PlanRule::DependenciesResolve,
            PlanError::Cycle { .. } => PlanRule::Acyclic,
            PlanError::ContentFromNotDependency { .. } => PlanRule::ContentFromDeclared,
            PlanError::InvalidFilename { .. } => PlanRule::FilenameHygiene,
        }
    }

    pub fn rule(&self) -> (r: PlanRule)
        ensures
            r == self.rule_spec(),
    {
        match self {
            PlanError::EmptyPlan => PlanRule::NonEmpty,
            PlanError::InvalidStepId { .. } => PlanRule::UniqueIds,
            PlanError::UnknownTask { .. } => PlanRule::KnownTasks,
            PlanError::InvalidParams { .. } => PlanRule::KnownTasks,
            PlanError::UnknownDependency { .. } => PlanRule::DependenciesResolve,
            PlanError::Cycle { .. } => PlanRule::Acyclic,
            PlanError::ContentFromNotDependency { .. } => PlanRule::ContentFromDeclared,
            PlanError::InvalidFilename { .. } => PlanRule::FilenameHygiene,
        }
    }
}

/// What each error says.
pub open spec fn plan_error_message(e: PlanError) -> Seq<char> {
    match e {
        PlanError::EmptyPlan => "Plan has no steps"@,
        PlanError::InvalidStepId { step_id } => "Step id '"@ + step_id@ + "' is empty or not unique"@,
        PlanError::UnknownTask { step_id, task } => "Unknown task type: '"@ + task@ + "' in step '"@
            + step_id@ + "'"@,
        PlanError::InvalidParams { step_id } => "Step '"@ + step_id@
            + "' has missing or invalid parameters"@,
        PlanError::UnknownDependency { step_id, dependency } => "Step '"@ + step_id@
            + "' depends on unknown step '"@ + dependency@ + "'"@,
        PlanError::Cycle { step_ids } => if step_ids.len() > 0 {
            "Circular dependency detected involving step '"@ + step_ids@[0]@ + "'"@
        } else {
            "Circular dependency detected"@
        },
        PlanError::ContentFromNotDependency { step_id, content_from } => "Step '"@ + step_id@
            + "' reads '"@ + content_from@ + "' but does not declare that step as a dependency"@,
        PlanError::InvalidFilename { step_id, filename } => "Step '"@ + step_id@
            + "' has invalid path '"@ + filename@
            + "': path traversal, absolute path or control characters"@,
    }
}

impl PlanError {
    /// The error as text for users.
    pub fn message(&self) -> (r: String)
        ensures
            r@ == plan_error_message(*self),
    {
        match self {
            PlanError::EmptyPlan => owned("Plan has no steps"),
            PlanError::InvalidStepId { step_id } => {
                let a = joined("Step id '", step_id.as_str());
                joined(a.as_str(), "' is empty or not unique")
            },
            PlanError::UnknownTask { step_id, task } => {
                let a = joined("Unknown task type: '", task.as_str());
                let b = joined(a.as_str(), "' in step '");
                let c = joined(b.as_str(), step_id.as_str());
                joined(c.as_str(), "'")
            },
            PlanError::InvalidParams { step_id } => {
                let a = joined("Step '", step_id.as_str());
                joined(a.as_str(), "' has missing or invalid parameters")
            },
            PlanError::UnknownDependency { step_id, dependency } => {
                let a = joined("Step '", step_id.as_str());
                let b = joined(a.as_str(), "' depends on unknown step '");
                let c = joined(b.as_str(), dependency.as_str());
                joined(c.as_str(), "'")
            },
            PlanError::Cycle { step_ids } => {
                if step_ids.len() > 0 {
                    let a = joined("Circular dependency detected involving step '", step_ids[0].as_str());
                    joined(a.as_str(), "'")
                } else {
                    owned("Circular dependency detected")
                }
            },
            PlanError::ContentFromNotDependency { step_id, content_from } => {
                let a = joined("Step '", step_id.as_str());
                let b = joined(a.as_str(), "' reads '");
                let c = joined(b.as_str(), content_from.as_str());
                joined(c.as_str(), "' but does not declare that step as a dependency")
            },
            PlanError::InvalidFilename { step_id, filename } => {
                let a = joined("Step '", step_id.as_str());
                let b = joined(a.as_str(), "' has invalid path '");
                let c = joined(b.as_str(), filename.as_str());
                joined(c.as_str(), "': path traversal, absolute path or control characters")
            },
        }
    }
}

pub open spec fn known_task(t: Seq<char>) -> bool {
    t == RUN_GEMINI@ || t == CREATE_FILE@
}

pub open spec fn prompt_ok(p: Option<String>) -> bool {
    match p {
        Some(s) => 0 < trimmed(s@).len() <= MAX_PROMPT_CHARS,
        None => false,
    }
}

/// The parameters that the step's task needs are there and well formed.
pub open spec fn params_ok(s: Step) -> bool {
    if s.task@ == RUN_GEMINI@ {
        prompt_ok(s.params.prompt)
    } else {
        s.params.filename is Some && (s.params.content_from is Some) != (s.params.content is Some)
    }
}

pub open spec fn ids_ok(plan: Plan) -> bool {
    &&& forall|i: int| 0 <= i < plan.steps.len() ==> (#[trigger] plan.steps@[i]).id@.len() > 0
    &&& forall|i: int, j: int|
        0 <= i < plan.steps.len() && 0 <= j < plan.steps.len() && i != j ==> (
        #[trigger] plan.steps@[i]).id@ != (#[trigger] plan.steps@[j]).id@
}

pub open spec fn tasks_ok(plan: Plan) -> bool {
    forall|i: int|
        0 <= i < plan.steps.len() ==> known_task((#[trigger] plan.steps@[i]).task@) && params_ok(
            plan.steps@[i],
        )
}

/// Some step of the plan has this id.
pub open spec fn names_step(plan: Plan, id: Seq<char>) -> bool {
    exists|j: int| 0 <= j < plan.steps.len() && (#[trigger] plan.steps@[j]).id@ == id
}

pub open spec fn deps_resolve(plan: Plan) -> bool {
    forall|i: int, k: int|
        0 <= i < plan.steps.len() && 0 <= k < plan.steps@[i].dependencies.len() ==> names_step(
            plan,
            (#[trigger] plan.steps@[i].dependencies@[k])@,
        )
}

/// Step `v` declares step `u` as a dependency: an edge `u -> v`.
pub open spec fn step_depends(plan: Plan, u: int, v: int) -> bool {
    0 <= u < plan.steps.len() && 0 <= v < plan.steps.len() && exists|k: int|
        0 <= k < plan.steps@[v].dependencies.len() && (#[trigger] plan.steps@[v].dependencies@[k])@
            == plan.steps@[u].id@
}

/// A numbering of the steps, each below the step count, in which every edge climbs.
pub open spec fn step_rank(plan: Plan, rank: Seq<int>) -> bool {
    &&& rank.len() == plan.steps.len()
    &&& forall|v: int| 0 <= v < plan.steps.len() ==> 0 <= #[trigger] rank[v] < plan.steps.len()
    &&& forall|u: int, v: int| #[trigger] step_depends(plan, u, v) ==> rank[u] < rank[v]
}

/// The dependency relation has no cycle: the steps can be numbered along it.
pub open spec fn acyclic(plan: Plan) -> bool {
    exists|rank: Seq<int>| step_rank(plan, rank)
}

/// Step `c[i]` depends on step `c[i + 1]`, and the last on the first.
pub open spec fn step_cycle(plan: Plan, c: Seq<int>) -> bool {
    &&& c.len() > 0
    &&& forall|i: int| 0 <= i < c.len() ==> 0 <= #[trigger] c[i] < plan.steps.len()
    &&& forall|i: int| 0 <= i < c.len() - 1 ==> #[trigger] step_depends(plan, c[i + 1], c[i])
    &&& step_depends(plan, c[0], c[c.len() - 1])
}

/// A dependency chain: step `p[i + 1]` depends on step `p[i]`.
pub open spec fn step_chain(plan: Plan, p: Seq<int>) -> bool {
    &&& p.len() > 0
    &&& forall|i: int| 0 <= i < p.len() ==> 0 <= #[trigger] p[i] < plan.steps.len()
    &&& forall|i: int| 0 <= i < p.len() - 1 ==> #[trigger] step_depends(plan, p[i], p[i + 1])
}

/// `content_from`, when present, is `"<dep>.output"` for a declared dependency `dep`.
pub open spec fn content_ref_ok(s: Step) -> bool {
    match s.params.content_from {
        Some(cf) => exists|k: int|
            0 <= k < s.dependencies.len() && cf@ == (#[trigger] s.dependencies@[k])@ + OUTPUT_SUFFIX@,
        None => true,
    }
}

pub open spec fn content_refs_ok(plan: Plan) -> bool {
    forall|i: int| 0 <= i < plan.steps.len() ==> content_ref_ok(#[trigger] plan.steps@[i])
}

pub open spec fn step_filename_ok(s: Step) -> bool {
    s.task@ == CREATE_FILE@ ==> match s.params.filename {
        Some(f) => filename_ok(f@),
        None => true,
    }
}

pub open spec fn filenames_ok(plan: Plan) -> bool {
    forall|i: int| 0 <= i < plan.steps.len() ==> step_filename_ok(#[trigger] plan.steps@[i])
}

/// Whether one rule holds of the plan.
pub open spec fn rule_holds(plan: Plan, rule: PlanRule) -> bool {
    match rule {
        PlanRule::NonEmpty => plan.steps.len() > 0,
        PlanRule::UniqueIds => ids_ok(plan),
        PlanRule::KnownTasks => tasks_ok(plan),
        PlanRule::DependenciesResolve => deps_resolve(plan),
        PlanRule::Acyclic => acyclic(plan),
        PlanRule::ContentFromDeclared => content_refs_ok(plan),
        PlanRule::FilenameHygiene => filenames_ok(plan),
    }
}

/// The plan meets every rule.
pub open spec fn plan_valid(plan: Plan) -> bool {
    &&& plan.steps.len() > 0
    &&& ids_ok(plan)
    &&& tasks_ok(plan)
    &&& deps_resolve(plan)
    &&& acyclic(plan)
    &&& content_refs_ok(plan)
    &&& filenames_ok(plan)
}

/// Every rule checked before `rule` holds.
pub open spec fn rules_before(plan: Plan, rule: PlanRule) -> bool {
    &&& rule != PlanRule::NonEmpty ==> plan.steps.len() > 0
    &&& rule != PlanRule::NonEmpty && rule != PlanRule::UniqueIds ==> ids_ok(plan)
    &&& (rule == PlanRule::DependenciesResolve || rule == PlanRule::Acyclic || rule
        == PlanRule::ContentFromDeclared || rule == PlanRule::FilenameHygiene) ==> tasks_ok(plan)
    &&& (rule == PlanRule::Acyclic || rule == PlanRule::ContentFromDeclared || rule
        == PlanRule::FilenameHygiene) ==> deps_resolve(plan)
    &&& (rule == PlanRule::ContentFromDeclared || rule == PlanRule::FilenameHygiene) ==> acyclic(
        plan,
    )
    &&& rule == PlanRule::FilenameHygiene ==> content_refs_ok(plan)
}

/// The error names a step of the plan that breaks the error's rule.
pub open spec fn error_witness(plan: Plan, e: PlanError) -> bool {
    match e {
        PlanError::EmptyPlan => plan.steps.len() == 0,
        PlanError::InvalidStepId { step_id } => exists|i: int|
            0 <= i < plan.steps.len() && (#[trigger] plan.steps@[i]).id@ == step_id@ && (
            step_id@.len() == 0 || exists|j: int|
                0 <= j < plan.steps.len() && j != i && (#[trigger] plan.steps@[j]).id@ == step_id@),
        PlanError::UnknownTask { step_id, task } => exists|i: int|
            0 <= i < plan.steps.len() && (#[trigger] plan.steps@[i]).id@ == step_id@
                && plan.steps@[i].task@ == task@ && !known_task(task@),
        PlanError::InvalidParams { step_id } => exists|i: int|
            0 <= i < plan.steps.len() && (#[trigger] plan.steps@[i]).id@ == step_id@ && known_task(
                plan.steps@[i].task@,
            ) && !params_ok(plan.steps@[i]),
        PlanError::UnknownDependency { step_id, dependency } => exists|i: int, k: int|
            0 <= i < plan.steps.len() && (#[trigger] plan.steps@[i]).id@ == step_id@ && 0 <= k
                < plan.steps@[i].dependencies.len() && (#[trigger] plan.steps@[i].dependencies@[k])@
                == dependency@ && !names_step(plan, dependency@),
        PlanError::Cycle { step_ids } => exists|c: Seq<int>|
            #[trigger] step_cycle(plan, c) && c.len() == step_ids.len() && forall|i: int|
                0 <= i < c.len() ==> (#[trigger] step_ids@[i])@ == plan.steps@[c[i]].id@,
        PlanError::ContentFromNotDependency { step_id, content_from } => exists|i: int|
            0 <= i < plan.steps.len() && (#[trigger] plan.steps@[i]).id@ == step_id@
                && plan.steps@[i].params.content_from == Some(content_from) && !content_ref_ok(
                plan.steps@[i],
            ),
        PlanError::InvalidFilename { step_id, filename } => exists|i: int|
            0 <= i < plan.steps.len() && (#[trigger] plan.steps@[i]).id@ == step_id@
                && plan.steps@[i].task@ == CREATE_FILE@ && plan.steps@[i].params.filename == Some(
                filename,
            ) && !filename_ok(filename@),
    }
}

/// What `validate` returns: acceptance exactly for valid plans, and otherwise the first rule
/// that fails, with a step that breaks it.
pub open spec fn validation_result(plan: Plan, r: Result<(), PlanError>) -> bool {
    match r {
        Ok(_) => plan_valid(plan),
        Err(e) => !plan_valid(plan) && rules_before(plan, e.rule_spec()) && !rule_holds(
            plan,
            e.rule_spec(),
        ) && error_witness(plan, e),
    }
}

/// `g` lists, for each step, the indices of the steps its dependencies name, in order.
pub open spec fn resolves(plan: Plan, g: Seq<Vec<usize>>) -> bool {
    &&& g.len() == plan.steps.len()
    &&& forall|v: int|
        0 <= v < g.len() ==> (#[trigger] g[v]).len() == plan.steps@[v].dependencies.len()
    &&& forall|v: int, k: int|
        0 <= v < g.len() && 0 <= k < g[v].len() ==> (#[trigger] g[v]@[k] as int) < g.len()
            && plan.steps@[g[v]@[k] as int].id@ == plan.steps@[v].dependencies@[k]@
}

/// With unique ids, the index graph has exactly the plan's edges.
pub proof fn lemma_resolved_edges(plan: Plan, g: Seq<Vec<usize>>)
    requires
        ids_ok(plan),
        resolves(plan, g),
    ensures
        graph_wf(g),
        forall|u: int, v: int|
            #![trigger depends(g, u, v)]
            #![trigger step_depends(plan, u, v)]
            depends(g, u, v) <==> step_depends(plan, u, v),
{
    assert forall|u: int, v: int| depends(g, u, v) implies step_depends(plan, u, v) by {
        let k = choose|k: int| 0 <= k < g[v].len() && #[trigger] g[v]@[k] as int == u;
        assert(plan.steps@[v].dependencies@[k]@ == plan.steps@[u].id@);
    }
    assert forall|u: int, v: int| step_depends(plan, u, v) implies depends(g, u, v) by {
        let k = choose|k: int|
            0 <= k < plan.steps@[v].dependencies.len() && (#[trigger] plan.steps@[v].dependencies@[k])@
                == plan.steps@[u].id@;
        let w = g[v]@[k] as int;
        assert(plan.steps@[w].id@ == plan.steps@[u].id@);
        assert(w == u);
    }
}

/// A plan with a cycle is not acyclic.
pub proof fn lemma_step_cycle_not_acyclic(plan: Plan, g: Seq<Vec<usize>>, c: Seq<int>)
    requires
        ids_ok(plan),
        resolves(plan, g),
        step_cycle(plan, c),
    ensures
        !acyclic(plan),
{
    lemma_resolved_edges(plan, g);
    assert(is_cycle(g, c));
    if acyclic(plan) {
        let rank = choose|rank: Seq<int>| step_rank(plan, rank);
        lemma_cycle_has_no_rank(g, c, rank);
        assert(is_rank(g, rank));
    }
}

proof fn lemma_step_cycle_descends(plan: Plan, c: Seq<int>, rank: Seq<int>, i: int)
    requires
        step_cycle(plan, c),
        step_rank(plan, rank),
        0 <= i < c.len(),
    ensures
        rank[c[i]] <= rank[c[0]] - i,
    decreases i,
{
    if i > 0 {
        lemma_step_cycle_descends(plan, c, rank, i - 1);
        assert(step_depends(plan, c[(i - 1) + 1], c[i - 1]));
    }
}

/// A plan whose steps depend on one another in a circle is not acyclic.
pub proof fn lemma_cycle_breaks_acyclic(plan: Plan, c: Seq<int>)
    requires
        step_cycle(plan, c),
    ensures
        !acyclic(plan),
{
    if acyclic(plan) {
        let rank = choose|rank: Seq<int>| step_rank(plan, rank);
        assert forall|i: int| 0 <= i < c.len() implies #[trigger] rank[c[i]] <= rank[c[0]] - i by {
            lemma_step_cycle_descends(plan, c, rank, i);
        }
        assert(step_depends(plan, c[0], c[c.len() - 1]));
    }
}

/// Validation rejects every plan with a cycle. When the rules checked before acyclicity
/// hold, the error is a cycle error whose ids go round a cycle of the plan.
pub proof fn lemma_cycle_rejected(plan: Plan, c: Seq<int>, r: Result<(), PlanError>)
    requires
        step_cycle(plan, c),
        validation_result(plan, r),
    ensures
        r is Err,
        plan.steps.len() > 0 && ids_ok(plan) && tasks_ok(plan) && deps_resolve(plan) ==> (
        r matches Err(PlanError::Cycle { step_ids }) && step_ids.len() > 0 && exists|d: Seq<int>|
            #[trigger] step_cycle(plan, d) && d.len() == step_ids.len() && forall|i: int|
                0 <= i < d.len() ==> (#[trigger] step_ids@[i])@ == plan.steps@[d[i]].id@),
{
    lemma_cycle_breaks_acyclic(plan, c);
}

/// A plan with a create_file step whose file name holds `..`, starts with `/`, or holds a
/// control character is rejected.
pub proof fn lemma_bad_filename_rejected(plan: Plan, i: int, r: Result<(), PlanError>)
    requires
        0 <= i < plan.steps.len(),
        plan.steps@[i].task@ == CREATE_FILE@,
        plan.steps@[i].params.filename matches Some(f) && !filename_ok(f@),
        validation_result(plan, r),
    ensures
        r is Err,
{
    assert(!step_filename_ok(plan.steps@[i]));
}

/// Index of the step with this id.
pub fn find_step(plan: &Plan, id: &String) -> (r: Option<usize>)
    ensures
        match r {
            Some(j) => j < plan.steps.len() && plan.steps@[j as int].id@ == id@,
            None => !names_step(*plan, id@),
        },
{
    let mut j: usize = 0;
    while j < plan.steps.len()
        invariant
            j <= plan.steps.len(),
            forall|i: int| 0 <= i < j ==> (#[trigger] plan.steps@[i]).id@ != id@,
        decreases plan.steps.len() - j,
    {
        if plan.steps[j].id == *id {
            return Some(j);
        }
        j = j + 1;
    }
    None
}

/// The index of an offending step when ids are empty or repeated.
fn first_bad_id(plan: &Plan) -> (r: Option<usize>)
    ensures
        match r {
            Some(i) => i < plan.steps.len() && (plan.steps@[i as int].id@.len() == 0 || exists|j: int|
                0 <= j < plan.steps.len() && j != i && (#[trigger] plan.steps@[j]).id@
                    == plan.steps@[i as int].id@),
            None => ids_ok(*plan),
        },
{
    let n = plan.steps.len();
    let mut i: usize = 0;
    while i < n
        invariant
            n == plan.steps.len(),
            i <= n,
            forall|a: int| 0 <= a < i ==> (#[trigger] plan.steps@[a]).id@.len() > 0,
            forall|a: int, b: int|
                0 <= a < i && 0 <= b < n && a != b ==> (#[trigger] plan.steps@[a]).id@ != (
                #[trigger] plan.steps@[b]).id@,
        decreases n - i,
    {
        if plan.steps[i].id.as_str().is_empty() {
            return Some(i);
        }
        let mut j: usize = 0;
        while j < n
            invariant
                n == plan.steps.len(),
                i < n,
                j <= n,
                forall|b: int| 0 <= b < j && b != i ==> (#[trigger] plan.steps@[b]).id@
                    != plan.steps@[i as int].id@,
            decreases n - j,
        {
            if j != i && plan.steps[j].id == plan.steps[i].id {
                return Some(i);
            }
            j = j + 1;
        }
        i = i + 1;
    }
    None
}

/// Whether the step's parameters meet [`params_ok`].
fn check_params(s: &Step) -> (r: bool)
    requires
        known_task(s.task@),
    ensures
        r == params_ok(*s),
{
    if s.task == owned(RUN_GEMINI) {
        match &s.params.prompt {
            Some(p) => {
                let t = trimmed_len(p.as_str());
                0 < t && t <= MAX_PROMPT_CHARS
            },
            None => false,
        }
    } else {
        s.params.filename.is_some() && (s.params.content_from.is_some()
            != s.params.content.is_some())
    }
}

/// The first step whose task is unknown or whose parameters are not well formed.
fn first_bad_task(plan: &Plan) -> (r: Option<usize>)
    ensures
        match r {
            Some(i) => i < plan.steps.len() && (!known_task(plan.steps@[i as int].task@) || !params_ok(
                plan.steps@[i as int],
            )),
            None => tasks_ok(*plan),
        },
{
    let mut i: usize = 0;
    while i < plan.steps.len()
        invariant
            i <= plan.steps.len(),
            forall|a: int|
                0 <= a < i ==> known_task((#[trigger] plan.steps@[a]).task@) && params_ok(
                    plan.steps@[a],
                ),
        decreases plan.steps.len() - i,
    {
        let s = &plan.steps[i];
        if !(s.task == owned(RUN_GEMINI) || s.task == owned(CREATE_FILE)) {
            return Some(i);
        }
        if !check_params(s) {
            return Some(i);
        }
        i = i + 1;
    }
    None
}

/// Resolves every dependency to a step index, or names the first that resolves to none.
pub fn resolve_dependencies(plan: &Plan) -> (r: Result<Vec<Vec<usize>>, (usize, usize)>)
    ensures
        match r {
            Ok(g) => resolves(*plan, g@) && deps_resolve(*plan),
            Err((i, k)) => i < plan.steps.len() && k < plan.steps@[i as int].dependencies.len()
                && !names_step(*plan, plan.steps@[i as int].dependencies@[k as int]@),
        },
{
    let n = plan.steps.len();
    let mut g: Vec<Vec<usize>> = Vec::new();
    let mut i: usize = 0;
    while i < n
        invariant
            n == plan.steps.len(),
            i <= n,
            g.len() == i,
            forall|v: int|
                0 <= v < i ==> (#[trigger] g@[v]).len() == plan.steps@[v].dependencies.len(),
            forall|v: int, k: int|
                0 <= v < i && 0 <= k < g@[v].len() ==> (#[trigger] g@[v]@[k] as int) < n
                    && plan.steps@[g@[v]@[k] as int].id@ == plan.steps@[v].dependencies@[k]@,
        decreases n - i,
    {
        let deps = &plan.steps[i].dependencies;
        let mut row: Vec<usize> = Vec::new();
        let mut k: usize = 0;
        while k < deps.len()
            invariant
                n == plan.steps.len(),
                i < n,
                deps == plan.steps@[i as int].dependencies,
                k <= deps.len(),
                row.len() == k,
                forall|m: int|
                    0 <= m < k ==> (#[trigger] row@[m] as int) < n && plan.steps@[row@[m] as int].id@
                        == deps@[m]@,
            decreases deps.len() - k,
        {
            match find_step(plan, &deps[k]) {
                Some(j) => row.push(j),
                None => {
                    return Err((i, k));
                },
            }
            k = k + 1;
        }
        g.push(row);
        i = i + 1;
    }
    proof {
        assert forall|v: int, k: int|
            0 <= v < n && 0 <= k < plan.steps@[v].dependencies.len() implies names_step(
            *plan,
            (#[trigger] plan.steps@[v].dependencies@[k])@,
        ) by {
            assert(plan.steps@[g@[v]@[k] as int].id@ == plan.steps@[v].dependencies@[k]@);
        }
    }
    Ok(g)
}

/// Whether the step's `content_from` meets [`content_ref_ok`].
fn check_content_ref(s: &Step) -> (r: bool)
    ensures
        r == content_ref_ok(*s),
{
    match &s.params.content_from {
        None => true,
        Some(cf) => {
            let mut k: usize = 0;
            while k < s.dependencies.len()
                invariant
                    k <= s.dependencies.len(),
                    s.params.content_from == Some(*cf),
                    forall|m: int|
                        0 <= m < k ==> cf@ != (#[trigger] s.dependencies@[m])@ + OUTPUT_SUFFIX@,
                decreases s.dependencies.len() - k,
            {
                let key = joined(s.dependencies[k].as_str(), OUTPUT_SUFFIX);
                if key == *cf {
                    return true;
                }
                k = k + 1;
            }
            false
        },
    }
}

/// Collects the ids of the steps at the given indices.
fn ids_at(plan: &Plan, c: &Vec<usize>) -> (r: Vec<String>)
    requires
        forall|i: int| 0 <= i < c.len() ==> (#[trigger] c@[i] as int) < plan.steps.len(),
    ensures
        r.len() == c.len(),
        forall|i: int| 0 <= i < c.len() ==> (#[trigger] r@[i])@ == plan.steps@[c@[i] as int].id@,
{
    let mut r: Vec<String> = Vec::new();
    let mut i: usize = 0;
    while i < c.len()
        invariant
            i <= c.len(),
            r.len() == i,
            forall|i: int| 0 <= i < c.len() ==> (#[trigger] c@[i] as int) < plan.steps.len(),
            forall|m: int| 0 <= m < i ==> (#[trigger] r@[m])@ == plan.steps@[c@[m] as int].id@,
        decreases c.len() - i,
    {
        r.push(plan.steps[c[i]].id.clone());
        i = i + 1;
    }
    r
}

impl Plan {
    /// Checks every rule of a plan, in order, and reports the first that fails.
    #[verifier::rlimit(40)]
    pub fn validate(&self) -> (r: Result<(), PlanError>)
        ensures
            validation_result(*self, r),
    {
        if self.steps.len() == 0 {
            return Err(PlanError::EmptyPlan);
        }
        if let Some(i) = first_bad_id(self) {
            return Err(PlanError::InvalidStepId { step_id: self.steps[i].id.clone() });
        }
        if let Some(i) = first_bad_task(self) {
            let s = &self.steps[i];
            if !(s.task == owned(RUN_GEMINI) || s.task == owned(CREATE_FILE)) {
                return Err(PlanError::UnknownTask { step_id: s.id.clone(), task: s.task.clone() });
            }
            return Err(PlanError::InvalidParams { step_id: s.id.clone() });
        }
        let g = match resolve_dependencies(self) {
            Ok(g) => g,
            Err((i, k)) => {
                return Err(
                    PlanError::UnknownDependency {
                        step_id: self.steps[i].id.clone(),
                        dependency: self.steps[i].dependencies[k].clone(),
                    },
                );
            },
        };
        proof {
            lemma_resolved_edges(*self, g@);
        }
        match topo_sort(&g) {
            Ok((_order, pos)) => {
                proof {
                    let rank = pos@.map_values(|x: usize| x as int);
                    assert(step_rank(*self, rank));
                }
            },
            Err(c) => {
                proof {
                    let cs = c@.map_values(|x: usize| x as int);
                    assert forall|i: int| 0 <= i < c.len() implies (#[trigger] c@[i] as int) < self.steps.len() by {
                        assert(cs[i] == c@[i] as int);
                    }
                }
                let ids = ids_at(self, &c);
                proof {
                    let cs = c@.map_values(|x: usize| x as int);
                    assert(step_cycle(*self, cs));
                    lemma_step_cycle_not_acyclic(*self, g@, cs);
                }
                return Err(PlanError::Cycle { step_ids: ids });
            },
        }
        let mut i: usize = 0;
        while i < self.steps.len()
            invariant
                i <= self.steps.len(),
                self.steps.len() > 0,
                ids_ok(*self),
                tasks_ok(*self),
                deps_resolve(*self),
                acyclic(*self),
                forall|a: int| 0 <= a < i ==> content_ref_ok(#[trigger] self.steps@[a]),
            decreases self.steps.len() - i,
        {
            if !check_content_ref(&self.steps[i]) {
                let s = &self.steps[i];
                let cf = match &s.params.content_from {
                    Some(cf) => cf.clone(),
                    None => owned(""),
                };
                proof {
                    assert(self.steps@[i as int].id@ == s.id@);
                    assert(!content_ref_ok(self.steps@[i as int]));
                    assert(!content_refs_ok(*self));
                }
                let e = PlanError::ContentFromNotDependency { step_id: s.id.clone(), content_from: cf };
                proof {
                    assert(error_witness(*self, e));
                }
                return Err(e);
            }
            i = i + 1;
        }
        let mut i: usize = 0;
        while i < self.steps.len()
            invariant
                i <= self.steps.len(),
                self.steps.len() > 0,
                ids_ok(*self),
                tasks_ok(*self),
                deps_resolve(*self),
                acyclic(*self),
                content_refs_ok(*self),
                forall|a: int| 0 <= a < i ==> step_filename_ok(#[trigger] self.steps@[a]),
            decreases self.steps.len() - i,
        {
            let s = &self.steps[i];
            if s.task == owned(CREATE_FILE) {
                if let Some(f) = &s.params.filename {
                    if !check_filename(f.as_str()) {
                        proof {
                            assert(self.steps@[i as int].id@ == s.id@);
                            assert(!step_filename_ok(self.steps@[i as int]));
                            assert(!filenames_ok(*self));
                        }
                        return Err(PlanError::InvalidFilename { step_id: s.id.clone(), filename: f.clone() });
                    }
                }
            }
            i = i + 1;
        }
        Ok(())
    }
}

} // verus!
