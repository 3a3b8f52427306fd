//! The scheduling decisions of a plan execution: which tasks start, what a finished or failed
//! task changes, and what the execution returns. The caller runs the tasks and reports back.
use vstd::prelude::*;
use crate::dag::graph_wf;
use crate::plan::{plan_valid, resolve_dependencies, resolves, validation_result, Plan, PlanError};
use crate::text::{decimal, decimal_spec, joined};

verus! {

/// Default bound on tasks running at once.
pub const DEFAULT_MAX_PARALLEL_TASKS: usize = 10;

/// State of one task.
#[derive(Clone, Copy, Debug, PartialEq, Eq, Structural)]
pub enum TaskState {
    Pending,
    Running,
    Succeeded,
    Failed,
    Cancelled,
}

/// Number of tasks in state `Running`.
pub open spec fn count_running(s: Seq<TaskState>) -> nat
    decreases s.len(),
{
    if s.len() == 0 {
        0
    } else {
        count_running(s.drop_last()) + if s.last() == TaskState::Running {
            1nat
        } else {
            0nat
        }
    }
}

proof fn lemma_count_running_update(s: Seq<TaskState>, i: int, t: TaskState)
    requires
        0 <= i < s.len(),
    ensures
        count_running(s.update(i, t)) + (if s[i] == TaskState::Running { 1int } else { 0int })
            == count_running(s) + (if t == TaskState::Running { 1int } else { 0int }),
    decreases s.len(),
{
    let u = s.update(i, t);
    if i == s.len() - 1 {
        assert(u.drop_last() =~= s.drop_last());
    } else {
        assert(u.drop_last() =~= s.drop_last().update(i, t));
        lemma_count_running_update(s.drop_last(), i, t);
    }
}

proof fn lemma_count_running_none(s: Seq<TaskState>)
    requires
        forall|i: int| 0 <= i < s.len() ==> #[trigger] s[i] != TaskState::Running,
    ensures
        count_running(s) == 0,
    decreases s.len(),
{
    if s.len() > 0 {
        assert forall|i: int| 0 <= i < s.len() - 1 implies #[trigger] s.drop_last()[i]
            != TaskState::Running by {
            assert(s.drop_last()[i] == s[i]);
        }
        lemma_count_running_none(s.drop_last());
    }
}

/// Outcome of one step, as read from the final context.
#[derive(Clone, Debug, PartialEq, Eq)]
pub struct StepResult {
    pub step_id: String,
    pub step_number: u32,
    pub success: bool,
    pub output: Option<String>,
    pub error: Option<String>,
}

/// Why an execution did not complete.
#[derive(Clone, Debug, PartialEq, Eq)]
pub enum ExecutionError {
    /// The first task that failed, and what it reported.
    TaskExecutionFailed { step_id: String, detail: String },
    /// The whole execution ran out of time.
    Timeout,
}

/// Scheduler of one execution of a valid plan.
pub struct Scheduler {
    /// For each task, the tasks it depends on.
    pub deps: Vec<Vec<usize>>,
    pub states: Vec<TaskState>,
    /// The output each task wrote; present exactly for the tasks that succeeded.
    pub outputs: Vec<Option<String>>,
    pub max_parallel: usize,
    pub running: usize,
    /// The first task that failed, with its error.
    pub failure: Option<(usize, String)>,
    pub timed_out: bool,
}

impl Scheduler {
    pub open spec fn n(&self) -> int {
        self.states.len() as int
    }

    /// All dependencies of task `i` have succeeded.
    pub open spec fn deps_done(&self, i: int) -> bool {
        forall|k: int|
            0 <= k < self.deps@[i].len() ==> self.states@[#[trigger] self.deps@[i]@[k] as int]
                == TaskState::Succeeded
    }

    /// Task `i` waits and may start.
    pub open spec fn ready(&self, i: int) -> bool {
        &&& 0 <= i < self.n()
        &&& self.states@[i] == TaskState::Pending
        &&& self.deps_done(i)
        &&& self.failure is None
        &&& !self.timed_out
    }

    /// The scheduler's invariant.
    pub open spec fn wf(&self) -> bool {
        &&& self.deps.len() == self.states.len()
        &&& self.outputs.len() == self.states.len()
        &&& graph_wf(self.deps@)
        &&& self.max_parallel > 0
        &&& self.running == count_running(self.states@)
        &&& self.running <= self.max_parallel
        &&& forall|i: int|
            0 <= i < self.n() && (#[trigger] self.states@[i] == TaskState::Running
                || self.states@[i] == TaskState::Succeeded) ==> self.deps_done(i)
        &&& forall|i: int|
            0 <= i < self.n() ==> ((#[trigger] self.outputs@[i]) is Some <==> self.states@[i]
                == TaskState::Succeeded)
        &&& (self.failure is Some || self.timed_out) ==> forall|i: int|
            0 <= i < self.n() ==> #[trigger] self.states@[i] != TaskState::Pending
        &&& self.failure matches Some((f, _)) ==> f < self.n() && self.states@[f as int]
            == TaskState::Failed
        &&& self.timed_out ==> self.running == 0
    }

    /// A scheduler for a plan, with every task pending; fails as `validate` does.
    pub fn new(plan: &Plan, max_parallel: usize) -> (r: Result<Scheduler, PlanError>)
        requires
            max_parallel > 0,
        ensures
            match r {
                Ok(s) => plan_valid(*plan) && s.wf() && s.n() == plan.steps.len() && resolves(
                    *plan,
                    s.deps@,
                ) && s.max_parallel == max_parallel && s.failure is None && !s.timed_out
                    && forall|i: int| 0 <= i < s.n() ==> #[trigger] s.states@[i] == TaskState::Pending,
                Err(e) => validation_result(*plan, Err(e)),
            },
    {
        match plan.validate() {
            Ok(()) => {},
            Err(e) => {
                return Err(e);
            },
        }
        let deps = match resolve_dependencies(plan) {
            Ok(g) => g,
            Err(_) => {
                return Err(PlanError::EmptyPlan);
            },
        };
        let n = plan.steps.len();
        let mut states: Vec<TaskState> = Vec::new();
        let mut outputs: Vec<Option<String>> = Vec::new();
        let mut i: usize = 0;
        while i < n
            invariant
                i <= n,
                states.len() == i,
                outputs.len() == i,
                forall|j: int| 0 <= j < i ==> #[trigger] states@[j] == TaskState::Pending,
                forall|j: int| 0 <= j < i ==> (#[trigger] outputs@[j]) is None,
            decreases n - i,
        {
            states.push(TaskState::Pending);
            outputs.push(None);
            i = i + 1;
        }
        proof {
            lemma_count_running_none(states@);
            crate::plan::lemma_resolved_edges(*plan, deps@);
        }
        Ok(Scheduler { deps, states, outputs, max_parallel, running: 0, failure: None, timed_out: false })
    }

    /// Whether all dependencies of task `i` have succeeded.
    fn check_deps_done(&self, i: usize) -> (r: bool)
        requires
            self.wf(),
            i < self.n(),
        ensures
            r == self.deps_done(i as int),
    {
        let d = &self.deps[i];
        let mut k: usize = 0;
        while k < d.len()
            invariant
                self.wf(),
                i < self.n(),
                d == self.deps@[i as int],
                k <= d.len(),
                forall|m: int| 0 <= m < k ==> self.states@[#[trigger] d@[m] as int] == TaskState::Succeeded,
            decreases d.len() - k,
        {
            if self.states[d[k]] != TaskState::Succeeded {
                return false;
            }
            k = k + 1;
        }
        true
    }

    /// Starts the ready tasks, lowest index first, while fewer than `max_parallel` run.
    /// Returns the tasks started, in increasing order.
    pub fn start_ready(&mut self) -> (r: Vec<usize>)
        requires
            old(self).wf(),
        ensures
            final(self).wf(),
            final(self).deps == old(self).deps,
            final(self).outputs == old(self).outputs,
            final(self).failure == old(self).failure,
            final(self).timed_out == old(self).timed_out,
            final(self).max_parallel == old(self).max_parallel,
            forall|a: int, b: int| 0 <= a < b < r.len() ==> r@[a] < r@[b],
            forall|j: int| 0 <= j < r.len() ==> old(self).ready(#[trigger] r@[j] as int),
            final(self).running == old(self).running + r.len(),
            forall|i: int|
                0 <= i < old(self).n() ==> #[trigger] final(self).states@[i] == if exists|j: int|
                    0 <= j < r.len() && r@[j] == i {
                    TaskState::Running
                } else {
                    old(self).states@[i]
                },
            forall|i: int|
                #[trigger] old(self).ready(i) && !(exists|j: int| 0 <= j < r.len() && r@[j] == i)
                    ==> final(self).running == final(self).max_parallel && (r.len() == 0 || i > r@[r.len() - 1]),
    {
        let mut r: Vec<usize> = Vec::new();
        if self.failure.is_some() || self.timed_out {
            return r;
        }
        let ghost before = *self;
        let n = self.states.len();
        let mut i: usize = 0;
        while i < n && self.running < self.max_parallel
            invariant
                before.wf(),
                self.wf(),
                n == self.n(),
                n == before.n(),
                i <= n,
                self.deps == before.deps,
                self.outputs == before.outputs,
                self.failure == before.failure,
                self.failure is None,
                !self.timed_out,
                self.timed_out == before.timed_out,
                self.max_parallel == before.max_parallel,
                self.running == before.running + r.len(),
                forall|a: int, b: int| 0 <= a < b < r.len() ==> r@[a] < r@[b],
                forall|j: int| 0 <= j < r.len() ==> (#[trigger] r@[j] as int) < i && before.ready(r@[j] as int),
                forall|m: int|
                    0 <= m < n ==> #[trigger] self.states@[m] == if exists|j: int|
                        0 <= j < r.len() && r@[j] == m {
                        TaskState::Running
                    } else {
                        before.states@[m]
                    },
                forall|m: int| 0 <= m < i && #[trigger] before.ready(m) ==> exists|j: int| 0 <= j < r.len() && r@[j] == m,
            decreases n - i,
        {
            proof {
                assert forall|k: int| 0 <= k < self.deps@[i as int].len() implies (self.states@[#[trigger] self.deps@[i as int]@[k] as int]
                    == TaskState::Succeeded) == (before.states@[self.deps@[i as int]@[k] as int] == TaskState::Succeeded) by {
                    let d = self.deps@[i as int]@[k] as int;
                    if exists|j: int| 0 <= j < r.len() && r@[j] == d {
                        let j = choose|j: int| 0 <= j < r.len() && r@[j] == d;
                        assert(before.ready(d));
                    }
                }
            }
            if self.states[i] == TaskState::Pending && self.check_deps_done(i) {
                proof {
                    assert(!exists|j: int| 0 <= j < r.len() && r@[j] == i);
                    lemma_count_running_update(self.states@, i as int, TaskState::Running);
                }
                let ghost old_r = r@;
                let ghost mid = *self;
                self.states.set(i, TaskState::Running);
                self.running = self.running + 1;
                r.push(i);
                proof {
                    assert forall|m: int|
                        0 <= m < n implies #[trigger] self.states@[m] == if exists|j: int|
                            0 <= j < r.len() && r@[j] == m {
                            TaskState::Running
                        } else {
                            before.states@[m]
                        } by {
                        if m == i {
                            assert(r@[r.len() - 1] == m);
                        } else if exists|j: int| 0 <= j < old_r.len() && old_r[j] == m {
                            let j = choose|j: int| 0 <= j < old_r.len() && old_r[j] == m;
                            assert(r@[j] == m);
                        } else {
                            assert forall|j: int| 0 <= j < r.len() implies r@[j] != m by {
                                if j < old_r.len() {
                                    assert(r@[j] == old_r[j]);
                                }
                            }
                        }
                    }
                    assert forall|m: int| 0 <= m < i + 1 && #[trigger] before.ready(m) implies exists|j: int|
                        0 <= j < r.len() && r@[j] == m by {
                        if m < i {
                            let j = choose|j: int| 0 <= j < old_r.len() && old_r[j] == m;
                            assert(r@[j] == m);
                        } else {
                            assert(r@[r.len() - 1] == m);
                        }
                    }
                    assert forall|m: int|
                        0 <= m < n && (#[trigger] self.states@[m] == TaskState::Running
                            || self.states@[m] == TaskState::Succeeded) implies self.deps_done(m) by {
                        if m != i {
                            assert(mid.states@[m] == self.states@[m]);
                            assert forall|k: int| 0 <= k < self.deps@[m].len() implies self.states@[#[trigger] self.deps@[m]@[k] as int]
                                == TaskState::Succeeded by {
                                assert(mid.states@[self.deps@[m]@[k] as int] == TaskState::Succeeded);
                            }
                        } else {
                            assert forall|k: int| 0 <= k < self.deps@[m].len() implies self.states@[#[trigger] self.deps@[m]@[k] as int]
                                == TaskState::Succeeded by {
                                assert(mid.states@[self.deps@[m]@[k] as int] == TaskState::Succeeded);
                            }
                        }
                    }
                }
            } else {
                proof {
                    if before.ready(i as int) {
                        assert(!exists|j: int| 0 <= j < r.len() && r@[j] == i) by {
                            if exists|j: int| 0 <= j < r.len() && r@[j] == i {
                                let j = choose|j: int| 0 <= j < r.len() && r@[j] == i;
                            }
                        }
                    }
                }
            }
            i = i + 1;
        }
        proof {
            assert forall|m: int|
                #[trigger] before.ready(m) && !(exists|j: int| 0 <= j < r.len() && r@[j] == m)
                    ==> self.running == self.max_parallel && (r.len() == 0 || m > r@[r.len() - 1]) by {
                if before.ready(m) && !(exists|j: int| 0 <= j < r.len() && r@[j] == m) {
                    assert(m >= i);
                    if r.len() > 0 {
                        assert(r@[r.len() - 1] < i);
                    }
                }
            }
        }
        r
    }

    /// Records that running task `i` returned `output`. Before any failure or timeout the task
    /// succeeds and its output is written, for the first and only time; after one, the task is
    /// cancelled and its output dropped. Returns whether the completion is reported.
    pub fn complete(&mut self, i: usize, output: String) -> (r: bool)
        requires
            old(self).wf(),
            i < old(self).n(),
            old(self).states@[i as int] == TaskState::Running,
        ensures
            final(self).wf(),
            r == old(self).failure is None,
            old(self).outputs@[i as int] is None,
            final(self).states@ == old(self).states@.update(
                i as int,
                if r { TaskState::Succeeded } else { TaskState::Cancelled },
            ),
            final(self).outputs@ == if r {
                old(self).outputs@.update(i as int, Some(output))
            } else {
                old(self).outputs@
            },
            final(self).running == old(self).running - 1,
            final(self).deps == old(self).deps,
            final(self).failure == old(self).failure,
            final(self).timed_out == old(self).timed_out,
            final(self).max_parallel == old(self).max_parallel,
    {
        let ok = self.failure.is_none();
        let t = if ok { TaskState::Succeeded } else { TaskState::Cancelled };
        proof {
            lemma_count_running_update(self.states@, i as int, t);
        }
        let ghost before = *self;
        self.states.set(i, t);
        self.running = self.running - 1;
        if ok {
            self.outputs.set(i, Some(output));
        }
        proof {
            assert forall|m: int|
                0 <= m < self.n() && (#[trigger] self.states@[m] == TaskState::Running
                    || self.states@[m] == TaskState::Succeeded) implies self.deps_done(m) by {
                assert(before.deps_done(m));
                assert forall|k: int| 0 <= k < self.deps@[m].len() implies self.states@[#[trigger] self.deps@[m]@[k] as int]
                    == TaskState::Succeeded by {
                    assert(before.states@[self.deps@[m]@[k] as int] == TaskState::Succeeded);
                }
            }
        }
        ok
    }

    /// Records that running task `i` failed with `error`. The first failure is kept, and every
    /// task not yet started is cancelled; a later one only cancels the task. Returns whether
    /// the failure is the first.
    pub fn fail(&mut self, i: usize, error: String) -> (r: bool)
        requires
            old(self).wf(),
            i < old(self).n(),
            old(self).states@[i as int] == TaskState::Running,
        ensures
            final(self).wf(),
            r == old(self).failure is None,
            r ==> final(self).failure == Some((i, error)),
            !r ==> final(self).failure == old(self).failure,
            final(self).states@[i as int] == if r { TaskState::Failed } else { TaskState::Cancelled },
            forall|m: int|
                0 <= m < old(self).n() && m != i ==> #[trigger] final(self).states@[m] == if old(
                    self,
                ).states@[m] == TaskState::Pending {
                    TaskState::Cancelled
                } else {
                    old(self).states@[m]
                },
            final(self).outputs == old(self).outputs,
            final(self).running == old(self).running - 1,
            final(self).deps == old(self).deps,
            final(self).timed_out == old(self).timed_out,
            final(self).max_parallel == old(self).max_parallel,
    {
        let first = self.failure.is_none();
        let t = if first { TaskState::Failed } else { TaskState::Cancelled };
        proof {
            lemma_count_running_update(self.states@, i as int, t);
        }
        let ghost before = *self;
        self.states.set(i, t);
        self.running = self.running - 1;
        let ghost mid = self.states@;
        let n = self.states.len();
        let mut m: usize = 0;
        while m < n
            invariant
                n == self.states.len(),
                n == before.n(),
                i < n,
                m <= n,
                mid.len() == n,
                t != TaskState::Pending,
                self.outputs == before.outputs,
                self.deps == before.deps,
                self.failure == before.failure,
                self.timed_out == before.timed_out,
                self.max_parallel == before.max_parallel,
                self.running == before.running - 1,
                self.states@[i as int] == t,
                mid[i as int] == t,
                count_running(self.states@) == count_running(mid),
                forall|j: int|
                    0 <= j < n && j != i ==> #[trigger] self.states@[j] == if j < m && before.states@[j]
                        == TaskState::Pending {
                        TaskState::Cancelled
                    } else {
                        before.states@[j]
                    },
                forall|j: int| 0 <= j < n && j != i ==> #[trigger] mid[j] == before.states@[j],
            decreases n - m,
        {
            if self.states[m] == TaskState::Pending {
                proof {
                    lemma_count_running_update(self.states@, m as int, TaskState::Cancelled);
                }
                self.states.set(m, TaskState::Cancelled);
            }
            m = m + 1;
        }
        if first {
            self.failure = Some((i, error));
        }
        proof {
            assert forall|j: int|
                0 <= j < self.n() && (#[trigger] self.states@[j] == TaskState::Running
                    || self.states@[j] == TaskState::Succeeded) implies self.deps_done(j) by {
                assert(before.deps_done(j));
                assert forall|k: int| 0 <= k < self.deps@[j].len() implies self.states@[#[trigger] self.deps@[j]@[k] as int]
                    == TaskState::Succeeded by {
                    assert(before.states@[self.deps@[j]@[k] as int] == TaskState::Succeeded);
                }
            }
            assert forall|j: int| 0 <= j < self.n() implies #[trigger] self.states@[j] != TaskState::Pending by {
                if j != i && before.states@[j] == TaskState::Pending {
                    assert(self.states@[j] == TaskState::Cancelled);
                }
            }
            assert forall|j: int| 0 <= j < self.n() implies ((#[trigger] self.outputs@[j]) is Some <==> self.states@[j]
                == TaskState::Succeeded) by {
                assert(before.outputs@[j] is Some <==> before.states@[j] == TaskState::Succeeded);
            }
        }
        first
    }

    /// The execution ran out of time: every task not yet finished is cancelled.
    pub fn time_out(&mut self)
        requires
            old(self).wf(),
        ensures
            final(self).wf(),
            final(self).timed_out,
            final(self).running == 0,
            forall|m: int|
                0 <= m < old(self).n() ==> #[trigger] final(self).states@[m] == if old(self).states@[m]
                    == TaskState::Pending || old(self).states@[m] == TaskState::Running {
                    TaskState::Cancelled
                } else {
                    old(self).states@[m]
                },
            final(self).outputs == old(self).outputs,
            final(self).deps == old(self).deps,
            final(self).failure == old(self).failure,
            final(self).max_parallel == old(self).max_parallel,
    {
        let ghost before = *self;
        let n = self.states.len();
        let mut m: usize = 0;
        while m < n
            invariant
                n == self.states.len(),
                n == before.n(),
                m <= n,
                self.outputs == before.outputs,
                self.deps == before.deps,
                self.failure == before.failure,
                self.timed_out == before.timed_out,
                self.max_parallel == before.max_parallel,
                self.running == before.running,
                forall|j: int|
                    0 <= j < n ==> #[trigger] self.states@[j] == if j < m && (before.states@[j]
                        == TaskState::Pending || before.states@[j] == TaskState::Running) {
                        TaskState::Cancelled
                    } else {
                        before.states@[j]
                    },
            decreases n - m,
        {
            if self.states[m] == TaskState::Pending || self.states[m] == TaskState::Running {
                self.states.set(m, TaskState::Cancelled);
            }
            m = m + 1;
        }
        self.running = 0;
        self.timed_out = true;
        proof {
            lemma_count_running_none(self.states@);
            assert forall|j: int|
                0 <= j < self.n() && (#[trigger] self.states@[j] == TaskState::Running
                    || self.states@[j] == TaskState::Succeeded) implies self.deps_done(j) by {
                assert(before.deps_done(j));
                assert forall|k: int| 0 <= k < self.deps@[j].len() implies self.states@[#[trigger] self.deps@[j]@[k] as int]
                    == TaskState::Succeeded by {
                    assert(before.states@[self.deps@[j]@[k] as int] == TaskState::Succeeded);
                }
            }
            assert forall|j: int| 0 <= j < self.n() implies ((#[trigger] self.outputs@[j]) is Some <==> self.states@[j]
                == TaskState::Succeeded) by {
                assert(before.outputs@[j] is Some <==> before.states@[j] == TaskState::Succeeded);
            }
        }
    }

    /// Nothing runs and nothing more can start.
    pub fn is_finished(&self) -> (r: bool)
        requires
            self.wf(),
        ensures
            r == (self.running == 0 && forall|i: int| 0 <= i < self.n() ==> !#[trigger] self.ready(i)),
    {
        if self.running > 0 {
            return false;
        }
        if self.failure.is_some() || self.timed_out {
            return true;
        }
        let mut i: usize = 0;
        while i < self.states.len()
            invariant
                self.wf(),
                self.failure is None,
                !self.timed_out,
                i <= self.n(),
                forall|j: int| 0 <= j < i ==> !#[trigger] self.ready(j),
            decreases self.n() - i,
        {
            if self.states[i] == TaskState::Pending && self.check_deps_done(i) {
                proof {
                    assert(self.ready(i as int));
                }
                return false;
            }
            i = i + 1;
        }
        true
    }
}

/// What `outcome` returns for a scheduler in this state.
pub open spec fn outcome_matches(s: Scheduler, plan: Plan, r: Result<Vec<StepResult>, ExecutionError>) -> bool {
    match s.failure {
        Some((f, e)) => r matches Err(ExecutionError::TaskExecutionFailed { step_id, detail })
            && step_id@ == plan.steps@[f as int].id@ && detail@ == e@,
        None => if s.timed_out {
            r == Err::<Vec<StepResult>, ExecutionError>(ExecutionError::Timeout)
        } else {
            r matches Ok(results) && results.len() == plan.steps.len() && forall|i: int|
                0 <= i < results.len() ==> step_result_matches(plan, i, s.outputs@[i], #[trigger] results@[i])
        },
    }
}

/// The message of a step that left no output.
pub open spec fn missing_output_message(number: nat, step_id: Seq<char>) -> Seq<char> {
    "Step "@ + decimal_spec(number) + " ("@ + step_id + ") did not produce output"@
}

/// The result of step `i` given the output it left, if any.
pub open spec fn step_result_matches(plan: Plan, i: int, out: Option<String>, r: StepResult) -> bool {
    &&& r.step_id@ == plan.steps@[i].id@
    &&& r.step_number == i + 1
    &&& r.success == out is Some
    &&& r.output == out
    &&& r.error matches Some(e) ==> out is None && e@ == missing_output_message((i + 1) as nat, plan.steps@[i].id@)
    &&& r.error is None <==> out is Some
}

/// Results of all steps in declaration order: success with the output where there is one,
/// else a failure that says the step produced nothing.
pub fn extract_step_results(plan: &Plan, outputs: &Vec<Option<String>>) -> (r: Vec<StepResult>)
    requires
        outputs.len() == plan.steps.len(),
        plan.steps.len() < u32::MAX,
    ensures
        r.len() == plan.steps.len(),
        forall|i: int| 0 <= i < r.len() ==> step_result_matches(*plan, i, outputs@[i], #[trigger] r@[i]),
{
    let mut r: Vec<StepResult> = Vec::new();
    let mut i: usize = 0;
    while i < plan.steps.len()
        invariant
            i <= plan.steps.len(),
            outputs.len() == plan.steps.len(),
            plan.steps.len() < u32::MAX,
            r.len() == i,
            forall|j: int| 0 <= j < i ==> step_result_matches(*plan, j, outputs@[j], #[trigger] r@[j]),
        decreases plan.steps.len() - i,
    {
        let id = &plan.steps[i].id;
        let number: u32 = (i + 1) as u32;
        let res = match &outputs[i] {
            Some(o) => StepResult { step_id: id.clone(), step_number: number, success: true, output: Some(o.clone()), error: None },
            None => {
                let m1 = joined("Step ", decimal(number as u64).as_str());
                let m2 = joined(m1.as_str(), " (");
                let m3 = joined(m2.as_str(), id.as_str());
                let msg = joined(m3.as_str(), ") did not produce output");
                StepResult { step_id: id.clone(), step_number: number, success: false, output: None, error: Some(msg) }
            },
        };
        r.push(res);
        i = i + 1;
    }
    r
}

impl Scheduler {
    /// What the execution returns once finished: the first failure, else the timeout, else the
    /// result of every step. A timeout that fires after a failure does not replace it.
    pub fn outcome(&self, plan: &Plan) -> (r: Result<Vec<StepResult>, ExecutionError>)
        requires
            self.wf(),
            self.n() == plan.steps.len(),
            plan.steps.len() < u32::MAX,
        ensures
            outcome_matches(*self, *plan, r),
    {
        match &self.failure {
            Some((f, e)) => Err(ExecutionError::TaskExecutionFailed { step_id: plan.steps[*f].id.clone(), detail: e.clone() }),
            None => {
                if self.timed_out {
                    Err(ExecutionError::Timeout)
                } else {
                    Ok(extract_step_results(plan, &self.outputs))
                }
            },
        }
    }
}

} // verus!
