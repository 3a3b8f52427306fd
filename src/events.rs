//! The event sequence of an orchestration request and its server-sent-event framing.
use vstd::prelude::*;
use crate::executor::{outcome_matches, ExecutionError, Scheduler, StepResult};
use crate::plan::Plan;
use crate::text::{decimal, decimal_spec, joined};

verus! {

/// Payload of the frame that ends every stream.
pub const SSE_DONE_SIGNAL: &'static str = "[DONE]";

/// One event of an orchestration stream.
#[derive(Clone, Debug, PartialEq, Eq)]
pub enum OrchestrationEvent {
    PlanGenerated { step_count: usize, estimated_tokens: usize, estimated_time_secs: usize },
    StepStart { step_id: String, step_number: u32, task: String },
    StepComplete { step_id: String, step_number: u32, output: String },
    StepError { step_id: String, step_number: u32, error: String },
    ExecutionComplete { total_steps: usize, successful_steps: usize },
    ExecutionError { error: String },
}

/// `data: <payload>` and a blank line.
pub open spec fn frame_spec(payload: Seq<char>) -> Seq<char> {
    "data: "@ + payload + "\n\n"@
}

/// Frames one payload.
pub fn sse_frame(payload: &str) -> (r: String)
    ensures
        r@ == frame_spec(payload@),
{
    let a = joined("data: ", payload);
    joined(a.as_str(), "\n\n")
}

/// Frames each payload in order and ends the stream with the `[DONE]` frame.
pub fn frame_stream(payloads: &Vec<String>) -> (r: Vec<String>)
    ensures
        r.len() == payloads.len() + 1,
        forall|i: int| 0 <= i < payloads.len() ==> (#[trigger] r@[i])@ == frame_spec(payloads@[i]@),
        r@[payloads.len() as int]@ == frame_spec(SSE_DONE_SIGNAL@),
{
    let mut r: Vec<String> = Vec::new();
    let mut i: usize = 0;
    while i < payloads.len()
        invariant
            i <= payloads.len(),
            r.len() == i,
            forall|j: int| 0 <= j < i ==> (#[trigger] r@[j])@ == frame_spec(payloads@[j]@),
        decreases payloads.len() - i,
    {
        r.push(sse_frame(payloads[i].as_str()));
        i = i + 1;
    }
    r.push(sse_frame(SSE_DONE_SIGNAL));
    r
}

/// The first events of a run: the plan summary, then a start event for every step in
/// declaration order.
pub fn opening_events(plan: &Plan, estimated_tokens: usize, estimated_time_secs: usize) -> (r: Vec<OrchestrationEvent>)
    requires
        plan.steps.len() < u32::MAX,
    ensures
        r.len() == plan.steps.len() + 1,
        r@[0] == (OrchestrationEvent::PlanGenerated {
            step_count: plan.steps.len(),
            estimated_tokens,
            estimated_time_secs,
        }),
        forall|i: int|
            0 <= i < plan.steps.len() ==> ((#[trigger] r@[i + 1]) matches OrchestrationEvent::StepStart {
                step_id,
                step_number,
                task,
            } && step_id@ == plan.steps@[i].id@ && step_number == i + 1 && task@ == plan.steps@[i].task@),
{
    let mut r: Vec<OrchestrationEvent> = Vec::new();
    r.push(OrchestrationEvent::PlanGenerated { step_count: plan.steps.len(), estimated_tokens, estimated_time_secs });
    let mut i: usize = 0;
    while i < plan.steps.len()
        invariant
            i <= plan.steps.len(),
            plan.steps.len() < u32::MAX,
            r.len() == i + 1,
            r@[0] == (OrchestrationEvent::PlanGenerated {
                step_count: plan.steps.len(),
                estimated_tokens,
                estimated_time_secs,
            }),
            forall|j: int|
                0 <= j < i ==> ((#[trigger] r@[j + 1]) matches OrchestrationEvent::StepStart {
                    step_id,
                    step_number,
                    task,
                } && step_id@ == plan.steps@[j].id@ && step_number == j + 1 && task@ == plan.steps@[j].task@),
        decreases plan.steps.len() - i,
    {
        let s = &plan.steps[i];
        r.push(OrchestrationEvent::StepStart { step_id: s.id.clone(), step_number: (i + 1) as u32, task: s.task.clone() });
        i = i + 1;
    }
    r
}

/// What an execution error says.
pub open spec fn execution_error_message(e: ExecutionError, timeout_secs: nat) -> Seq<char> {
    match e {
        ExecutionError::Timeout => "Plan execution timed out after "@ + decimal_spec(timeout_secs)
            + " seconds"@,
        ExecutionError::TaskExecutionFailed { step_id, detail } => "Task execution failed in step '"@
            + step_id@ + "': "@ + detail@,
    }
}

pub fn execution_error_text(e: &ExecutionError, timeout_secs: u64) -> (r: String)
    ensures
        r@ == execution_error_message(*e, timeout_secs as nat),
{
    match e {
        ExecutionError::Timeout => {
            let a = joined("Plan execution timed out after ", decimal(timeout_secs).as_str());
            joined(a.as_str(), " seconds")
        },
        ExecutionError::TaskExecutionFailed { step_id, detail } => {
            let a = joined("Task execution failed in step '", step_id.as_str());
            let b = joined(a.as_str(), "': ");
            joined(b.as_str(), detail.as_str())
        },
    }
}

/// Every step produced output.
pub open spec fn all_succeeded(results: Seq<StepResult>) -> bool {
    forall|i: int| 0 <= i < results.len() ==> (#[trigger] results[i]).success
}

/// The end event of a run with this outcome.
pub open spec fn terminal_matches(outcome: Result<Vec<StepResult>, ExecutionError>, timeout_secs: nat, r: OrchestrationEvent) -> bool {
    match outcome {
        Ok(results) => if all_succeeded(results@) {
            r == (OrchestrationEvent::ExecutionComplete {
                total_steps: results.len(),
                successful_steps: results.len(),
            })
        } else {
            match r {
                OrchestrationEvent::ExecutionError { error } => exists|i: int|
                    0 <= i < results.len() && !(#[trigger] results@[i]).success && (forall|j: int|
                        0 <= j < i ==> (#[trigger] results@[j]).success) && error@ == match results@[i].error {
                        Some(m) => m@,
                        None => Seq::<char>::empty(),
                    },
                _ => false,
            }
        },
        Err(e) => match r {
            OrchestrationEvent::ExecutionError { error } => error@ == execution_error_message(e, timeout_secs),
            _ => false,
        },
    }
}

/// A run in which a task failed ends with an execution error, never with completion; the
/// framed stream then ends with `[DONE]` (see [`frame_stream`]).
pub proof fn lemma_failed_run_ends_in_error(
    s: Scheduler,
    plan: Plan,
    outcome: Result<Vec<StepResult>, ExecutionError>,
    timeout_secs: nat,
    ev: OrchestrationEvent,
)
    requires
        s.failure is Some,
        outcome_matches(s, plan, outcome),
        terminal_matches(outcome, timeout_secs, ev),
    ensures
        ev is ExecutionError,
{
}

/// The event that ends a run: completion when every step produced output, else the error.
/// The first step without output makes the run an error that carries that step's message.
pub fn terminal_event(outcome: &Result<Vec<StepResult>, ExecutionError>, timeout_secs: u64) -> (r: OrchestrationEvent)
    ensures
        terminal_matches(*outcome, timeout_secs as nat, r),
{
    match outcome {
        Ok(results) => {
            let mut i: usize = 0;
            while i < results.len()
                invariant
                    i <= results.len(),
                    *outcome == Ok::<Vec<StepResult>, ExecutionError>(*results),
                    forall|j: int| 0 <= j < i ==> (#[trigger] results@[j]).success,
                decreases results.len() - i,
            {
                if !results[i].success {
                    let error = match &results[i].error {
                        Some(e) => e.clone(),
                        None => String::new(),
                    };
                    proof {
                        assert(!results@[i as int].success);
                        assert(error@ == match results@[i as int].error {
                            Some(m) => m@,
                            None => Seq::<char>::empty(),
                        });
                    }
                    return OrchestrationEvent::ExecutionError { error };
                }
                i = i + 1;
            }
            OrchestrationEvent::ExecutionComplete { total_steps: results.len(), successful_steps: results.len() }
        },
        Err(e) => OrchestrationEvent::ExecutionError { error: execution_error_text(e, timeout_secs) },
    }
}

/// The event for a step that finished, or for one that failed.
pub fn step_event(step_id: &String, step_number: u32, result: &Result<String, String>) -> (r: OrchestrationEvent)
    ensures
        match result {
            Ok(o) => r == (OrchestrationEvent::StepComplete { step_id: *step_id, step_number, output: *o }),
            Err(e) => r == (OrchestrationEvent::StepError { step_id: *step_id, step_number, error: *e }),
        },
{
    match result {
        Ok(o) => OrchestrationEvent::StepComplete { step_id: step_id.clone(), step_number, output: o.clone() },
        Err(e) => OrchestrationEvent::StepError { step_id: step_id.clone(), step_number, error: e.clone() },
    }
}

/// A stream whose planning failed: the error, then the end frame follows.
pub fn planning_failed_event(cause: &str) -> (r: OrchestrationEvent)
    ensures
        r matches OrchestrationEvent::ExecutionError { error } && error@ == "Planning failed: "@ + cause@,
{
    OrchestrationEvent::ExecutionError { error: joined("Planning failed: ", cause) }
}

} // verus!
