//! Plan validation, analysis and scheduling for a goal-to-plan orchestrator, with the
//! protocols around it, each function proved against its contract.
use vstd::prelude::*;

pub mod agents;
pub mod bridge;
pub mod chat;
pub mod config;
pub mod context;
pub mod dag;
pub mod digest;
pub mod events;
pub mod executor;
pub mod graph;
pub mod llm;
pub mod optimizer;
pub mod plan;
pub mod tasks;
pub mod text;

verus! {

} // verus!
