use orchestrator::agents::validate_query;
use orchestrator::bridge::SessionTable;
use orchestrator::config::validate_goal;
use orchestrator::llm::prepare_call;
use orchestrator::chat::{MessageRole, TerminalOutput};
use orchestrator::digest::{hash_goal, hash_plan};
use orchestrator::bridge::{interpret_response, pool_action, BridgeError, BridgeResponse, PoolAction};
use orchestrator::config::{validate_and_apply_config_update, Config, ConfigError, ConfigUpdateRequest, ExecutionConfig, OrchestratorConfig, PersistenceConfig, ServerConfig};
use orchestrator::context::ExecutionContext;
use orchestrator::events::{frame_stream, opening_events, sse_frame, terminal_event, OrchestrationEvent};
use orchestrator::executor::{ExecutionError, Scheduler, TaskState};
use orchestrator::graph::{build_graph_from_plan, extract_edges, find_start_step_id, get_all_referenced_step_ids, ContentSource, TaskNode};
use orchestrator::llm::{classify_status, extract_text, planner_next, Candidate, Content, GeminiApiResponse, GeminiError, Part, PlannerDecision, PlanningError};
use orchestrator::optimizer::{analyze_bottlenecks, estimate_token_usage};
use orchestrator::plan::{Plan, PlanError, PlanRule, Step, StepParams};
use orchestrator::tasks::{prepare_file_write, TaskError};

fn gemini(id: &str, prompt: &str, deps: &[&str]) -> Step {
    Step {
        id: id.to_string(),
        task: "run_gemini".to_string(),
        params: StepParams { prompt: Some(prompt.to_string()), ..Default::default() },
        dependencies: deps.iter().map(|d| d.to_string()).collect(),
    }
}

fn file(id: &str, name: &str, from: &str, deps: &[&str]) -> Step {
    Step {
        id: id.to_string(),
        task: "create_file".to_string(),
        params: StepParams {
            filename: Some(name.to_string()),
            content_from: Some(format!("{}.output", from)),
            ..Default::default()
        },
        dependencies: deps.iter().map(|d| d.to_string()).collect(),
    }
}

fn plan(steps: Vec<Step>) -> Plan {
    Plan { version: "1.0".to_string(), steps }
}

#[test]
fn sequential_plan_runs_in_order() {
    let p = plan(vec![gemini("s1", "Write 4-line poem", &[]), file("s2", "poem.txt", "s1", &["s1"])]);
    assert!(p.validate().is_ok());
    let mut s = Scheduler::new(&p, 10).unwrap();
    assert_eq!(s.start_ready(), vec![0]);
    assert!(s.complete(0, "Roses are red…".to_string()));
    assert_eq!(s.start_ready(), vec![1]);
    let mut ctx = ExecutionContext::new(Some("/work".to_string()));
    ctx.set_output("s1.output", "Roses are red…".to_string());
    let content = prepare_file_write("s2", "poem.txt", &ContentSource::From("s1".to_string()), &ctx).unwrap();
    assert_eq!(content, "Roses are red…");
    assert!(s.complete(1, "/work/poem.txt".to_string()));
    assert!(s.is_finished());
    let results = s.outcome(&p).unwrap();
    assert_eq!(results.len(), 2);
    assert!(results[0].success && results[1].success);
    assert_eq!(results[1].output, Some("/work/poem.txt".to_string()));
    let outcome: Result<_, ExecutionError> = Ok(results);
    assert_eq!(terminal_event(&outcome, 300), OrchestrationEvent::ExecutionComplete { total_steps: 2, successful_steps: 2 });
    let events = opening_events(&p, 100, 4);
    assert_eq!(events.len(), 3);
    assert_eq!(events[2], OrchestrationEvent::StepStart { step_id: "s2".to_string(), step_number: 2, task: "create_file".to_string() });
}

#[test]
fn independent_steps_start_together_within_bound() {
    let p = plan(vec![gemini("s1", "a", &[]), gemini("s2", "b", &[]), gemini("s3", "c", &[])]);
    let mut s = Scheduler::new(&p, 3).unwrap();
    assert_eq!(s.start_ready(), vec![0, 1, 2]);
    let mut t = Scheduler::new(&p, 2).unwrap();
    assert_eq!(t.start_ready(), vec![0, 1]);
    assert_eq!(t.running, 2);
    assert!(t.start_ready().is_empty());
    assert!(t.complete(1, "b".to_string()));
    assert_eq!(t.start_ready(), vec![2]);
}

#[test]
fn diamond_fails_fast() {
    let p = plan(vec![
        gemini("s1", "a", &[]),
        gemini("s2", "b", &["s1"]),
        gemini("s3", "c", &["s1"]),
        gemini("s4", "d", &["s2", "s3"]),
    ]);
    let mut s = Scheduler::new(&p, 10).unwrap();
    assert_eq!(s.start_ready(), vec![0]);
    assert!(s.complete(0, "x".to_string()));
    assert_eq!(s.start_ready(), vec![1, 2]);
    assert!(s.fail(1, "boom".to_string()));
    assert_eq!(s.states[3], TaskState::Cancelled);
    assert!(!s.complete(2, "y".to_string()));
    assert!(s.start_ready().is_empty());
    assert!(s.is_finished());
    let outcome = s.outcome(&p);
    assert_eq!(outcome, Err(ExecutionError::TaskExecutionFailed { step_id: "s2".to_string(), detail: "boom".to_string() }));
}

#[test]
fn content_from_without_dependency_is_rejected() {
    let p = plan(vec![gemini("s1", "a", &[]), file("s2", "out.txt", "s1", &[])]);
    let e = p.validate().unwrap_err();
    assert_eq!(e.rule(), PlanRule::ContentFromDeclared);
    let d = planner_next(1, Err(PlanningError::Invalid(e.clone())));
    assert_eq!(d, PlannerDecision::Retry);
    let d = planner_next(2, Err(PlanningError::Invalid(e.clone())));
    assert_eq!(d, PlannerDecision::Fail(PlanningError::Invalid(e)));
}

#[test]
fn timeout_cancels_running_tasks() {
    let p = plan(vec![gemini("s1", "hang", &[])]);
    let mut s = Scheduler::new(&p, 10).unwrap();
    assert_eq!(s.start_ready(), vec![0]);
    s.time_out();
    assert_eq!(s.states[0], TaskState::Cancelled);
    assert_eq!(s.running, 0);
    let outcome = s.outcome(&p);
    assert_eq!(outcome, Err(ExecutionError::Timeout));
    match terminal_event(&outcome, 1) {
        OrchestrationEvent::ExecutionError { error } => assert_eq!(error, "Plan execution timed out after 1 seconds"),
        other => panic!("unexpected {:?}", other),
    }
}

#[test]
fn path_traversal_is_rejected() {
    let p = plan(vec![gemini("s1", "a", &[]), file("s2", "../etc/passwd", "s1", &["s1"])]);
    match p.validate() {
        Err(e @ PlanError::InvalidFilename { .. }) => {
            assert!(e.message().contains("invalid path"));
            assert!(e.message().contains("path traversal"));
            if let PlanError::InvalidFilename { step_id, filename } = e {
                assert_eq!(step_id, "s2");
                assert_eq!(filename, "../etc/passwd");
            }
        }
        other => panic!("unexpected {:?}", other),
    }
    assert!(build_graph_from_plan(&p).is_err());
    let ctx = ExecutionContext::new(None);
    for bad in ["../x", "/abs", "a\0b", "tab\tname", "del\u{7f}", "c1\u{85}"] {
        let r = prepare_file_write("s", bad, &ContentSource::Literal("t".to_string()), &ctx);
        assert!(matches!(r, Err(TaskError::InvalidFilename { .. })), "{}", bad);
    }
    assert!(prepare_file_write("s", "dir/ok.txt", &ContentSource::Literal("t".to_string()), &ctx).is_ok());
}

#[test]
fn cycle_is_named() {
    let p = plan(vec![gemini("a", "x", &["c"]), gemini("b", "x", &["a"]), gemini("c", "x", &["b"]), gemini("d", "x", &[])]);
    match p.validate() {
        Err(PlanError::Cycle { step_ids }) => {
            assert_eq!(step_ids.len(), 3);
            for id in ["a", "b", "c"] {
                assert!(step_ids.contains(&id.to_string()));
            }
        }
        other => panic!("unexpected {:?}", other),
    }
    let q = plan(vec![gemini("a", "x", &["a"])]);
    assert_eq!(q.validate(), Err(PlanError::Cycle { step_ids: vec!["a".to_string()] }));
}

#[test]
fn each_rule_has_an_error() {
    assert_eq!(plan(vec![]).validate(), Err(PlanError::EmptyPlan));
    let dup = plan(vec![gemini("a", "x", &[]), gemini("a", "y", &[])]);
    assert_eq!(dup.validate().unwrap_err().rule(), PlanRule::UniqueIds);
    let mut unknown = gemini("a", "x", &[]);
    unknown.task = "deploy".to_string();
    assert_eq!(plan(vec![unknown]).validate(), Err(PlanError::UnknownTask { step_id: "a".to_string(), task: "deploy".to_string() }));
    assert_eq!(plan(vec![gemini("a", "   ", &[])]).validate(), Err(PlanError::InvalidParams { step_id: "a".to_string() }));
    assert_eq!(
        plan(vec![gemini("a", "x", &["zz"])]).validate(),
        Err(PlanError::UnknownDependency { step_id: "a".to_string(), dependency: "zz".to_string() })
    );
}

#[test]
fn token_estimate_is_exact_and_grows() {
    let one = plan(vec![gemini("s1", "0123456789", &[])]);
    assert_eq!(estimate_token_usage(&one), 113);
    let two = plan(vec![gemini("s1", "0123456789", &[]), gemini("s2", "0123456789", &[])]);
    assert_eq!(estimate_token_usage(&two), 226);
    let mixed = plan(vec![gemini("s1", "abc", &[]), file("s2", "f", "s1", &["s1"])]);
    assert_eq!(estimate_token_usage(&mixed), 104 + 50);
}

#[test]
fn longest_chain_counts_steps() {
    let p = plan(vec![
        gemini("s1", "a", &[]),
        gemini("s2", "b", &["s1"]),
        gemini("s3", "c", &["s1"]),
        gemini("s4", "d", &["s2", "s3"]),
    ]);
    let a = analyze_bottlenecks(&p);
    assert_eq!(a.longest_chain_length, 3);
    assert_eq!(a.independent_steps, 1);
    assert!(a.high_dependency_steps.is_empty());
}

#[test]
fn frames_end_with_done() {
    assert_eq!(sse_frame("{\"a\":1}"), "data: {\"a\":1}\n\n");
    let frames = frame_stream(&vec!["x".to_string(), "y".to_string()]);
    assert_eq!(frames, vec!["data: x\n\n".to_string(), "data: y\n\n".to_string(), "data: [DONE]\n\n".to_string()]);
}

#[test]
fn graph_of_sequential_plan() {
    let p = plan(vec![gemini("s1", "Write", &[]), file("s2", "poem.txt", "s1", &["s1"])]);
    let g = build_graph_from_plan(&p).unwrap();
    assert_eq!(g.graph_id, "plan_execution");
    assert_eq!(g.start_task_id, "s1");
    assert_eq!(g.edges, vec![("s1".to_string(), "s2".to_string())]);
    assert_eq!(
        g.tasks[1],
        TaskNode::CreateFile { step_id: "s2".to_string(), filename: "poem.txt".to_string(), source: ContentSource::From("s1".to_string()) }
    );
    assert_eq!(extract_edges(&p).len(), 1);
    assert_eq!(find_start_step_id(&p), Some("s1".to_string()));
    assert_eq!(get_all_referenced_step_ids(&p), vec!["s1".to_string()]);
}

#[test]
fn config_updates_are_checked() {
    let base = OrchestratorConfig::default();
    let bad = ConfigUpdateRequest { max_parallel_tasks: Some(0), ..Default::default() };
    assert_eq!(validate_and_apply_config_update(base.clone(), bad).unwrap_err(), ConfigError::MaxParallelTasksZero);
    let bad = ConfigUpdateRequest { gemini_model: Some(String::new()), ..Default::default() };
    assert_eq!(validate_and_apply_config_update(base.clone(), bad).unwrap_err(), ConfigError::GeminiModelEmpty);
    let bad = ConfigUpdateRequest { max_goal_length: Some(0), ..Default::default() };
    assert_eq!(validate_and_apply_config_update(base.clone(), bad).unwrap_err(), ConfigError::MaxGoalLengthZero);
    let bad = ConfigUpdateRequest { plan_timeout_secs: Some(0), ..Default::default() };
    assert_eq!(validate_and_apply_config_update(base.clone(), bad).unwrap_err(), ConfigError::PlanTimeoutZero);
    let good = ConfigUpdateRequest { max_parallel_tasks: Some(4), gemini_model: Some("m".to_string()), ..Default::default() };
    let c = validate_and_apply_config_update(base, good).unwrap();
    assert_eq!(c.max_parallel_tasks, 4);
    assert_eq!(c.gemini_model, "m");
    assert_eq!(c.plan_timeout_secs, 300);
    let cfg = Config {
        server: ServerConfig { port: 8080, host: "0.0.0.0".to_string() },
        persistence: PersistenceConfig { data_dir: "/tmp".to_string() },
        execution: ExecutionConfig { default_timeout_secs: 30 },
    };
    assert_eq!(cfg.server_addr(), "0.0.0.0:8080");
}

#[test]
fn bridge_replies_are_read() {
    let ok = BridgeResponse { status: "success".to_string(), data: Some("hi".to_string()), message: None };
    assert_eq!(interpret_response(ok), Ok("hi".to_string()));
    let err = BridgeResponse { status: "error".to_string(), data: None, message: None };
    assert_eq!(interpret_response(err), Err(BridgeError::Remote("Unknown error".to_string())));
    let odd = BridgeResponse { status: "weird".to_string(), data: None, message: None };
    assert_eq!(interpret_response(odd), Err(BridgeError::Protocol("weird".to_string())));
    assert_eq!(pool_action(true, false), PoolAction::Replace);
    assert_eq!(pool_action(false, false), PoolAction::Create);
}

#[test]
fn model_replies_are_read() {
    assert_eq!(classify_status(429, "slow".to_string()), Some(GeminiError::RateLimited { status: 429, body: "slow".to_string() }));
    assert_eq!(classify_status(200, String::new()), None);
    let none = GeminiApiResponse { candidates: vec![], prompt_feedback: None };
    assert_eq!(extract_text(&none), Err(GeminiError::NoCandidates));
    let one = GeminiApiResponse {
        candidates: vec![Candidate {
            content: Content { parts: vec![Part { text: "Roses".to_string() }], role: "model".to_string() },
            finish_reason: None,
        }],
        prompt_feedback: None,
    };
    assert_eq!(extract_text(&one), Ok("Roses".to_string()));
}

#[test]
fn goal_and_plan_tags_are_short_hex() {
    let a = hash_goal("write a poem");
    let mut h = std::collections::hash_map::DefaultHasher::new();
    std::hash::Hash::hash("write a poem", &mut h);
    let full = format!("{:x}", std::hash::Hasher::finish(&h));
    assert_eq!(a, full.chars().take(8).collect::<String>());
    assert!(a.len() <= 8);
    assert!(a.chars().all(|c| c.is_ascii_hexdigit() && !c.is_ascii_uppercase()));
    assert_eq!(a, hash_goal("write a poem"));
    assert_ne!(a, "write a ");
    assert_ne!(hash_goal("write a poem"), hash_goal("write a song"));
    let p = plan(vec![gemini("s1", "a", &[])]);
    let t = hash_plan(&p);
    assert!(!t.is_empty() && t.len() <= 8);
    assert_eq!(t, hash_plan(&p));
}

#[test]
fn terminal_output_keeps_latest_lines() {
    let mut out = TerminalOutput::new(2);
    out.add_line("a".to_string());
    out.add_line("b".to_string());
    out.add_line("c".to_string());
    assert_eq!(out.lines, vec!["b".to_string(), "c".to_string()]);
    out.clear();
    assert!(out.lines.is_empty());
    assert_eq!(MessageRole::Assistant.as_str(), "assistant");
    assert_eq!(MessageRole::parse("assistant"), MessageRole::Assistant);
    assert_eq!(MessageRole::parse("other"), MessageRole::User);
}

#[test]
fn query_limit_counts_bytes() {
    let wide = "\u{e9}".repeat(6000);
    assert!(validate_query(&wide).is_err());
    let narrow = "\u{e9}".repeat(5000);
    assert!(validate_query(&narrow).is_ok());
    let cfg = OrchestratorConfig::default();
    assert!(validate_goal(&"a".repeat(10000), &cfg).is_ok());
    assert_eq!(validate_goal(&"\u{e9}".repeat(5001), &cfg), Err("Goal too long".to_string()));
}

#[test]
fn missing_key_refuses_the_call() {
    assert_eq!(prepare_call("", "https://x", None, "m", "p", false).unwrap_err(), GeminiError::MissingKey);
    let (url, req) = prepare_call("k", "https://x", None, "gemini-2.5-flash", "hello", true).unwrap();
    assert_eq!(url, "https://x/models/gemini-2.5-flash:generateContent?key=k");
    assert_eq!(req.contents[0].parts[0].text, "hello");
    assert!(req.generation_config.is_some());
}

#[test]
fn session_table_replaces_dead_sessions() {
    let mut t = SessionTable::new();
    let a = "conv-a".to_string();
    let b = "conv-b".to_string();
    assert_eq!(t.begin_get_or_create(&a, false), PoolAction::Create);
    assert_eq!(t.finish_create(&a, Ok(1)), Ok(1));
    assert_eq!(t.begin_get_or_create(&b, false), PoolAction::Create);
    assert_eq!(t.finish_create(&b, Err("spawn failed".to_string())), Err("spawn failed".to_string()));
    assert_eq!(t.lookup(&b), None);
    assert_eq!(t.begin_get_or_create(&a, true), PoolAction::Reuse);
    assert_eq!(t.lookup(&a), Some(1));
    assert_eq!(t.finish_create(&b, Ok(7)), Ok(7));
    assert_eq!(t.begin_get_or_create(&a, false), PoolAction::Replace);
    assert_eq!(t.lookup(&a), None);
    assert_eq!(t.lookup(&b), Some(7));
    assert_eq!(t.session_count(), 1);
    assert_eq!(t.remove(&b), Some(7));
    assert_eq!(t.take_all(), Vec::<u64>::new());
}

#[test]
fn failure_outlives_a_later_timeout() {
    let p = plan(vec![gemini("s1", "a", &[]), gemini("s2", "b", &[])]);
    let mut s = Scheduler::new(&p, 10).unwrap();
    assert_eq!(s.start_ready(), vec![0, 1]);
    assert!(s.fail(0, "boom".to_string()));
    s.time_out();
    assert_eq!(s.outcome(&p), Err(ExecutionError::TaskExecutionFailed { step_id: "s1".to_string(), detail: "boom".to_string() }));
}

#[test]
fn messages_name_the_rule() {
    assert_eq!(plan(vec![]).validate().unwrap_err().message(), "Plan has no steps");
    let mut agent = orchestrator::agents::Agent::new("1".to_string(), " ".to_string(), orchestrator::agents::AgentType::Generic);
    assert_eq!(agent.validate(), Err("Agent name cannot be empty".to_string()));
    agent.name = "n".to_string();
    assert_eq!(agent.validate(), Err("Command cannot be empty".to_string()));
    assert!(orchestrator::agents::Agent::new("2".to_string(), "g".to_string(), orchestrator::agents::AgentType::Gemini).config.args == vec!["--yolo".to_string()]);
}
