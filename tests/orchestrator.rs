use orchestrator::config::{create_executor, Config, ExecutionConfig, PersistenceConfig, ServerConfig};
use orchestrator::context::ExecutionContext;
use orchestrator::executor::StepResult;
use orchestrator::llm::build_meta_prompt;
use orchestrator::optimizer::{analyze_bottlenecks, estimate_execution_time, estimate_token_usage};
use orchestrator::plan::{Plan, Step, StepParams};
use orchestrator::agents::{validate_query, MAX_QUERY_LENGTH};

#[test]
fn test_validate_query() {
    assert!(validate_query("").is_err());
    assert!(validate_query("   ").is_err());
    assert!(validate_query("test").is_ok());
    assert!(validate_query("  test  ").is_ok());
    let long_query = "a".repeat(MAX_QUERY_LENGTH + 1);
    assert!(validate_query(&long_query).is_err());
    let max_query = "a".repeat(MAX_QUERY_LENGTH);
    assert!(validate_query(&max_query).is_ok());
}

#[test]
fn test_create_executor() {
    let executor = create_executor(None);
    assert_eq!(executor.timeout(), 30);
    let config = Config {
        server: ServerConfig { port: 8080, host: "0.0.0.0".to_string() },
        persistence: PersistenceConfig { data_dir: "/tmp".to_string() },
        execution: ExecutionConfig { default_timeout_secs: 60 },
    };
    let executor = create_executor(Some(&config));
    assert_eq!(executor.timeout(), 60);
}

#[test]
fn test_execute_plan_empty_steps() {
    let plan = Plan { version: "1.0".to_string(), steps: vec![] };
    assert!(plan.steps.is_empty());
}

#[test]
fn test_step_result_structure() {
    let result = StepResult {
        step_id: "step_1".to_string(),
        step_number: 1,
        success: true,
        output: Some("test output".to_string()),
        error: None,
    };
    assert_eq!(result.step_id, "step_1");
    assert_eq!(result.step_number, 1);
    assert!(result.success);
    assert_eq!(result.output, Some("test output".to_string()));
    assert_eq!(result.error, None);
}

#[test]
fn test_step_result_failure_structure() {
    let result = StepResult {
        step_id: "step_1".to_string(),
        step_number: 1,
        success: false,
        output: None,
        error: Some("test error".to_string()),
    };
    assert_eq!(result.step_id, "step_1");
    assert_eq!(result.step_number, 1);
    assert!(!result.success);
    assert_eq!(result.output, None);
    assert_eq!(result.error, Some("test error".to_string()));
}

fn step(id: &str, task: &str, prompt: Option<&str>, deps: &[&str]) -> Step {
    Step {
        id: id.to_string(),
        task: task.to_string(),
        params: StepParams { prompt: prompt.map(|p| p.to_string()), ..Default::default() },
        dependencies: deps.iter().map(|d| d.to_string()).collect(),
    }
}

#[test]
fn test_estimate_token_usage() {
    let plan = Plan {
        version: "1.0".to_string(),
        steps: vec![
            step("step_1", "run_gemini", Some("Test prompt with 30 chars"), &[]),
            step("step_2", "create_file", None, &["step_1"]),
        ],
    };
    let tokens = estimate_token_usage(&plan);
    assert!(tokens > 0);
    assert!(tokens > 150);
}

#[test]
fn test_estimate_execution_time() {
    let plan = Plan {
        version: "1.0".to_string(),
        steps: vec![
            step("step_1", "run_gemini", Some("Test"), &[]),
            step("step_2", "create_file", None, &["step_1"]),
        ],
    };
    assert_eq!(estimate_execution_time(&plan), 4);
}

#[test]
fn test_analyze_bottlenecks() {
    let plan = Plan {
        version: "1.0".to_string(),
        steps: vec![
            step("step_1", "run_gemini", Some("Test 1"), &[]),
            step("step_2", "run_gemini", Some("Test 2"), &[]),
            step("step_3", "run_gemini", Some("Test 3"), &[]),
            step("step_4", "create_file", None, &["step_1", "step_2", "step_3"]),
        ],
    };
    let analysis = analyze_bottlenecks(&plan);
    assert_eq!(analysis.independent_steps, 3);
    assert!(analysis.high_dependency_steps.contains(&"step_4".to_string()));
}

#[test]
fn test_meta_prompt_structure() {
    let prompt = build_meta_prompt("Test goal");
    assert!(prompt.contains("planner agent"));
    assert!(prompt.contains("run_gemini"));
    assert!(prompt.contains("create_file"));
    assert!(prompt.contains("Test goal"));
    assert!(prompt.contains("\"version\":"));
    assert!(prompt.contains("\"steps\":"));
}

#[test]
fn test_build_meta_prompt_includes_goal() {
    let goal = "My test goal";
    let prompt = build_meta_prompt(goal);
    assert!(prompt.contains(goal));
}

#[test]
fn test_build_meta_prompt_includes_tools() {
    let prompt = build_meta_prompt("test");
    assert!(prompt.contains("run_gemini"));
    assert!(prompt.contains("create_file"));
}

#[test]
fn test_build_meta_prompt_requires_dependencies() {
    let prompt = build_meta_prompt("test");
    assert!(prompt.contains("dependencies"));
    assert!(prompt.contains("EVERY step MUST have"));
    assert!(prompt.contains(r#""dependencies": []"#) || prompt.contains("\"dependencies\": []"));
}

#[test]
fn test_build_meta_prompt_includes_parallel_example() {
    let prompt = build_meta_prompt("test");
    assert!(prompt.contains("Parallel Plan"));
    assert!(prompt.contains("can run simultaneously"));
}

#[test]
fn test_build_meta_prompt_includes_sequential_example() {
    let prompt = build_meta_prompt("test");
    assert!(prompt.contains("Sequential Plan"));
    assert!(prompt.contains("depends on"));
}

#[test]
fn test_execution_context() {
    let mut ctx = ExecutionContext::new(Some("/tmp".to_string()));
    ctx.set_output("step_1", "Hello, world!".to_string());
    assert_eq!(ctx.get_output("step_1"), Some(&"Hello, world!".to_string()));
    assert_eq!(ctx.get_output("step_2"), None);
    assert_eq!(ctx.working_dir(), Some("/tmp"));
}
