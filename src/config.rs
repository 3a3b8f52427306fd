//! Service and orchestrator configuration.
use vstd::prelude::*;
use crate::text::{bytes_exceed, decimal, decimal_spec, joined, owned};
use vstd::utf8::encode_utf8;

verus! {

/// Where the HTTP server listens.
#[derive(Clone, Debug)]
pub struct ServerConfig {
    pub port: u16,
    pub host: String,
}

/// Where state is persisted.
#[derive(Clone, Debug)]
pub struct PersistenceConfig {
    pub data_dir: String,
}

/// Limits of agent command execution.
#[derive(Clone, Debug)]
pub struct ExecutionConfig {
    pub default_timeout_secs: u64,
}

/// Service configuration.
#[derive(Clone, Debug)]
pub struct Config {
    pub server: ServerConfig,
    pub persistence: PersistenceConfig,
    pub execution: ExecutionConfig,
}

impl Config {
    /// `host:port`.
    pub fn server_addr(&self) -> (r: String)
        ensures
            r@ == self.server.host@ + ":"@ + decimal_spec(self.server.port as nat),
    {
        let a = joined(self.server.host.as_str(), ":");
        joined(a.as_str(), decimal(self.server.port as u64).as_str())
    }
}

/// The mutable settings of the orchestrator.
#[derive(Clone, Debug)]
pub struct OrchestratorConfig {
    pub gemini_timeout_secs: u64,
    pub gemini_model: String,
    pub gemini_api_base_url: String,
    pub max_goal_length: usize,
    pub plan_timeout_secs: u64,
    pub max_parallel_tasks: usize,
}

pub const DEFAULT_GEMINI_MODEL: &'static str = "gemini-2.5-flash";

pub const DEFAULT_GEMINI_API_BASE_URL: &'static str = "https://generativelanguage.googleapis.com/v1beta";

impl Default for OrchestratorConfig {
    fn default() -> (r: Self)
        ensures
            r.gemini_timeout_secs == 30,
            r.gemini_model@ == DEFAULT_GEMINI_MODEL@,
            r.gemini_api_base_url@ == DEFAULT_GEMINI_API_BASE_URL@,
            r.max_goal_length == 10000,
            r.plan_timeout_secs == 300,
            r.max_parallel_tasks == 10,
    {
        OrchestratorConfig {
            gemini_timeout_secs: 30,
            gemini_model: owned(DEFAULT_GEMINI_MODEL),
            gemini_api_base_url: owned(DEFAULT_GEMINI_API_BASE_URL),
            max_goal_length: 10000,
            plan_timeout_secs: 300,
            max_parallel_tasks: 10,
        }
    }
}

/// A partial update of the orchestrator settings.
#[derive(Clone, Debug, Default)]
pub struct ConfigUpdateRequest {
    pub max_parallel_tasks: Option<usize>,
    pub gemini_model: Option<String>,
    pub max_goal_length: Option<usize>,
    pub plan_timeout_secs: Option<u64>,
}

/// The field of an update that was refused.
#[derive(Clone, Copy, Debug, PartialEq, Eq, Structural)]
pub enum ConfigError {
    MaxParallelTasksZero,
    GeminiModelEmpty,
    MaxGoalLengthZero,
    PlanTimeoutZero,
}

impl ConfigError {
    /// What the refusal says.
    pub fn message(&self) -> (r: &'static str)
        ensures
            r@ == config_error_message(*self)@,
    {
        match self {
            ConfigError::MaxParallelTasksZero => "max_parallel_tasks must be > 0",
            ConfigError::GeminiModelEmpty => "gemini_model cannot be empty",
            ConfigError::MaxGoalLengthZero => "max_goal_length must be > 0",
            ConfigError::PlanTimeoutZero => "plan_timeout_secs must be > 0",
        }
    }
}

pub open spec fn config_error_message(e: ConfigError) -> &'static str {
    match e {
        ConfigError::MaxParallelTasksZero => "max_parallel_tasks must be > 0",
        ConfigError::GeminiModelEmpty => "gemini_model cannot be empty",
        ConfigError::MaxGoalLengthZero => "max_goal_length must be > 0",
        ConfigError::PlanTimeoutZero => "plan_timeout_secs must be > 0",
    }
}

/// The first field of the request that is refused, in field order.
pub open spec fn first_bad_field(req: ConfigUpdateRequest) -> Option<ConfigError> {
    if req.max_parallel_tasks == Some(0usize) {
        Some(ConfigError::MaxParallelTasksZero)
    } else if req.gemini_model is Some && req.gemini_model->0@.len() == 0 {
        Some(ConfigError::GeminiModelEmpty)
    } else if req.max_goal_length == Some(0usize) {
        Some(ConfigError::MaxGoalLengthZero)
    } else if req.plan_timeout_secs == Some(0u64) {
        Some(ConfigError::PlanTimeoutZero)
    } else {
        None
    }
}

/// Applies every field present in the request, after checking that each integer is positive
/// and the model name is not empty; the first refused field is reported and nothing changes.
pub fn validate_and_apply_config_update(config: OrchestratorConfig, request: ConfigUpdateRequest) -> (r:
    Result<OrchestratorConfig, ConfigError>)
    ensures
        match first_bad_field(request) {
            Some(e) => r == Err::<OrchestratorConfig, ConfigError>(e),
            None => r matches Ok(c) && c.max_parallel_tasks == (match request.max_parallel_tasks {
                Some(v) => v,
                None => config.max_parallel_tasks,
            }) && c.gemini_model == (match request.gemini_model {
                Some(v) => v,
                None => config.gemini_model,
            }) && c.max_goal_length == (match request.max_goal_length {
                Some(v) => v,
                None => config.max_goal_length,
            }) && c.plan_timeout_secs == (match request.plan_timeout_secs {
                Some(v) => v,
                None => config.plan_timeout_secs,
            }) && c.gemini_timeout_secs == config.gemini_timeout_secs && c.gemini_api_base_url
                == config.gemini_api_base_url,
        },
{
    let mut config = config;
    if let Some(v) = request.max_parallel_tasks {
        if v == 0 {
            return Err(ConfigError::MaxParallelTasksZero);
        }
        config.max_parallel_tasks = v;
    }
    if let Some(m) = request.gemini_model {
        if m.as_str().is_empty() {
            return Err(ConfigError::GeminiModelEmpty);
        }
        config.gemini_model = m;
    }
    if let Some(v) = request.max_goal_length {
        if v == 0 {
            return Err(ConfigError::MaxGoalLengthZero);
        }
        config.max_goal_length = v;
    }
    if let Some(v) = request.plan_timeout_secs {
        if v == 0 {
            return Err(ConfigError::PlanTimeoutZero);
        }
        config.plan_timeout_secs = v;
    }
    Ok(config)
}

/// Runs agent commands with a default timeout.
#[derive(Clone, Copy, Debug)]
pub struct CliExecutor {
    pub default_timeout_secs: u64,
}

impl CliExecutor {
    pub fn new(default_timeout_secs: u64) -> (r: Self)
        ensures
            r.default_timeout_secs == default_timeout_secs,
    {
        CliExecutor { default_timeout_secs }
    }

    /// The default timeout, in seconds.
    pub fn timeout(&self) -> (r: u64)
        ensures
            r == self.default_timeout_secs,
    {
        self.default_timeout_secs
    }
}

/// Streams the output of agent commands, with a default timeout.
#[derive(Clone, Copy, Debug)]
pub struct StreamingCliExecutor {
    pub default_timeout_secs: u64,
}

impl StreamingCliExecutor {
    pub fn new(default_timeout_secs: u64) -> (r: Self)
        ensures
            r.default_timeout_secs == default_timeout_secs,
    {
        StreamingCliExecutor { default_timeout_secs }
    }
}

/// An executor with the configured timeout, or 30 seconds without a configuration.
pub fn create_executor(config: Option<&Config>) -> (r: CliExecutor)
    ensures
        r.default_timeout_secs == match config {
            Some(c) => c.execution.default_timeout_secs,
            None => 30,
        },
{
    match config {
        Some(c) => CliExecutor::new(c.execution.default_timeout_secs),
        None => CliExecutor::new(30),
    }
}

/// A goal is refused when its UTF-8 encoding is longer than the configured bound.
pub fn validate_goal(goal: &str, config: &OrchestratorConfig) -> (r: Result<(), String>)
    ensures
        r is Ok <==> encode_utf8(goal@).len() <= config.max_goal_length,
        r matches Err(m) ==> m@ == "Goal too long"@,
{
    if bytes_exceed(goal, config.max_goal_length) {
        return Err(owned("Goal too long"));
    }
    Ok(())
}

} // verus!
