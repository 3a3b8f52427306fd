//! The language-model side: the request and reply shapes of the content-generation call,
//! how a reply is read, the planner's prompt, and its retry rule.
use vstd::prelude::*;
use crate::plan::{validation_result, Plan, PlanError};
use crate::text::{joined, owned};

verus! {

/// Text before the goal in the planner's prompt.
pub const META_PROMPT_HEAD: &'static str = "You are a planner agent. Your job is to take a user's GOAL and break it down into a JSON plan with steps.\n\nAvailable Tools:\n1. run_gemini: Runs a prompt through Gemini and returns text output. Parameters: {\"prompt\": \"...\"}\n2. create_file: Saves text content to a file. Parameters: {\"filename\": \"...\", \"content_from\": \"step_X.output\"}\n\nOutput Format (JSON):\n{\n  \"version\": \"1.0\",\n  \"steps\": [\n    {\n      \"id\": \"step_1\",\n      \"task\": \"run_gemini\",\n      \"params\": {\n        \"prompt\": \"...\"\n      },\n      \"dependencies\": []\n    },\n    {\n      \"id\": \"step_2\",\n      \"task\": \"create_file\",\n      \"params\": {\n        \"filename\": \"...\",\n        \"content_from\": \"step_1.output\"\n      },\n      \"dependencies\": [\"step_1\"]\n    }\n  ]\n}\n\nCRITICAL REQUIREMENT - Dependencies Array:\n- EVERY step MUST have a \"dependencies\" array (even if empty)\n- If a step has no prerequisites, use: \"dependencies\": []\n- If step_2 depends on step_1, use: \"dependencies\": [\"step_1\"]\n- Multiple dependencies: \"dependencies\": [\"step_1\", \"step_3\"]\n- If \"content_from\" references \"step_X.output\", then \"dependencies\" MUST include \"step_X\"\n\nImportant Rules:\n- Each step must have a unique \"id\" (e.g., \"step_1\", \"step_2\")\n- The \"task\" must be one of: \"run_gemini\", \"create_file\"\n- For \"create_file\" tasks, use \"content_from\" to reference another step's output (e.g., \"step_1.output\")\n- Steps with empty \"dependencies\" can run in parallel with other independent steps\n\nExamples:\n\nSequential Plan (step_2 depends on step_1):\n{\n  \"steps\": [\n    {\"id\": \"step_1\", \"task\": \"run_gemini\", \"params\": {\"prompt\": \"Write poem A\"}, \"dependencies\": []},\n    {\"id\": \"step_2\", \"task\": \"create_file\", \"params\": {\"filename\": \"poem.txt\", \"content_from\": \"step_1.output\"}, \"dependencies\": [\"step_1\"]}\n  ]\n}\n\nParallel Plan (step_1, step_2, step_3 can run simultaneously):\n{\n  \"steps\": [\n    {\"id\": \"step_1\", \"task\": \"run_gemini\", \"params\": {\"prompt\": \"Write poem about Rust\"}, \"dependencies\": []},\n    {\"id\": \"step_2\", \"task\": \"run_gemini\", \"params\": {\"prompt\": \"Write poem about Python\"}, \"dependencies\": []},\n    {\"id\": \"step_3\", \"task\": \"run_gemini\", \"params\": {\"prompt\": \"Write poem about Go\"}, \"dependencies\": []},\n    {\"id\": \"step_4\", \"task\": \"create_file\", \"params\": {\"filename\": \"combined.txt\", \"content_from\": \"step_1.output\"}, \"dependencies\": [\"step_1\", \"step_2\", \"step_3\"]}\n  ]\n}\n\nGOAL: \"";

/// Text after the goal in the planner's prompt.
pub const META_PROMPT_TAIL: &'static str = "\n\nGenerate a JSON plan with the steps needed to accomplish this goal. Remember: EVERY step MUST have a \"dependencies\" array. Return ONLY valid JSON, no other text.";

/// The planner's prompt around a goal.
pub fn build_meta_prompt(goal: &str) -> (r: String)
    ensures
        r@ == META_PROMPT_HEAD@ + goal@ + META_PROMPT_TAIL@,
{
    let a = joined(META_PROMPT_HEAD, goal);
    joined(a.as_str(), META_PROMPT_TAIL)
}

/// One part of a reply candidate.
#[derive(Clone, Debug)]
pub struct Part {
    pub text: String,
}

#[derive(Clone, Debug)]
pub struct Content {
    pub parts: Vec<Part>,
    pub role: String,
}

#[derive(Clone, Debug)]
pub struct Candidate {
    pub content: Content,
    pub finish_reason: Option<String>,
}

#[derive(Clone, Debug)]
pub struct PromptFeedback {
    pub block_reason: Option<String>,
}

/// A reply of the content-generation endpoint.
#[derive(Clone, Debug)]
pub struct GeminiApiResponse {
    pub candidates: Vec<Candidate>,
    pub prompt_feedback: Option<PromptFeedback>,
}

#[derive(Clone, Debug)]
pub struct RequestPart {
    pub text: String,
}

#[derive(Clone, Debug)]
pub struct RequestContent {
    pub parts: Vec<RequestPart>,
}

#[derive(Clone, Debug)]
pub struct GenerationConfig {
    pub response_mime_type: Option<String>,
}

/// A request to the content-generation endpoint.
#[derive(Clone, Debug)]
pub struct GeminiApiRequest {
    pub contents: Vec<RequestContent>,
    pub generation_config: Option<GenerationConfig>,
}

/// How a call to the language model failed.
#[derive(Clone, Debug, PartialEq, Eq)]
pub enum GeminiError {
    MissingKey,
    Transport(String),
    RateLimited { status: u16, body: String },
    HttpStatus { status: u16, body: String },
    Blocked(String),
    NoCandidates,
    NoParts,
    ParseError(String),
    EmptyResponse,
}

/// A one-prompt request; JSON mode asks for `application/json` replies.
pub fn build_request(prompt: &str, force_json: bool) -> (r: GeminiApiRequest)
    ensures
        r.contents.len() == 1,
        r.contents@[0].parts.len() == 1,
        r.contents@[0].parts@[0].text@ == prompt@,
        force_json ==> (r.generation_config matches Some(g) && g.response_mime_type matches Some(m)
            && m@ == "application/json"@),
        !force_json ==> r.generation_config is None,
{
    let mut parts: Vec<RequestPart> = Vec::new();
    parts.push(RequestPart { text: owned(prompt) });
    let mut contents: Vec<RequestContent> = Vec::new();
    contents.push(RequestContent { parts });
    let generation_config = if force_json {
        Some(GenerationConfig { response_mime_type: Some(owned("application/json")) })
    } else {
        None
    };
    GeminiApiRequest { contents, generation_config }
}

/// `<base>/models/<model>:generateContent?key=<key>`.
pub fn generate_content_url(base: &str, model: &str, api_key: &str) -> (r: String)
    ensures
        r@ == base@ + "/models/"@ + model@ + ":generateContent?key="@ + api_key@,
{
    let a = joined(base, "/models/");
    let b = joined(a.as_str(), model);
    let c = joined(b.as_str(), ":generateContent?key=");
    joined(c.as_str(), api_key)
}

/// The URL and body of one call, built only when there is an API key; the model defaults to
/// `default_model`. No request is made without a key.
pub fn prepare_call(api_key: &str, base: &str, model: Option<&str>, default_model: &str, prompt: &str, force_json: bool) -> (r:
    Result<(String, GeminiApiRequest), GeminiError>)
    ensures
        r is Err <==> api_key@.len() == 0,
        r matches Err(e) ==> e == GeminiError::MissingKey,
        r matches Ok((url, req)) ==> url@ == base@ + "/models/"@ + (match model {
            Some(m) => m@,
            None => default_model@,
        }) + ":generateContent?key="@ + api_key@ && req.contents.len() == 1
            && req.contents@[0].parts.len() == 1 && req.contents@[0].parts@[0].text@ == prompt@
            && (force_json <==> req.generation_config is Some),
{
    if api_key.is_empty() {
        return Err(GeminiError::MissingKey);
    }
    let m = match model {
        Some(m) => m,
        None => default_model,
    };
    let url = generate_content_url(base, m, api_key);
    let req = build_request(prompt, force_json);
    Ok((url, req))
}

/// The error an HTTP status means, if it is not a success: 429 is a rate limit.
pub fn classify_status(status: u16, body: String) -> (r: Option<GeminiError>)
    ensures
        200 <= status <= 299 ==> r is None,
        status == 429 ==> r == Some(GeminiError::RateLimited { status, body }),
        !(200 <= status <= 299) && status != 429 ==> r == Some(GeminiError::HttpStatus { status, body }),
{
    if 200 <= status && status <= 299 {
        None
    } else if status == 429 {
        Some(GeminiError::RateLimited { status, body })
    } else {
        Some(GeminiError::HttpStatus { status, body })
    }
}

/// The text of a reply: refused when the prompt was blocked, when there is no candidate or
/// part, or when the text is empty; else the first part of the first candidate.
pub fn extract_text(resp: &GeminiApiResponse) -> (r: Result<String, GeminiError>)
    ensures
        match resp.prompt_feedback {
            Some(PromptFeedback { block_reason: Some(reason) }) => r == Err::<String, GeminiError>(GeminiError::Blocked(reason)),
            _ => if resp.candidates.len() == 0 {
                r == Err::<String, GeminiError>(GeminiError::NoCandidates)
            } else if resp.candidates@[0].content.parts.len() == 0 {
                r == Err::<String, GeminiError>(GeminiError::NoParts)
            } else if resp.candidates@[0].content.parts@[0].text@.len() == 0 {
                r == Err::<String, GeminiError>(GeminiError::EmptyResponse)
            } else {
                r == Ok::<String, GeminiError>(resp.candidates@[0].content.parts@[0].text)
            },
        },
{
    if let Some(fb) = &resp.prompt_feedback {
        if let Some(reason) = &fb.block_reason {
            return Err(GeminiError::Blocked(reason.clone()));
        }
    }
    if resp.candidates.len() == 0 {
        return Err(GeminiError::NoCandidates);
    }
    let c = &resp.candidates[0];
    if c.content.parts.len() == 0 {
        return Err(GeminiError::NoParts);
    }
    let t = &c.content.parts[0].text;
    if t.as_str().is_empty() {
        return Err(GeminiError::EmptyResponse);
    }
    Ok(t.clone())
}

/// Why planning failed.
#[derive(Clone, Debug, PartialEq, Eq)]
pub enum PlanningError {
    /// The model could not be reached or refused.
    Model(GeminiError),
    /// The reply was not a plan.
    Parse(String),
    /// The plan broke a rule.
    Invalid(PlanError),
}

/// Accepts a parsed plan only if it is valid.
pub fn check_planned(plan: Plan) -> (r: Result<Plan, PlanningError>)
    ensures
        match r {
            Ok(p) => p == plan && validation_result(plan, Ok(())),
            Err(PlanningError::Invalid(e)) => validation_result(plan, Err(e)),
            Err(_) => false,
        },
{
    match plan.validate() {
        Ok(()) => Ok(plan),
        Err(e) => Err(PlanningError::Invalid(e)),
    }
}

/// How many times the planner asks the model at most.
pub const PLANNER_ATTEMPTS: u32 = 2;

/// What the planner does after an attempt.
#[derive(Clone, Debug, PartialEq, Eq)]
pub enum PlannerDecision {
    Accept(Plan),
    Retry,
    Fail(PlanningError),
}

/// After attempt number `attempt` (from 1): a plan is accepted; a failure is retried once,
/// and the second failure is final.
pub fn planner_next(attempt: u32, result: Result<Plan, PlanningError>) -> (r: PlannerDecision)
    requires
        1 <= attempt <= PLANNER_ATTEMPTS,
    ensures
        match result {
            Ok(p) => r == PlannerDecision::Accept(p),
            Err(e) => if attempt < PLANNER_ATTEMPTS {
                r == PlannerDecision::Retry
            } else {
                r == PlannerDecision::Fail(e)
            },
        },
{
    match result {
        Ok(p) => PlannerDecision::Accept(p),
        Err(e) => if attempt < PLANNER_ATTEMPTS {
            PlannerDecision::Retry
        } else {
            PlannerDecision::Fail(e)
        },
    }
}

} // verus!
