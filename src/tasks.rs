//! What a task decides before and after its side effect; the side effect itself (a model
//! call, a file write) is the caller's.
use vstd::prelude::*;
use crate::context::{lookup, ExecutionContext};
use crate::graph::ContentSource;
use crate::plan::OUTPUT_SUFFIX;
use crate::text::{check_filename, filename_ok, joined};

verus! {

/// Why a task failed before its side effect.
#[derive(Clone, Debug, PartialEq, Eq)]
pub enum TaskError {
    /// The file name escapes the working directory or holds control characters.
    InvalidFilename { step_id: String, filename: String },
    /// The step whose output is the content has written none.
    MissingInput { step_id: String, key: String },
}

/// Context key of a step's output: `"<step_id>.output"`.
pub fn output_key(step_id: &str) -> (r: String)
    ensures
        r@ == step_id@ + OUTPUT_SUFFIX@,
{
    joined(step_id, OUTPUT_SUFFIX)
}

/// The checks of a file task at run time: the file name again, then its content, read from
/// the context when it is another step's output. On success: the content to write.
pub fn prepare_file_write(step_id: &str, filename: &str, source: &ContentSource, context: &ExecutionContext) -> (r:
    Result<String, TaskError>)
    ensures
        !filename_ok(filename@) ==> (r matches Err(TaskError::InvalidFilename { step_id: sid, filename: f })
            && f@ == filename@ && sid@ == step_id@),
        filename_ok(filename@) ==> match source {
            ContentSource::Literal(t) => r == Ok::<String, TaskError>(*t),
            ContentSource::From(dep) => match lookup(context.outputs@, dep@ + OUTPUT_SUFFIX@) {
                Some(v) => (r matches Ok(c) && c@ == v),
                None => (r matches Err(TaskError::MissingInput { step_id: sid, key }) && key@ == dep@
                    + OUTPUT_SUFFIX@ && sid@ == step_id@),
            },
        },
{
    if !check_filename(filename) {
        return Err(TaskError::InvalidFilename { step_id: step_id.to_owned(), filename: filename.to_owned() });
    }
    match source {
        ContentSource::Literal(t) => Ok(t.clone()),
        ContentSource::From(dep) => {
            let key = output_key(dep.as_str());
            match context.get_output(key.as_str()) {
                Some(v) => Ok(v.clone()),
                None => Err(TaskError::MissingInput { step_id: step_id.to_owned(), key }),
            }
        },
    }
}

} // verus!
