//! Typed plan-state files and the verbs that read and mutate them.

pub mod backlog;
pub mod commits;
pub mod focus_objections;
pub mod findings;
pub mod intents;
pub mod memory;
pub mod migrate;
pub mod phase;
pub mod target_requests;
pub mod targets;
pub mod this_cycle_focus;

pub use phase::run_set_phase;

use vstd::prelude::*;

use crate::error::{plan_error, ErrorCode, PlanError};
use crate::text::{decimal, decimal_string, push_str, str_eq};

verus! {

/// Output formats of the state verbs. `markdown` is only offered by
/// `backlog list`.
#[derive(Debug, Clone, Copy, PartialEq, Eq, Structural)]
pub enum OutputFormat {
    Yaml,
    Json,
    Markdown,
}

impl OutputFormat {
    /// `yaml`, `json` or `markdown`.
    pub fn parse(input: &str) -> (r: Option<OutputFormat>)
        ensures
            r == (if input@ == "yaml"@ {
                Some(OutputFormat::Yaml)
            } else if input@ == "json"@ {
                Some(OutputFormat::Json)
            } else if input@ == "markdown"@ {
                Some(OutputFormat::Markdown)
            } else {
                None
            }),
    {
        if str_eq(input, "yaml") {
            Some(OutputFormat::Yaml)
        } else if str_eq(input, "json") {
            Some(OutputFormat::Json)
        } else if str_eq(input, "markdown") {
            Some(OutputFormat::Markdown)
        } else {
            None
        }
    }
}

/// The message of a schema-version mismatch.
pub open spec fn version_mismatch_message(path: Seq<char>, found: u32, expected: u32) -> Seq<char> {
    path + " declares schema_version "@ + decimal(found as nat) + ", expected "@ + decimal(expected as nat) + "."@
}

/// A loaded state file must declare the schema version this library
/// writes for its kind; any other is a `Conflict` naming the file and both
/// versions. (`commits.yaml` is read without this gate.)
pub fn check_file_version(path: &str, found: u32, expected: u32) -> (r: Result<(), PlanError>)
    ensures
        r is Ok <==> found == expected,
        r matches Err(e) ==> e.code == ErrorCode::Conflict && e.message@ == version_mismatch_message(path@, found, expected),
{
    if found == expected {
        return Ok(());
    }
    let mut m = path.to_owned();
    push_str(&mut m, " declares schema_version ");
    let f = decimal_string(found as u64);
    push_str(&mut m, f.as_str());
    push_str(&mut m, ", expected ");
    let x = decimal_string(expected as u64);
    push_str(&mut m, x.as_str());
    push_str(&mut m, ".");
    Err(plan_error(ErrorCode::Conflict, m))
}

} // verus!
