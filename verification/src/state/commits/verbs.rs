//! The `commits` verbs: list the planned commits, or show one by its
//! 1-based index.

use vstd::prelude::*;

use crate::error::{ErrorCode, PlanError};
use crate::text::{concat3, decimal_string, str_eq};

use super::schema::{commit_view, CommitSpec, CommitsSpec, COMMITS_SCHEMA_VERSION};

verus! {

/// The formats the verbs emit.
#[derive(Debug, Clone, Copy, PartialEq, Eq, Structural)]
pub enum OutputFormat {
    Yaml,
    Json,
}

impl OutputFormat {
    /// `yaml` or `json`.
    pub fn parse(input: &str) -> (r: Option<OutputFormat>)
        ensures
            r == (if input@ == "yaml"@ {
                Some(OutputFormat::Yaml)
            } else if input@ == "json"@ {
                Some(OutputFormat::Json)
            } else {
                None
            }),
    {
        if str_eq(input, "yaml") {
            Some(OutputFormat::Yaml)
        } else if str_eq(input, "json") {
            Some(OutputFormat::Json)
        } else {
            None
        }
    }
}

/// The document `list` emits: the whole file.
pub fn run_list(spec: &CommitsSpec) -> (r: CommitsSpec)
    ensures
        r.schema_version == spec.schema_version,
        r.commits@.len() == spec.commits@.len(),
        forall|i: int| 0 <= i < spec.commits@.len() ==> commit_view(#[trigger] r.commits@[i]) == commit_view(spec.commits@[i]),
{
    let mut out: Vec<CommitSpec> = Vec::new();
    let mut i: usize = 0;
    while i < spec.commits.len()
        invariant
            i <= spec.commits@.len(),
            out@.len() == i,
            forall|k: int| 0 <= k < i ==> commit_view(#[trigger] out@[k]) == commit_view(spec.commits@[k]),
        decreases spec.commits.len() - i,
    {
        out.push(spec.commits[i].duplicate());
        i += 1;
    }
    CommitsSpec { schema_version: spec.schema_version, commits: out }
}

/// The one-commit file `show` emits for the `index`-th commit (1-based).
/// Index 0 and indices past the end are refused.
pub fn run_show(spec: &CommitsSpec, index: usize) -> (r: Result<CommitsSpec, PlanError>)
    ensures
        r is Ok <==> 1 <= index <= spec.commits@.len(),
        r matches Ok(f) ==> f.schema_version == COMMITS_SCHEMA_VERSION && f.commits@.len() == 1
            && commit_view(f.commits@[0]) == commit_view(spec.commits@[index - 1]),
        r matches Err(e) ==> e.code == ErrorCode::InvalidInput,
        index == 0 ==> (r matches Err(e) && e.message@ == "commit index must be 1-based; got 0"@),
        index > spec.commits@.len() ==> (r matches Err(e) && e.message@ == "no commit at index "@
            + crate::text::decimal(index as nat) + "; file holds "@ + crate::text::decimal(
            spec.commits@.len(),
        ) + if spec.commits@.len() == 1 {
            " entry"@
        } else {
            " entries"@
        }),
{
    if index == 0 {
        return Err(PlanError { code: ErrorCode::InvalidInput, message: "commit index must be 1-based; got 0".to_owned() });
    }
    if index > spec.commits.len() {
        let n = decimal_string(index as u64);
        let len = decimal_string(spec.commits.len() as u64);
        let head = concat3("no commit at index ", n.as_str(), "; file holds ");
        let tail = if spec.commits.len() == 1 { " entry" } else { " entries" };
        return Err(PlanError { code: ErrorCode::InvalidInput, message: concat3(head.as_str(), len.as_str(), tail) });
    }
    Ok(CommitsSpec { schema_version: COMMITS_SCHEMA_VERSION, commits: vec![spec.commits[index - 1].duplicate()] })
}

} // verus!
