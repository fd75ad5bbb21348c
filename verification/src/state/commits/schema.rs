//! One planned commit and the whole `commits.yaml`.

use vstd::prelude::*;

use crate::component_ref::{ref_view, ComponentRef};
use crate::plan_kg::clone_strings;
use crate::text::{owned, views};

verus! {

/// The schema version `commits.yaml` is written with.
pub const COMMITS_SCHEMA_VERSION: u32 = 1;

/// One commit: the paths it stages, its message, and optionally the
/// component whose worktree it is made in.
#[derive(Debug)]
pub struct CommitSpec {
    pub paths: Vec<String>,
    pub message: String,
    pub target: Option<ComponentRef>,
}

/// A commit's content.
pub open spec fn commit_view(c: CommitSpec) -> (Seq<Seq<char>>, Seq<char>, Option<(Seq<char>, Seq<char>)>) {
    (views(c.paths@), c.message@, match c.target {
        Some(t) => Some(ref_view(t)),
        None => None,
    })
}

impl CommitSpec {
    /// A copy.
    pub fn duplicate(&self) -> (r: CommitSpec)
        ensures
            commit_view(r) == commit_view(*self),
    {
        CommitSpec {
            paths: clone_strings(&self.paths),
            message: owned(self.message.as_str()),
            target: match &self.target {
                Some(t) => Some(t.duplicate()),
                None => None,
            },
        }
    }
}

/// The whole file.
#[derive(Debug)]
pub struct CommitsSpec {
    pub schema_version: u32,
    pub commits: Vec<CommitSpec>,
}

impl Default for CommitsSpec {
    fn default() -> (r: Self)
        ensures
            r.schema_version == COMMITS_SCHEMA_VERSION,
            r.commits@.len() == 0,
    {
        CommitsSpec { schema_version: COMMITS_SCHEMA_VERSION, commits: Vec::new() }
    }
}

} // verus!
