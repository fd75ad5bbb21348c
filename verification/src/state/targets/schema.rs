//! The typed `targets.yaml`: which components are mounted into a plan as
//! worktrees, on which plan-namespaced branches.

use vstd::prelude::*;

use crate::plan_kg::clone_strings;
use crate::text::{owned, views};

verus! {

/// The schema version `targets.yaml` is written with.
pub const TARGETS_SCHEMA_VERSION: u32 = 1;

/// One mounted component.
#[derive(Debug)]
pub struct Target {
    pub repo_slug: String,
    pub component_id: String,
    pub working_root: String,
    pub branch: String,
    pub path_segments: Vec<String>,
}

/// A target's content.
pub open spec fn target_view(t: Target) -> (Seq<char>, Seq<char>, Seq<char>, Seq<char>, Seq<Seq<char>>) {
    (t.repo_slug@, t.component_id@, t.working_root@, t.branch@, views(t.path_segments@))
}

/// The contents of a list of targets.
pub open spec fn target_views(ts: Seq<Target>) -> Seq<(Seq<char>, Seq<char>, Seq<char>, Seq<char>, Seq<Seq<char>>)> {
    ts.map_values(|t: Target| target_view(t))
}

impl Target {
    /// A copy.
    pub fn duplicate(&self) -> (r: Target)
        ensures
            target_view(r) == target_view(*self),
    {
        Target {
            repo_slug: owned(self.repo_slug.as_str()),
            component_id: owned(self.component_id.as_str()),
            working_root: owned(self.working_root.as_str()),
            branch: owned(self.branch.as_str()),
            path_segments: clone_strings(&self.path_segments),
        }
    }
}

/// The whole file.
#[derive(Debug)]
pub struct TargetsFile {
    pub schema_version: u32,
    pub targets: Vec<Target>,
}

impl Default for TargetsFile {
    fn default() -> (r: Self)
        ensures
            r.schema_version == TARGETS_SCHEMA_VERSION,
            r.targets@.len() == 0,
    {
        TargetsFile { schema_version: TARGETS_SCHEMA_VERSION, targets: Vec::new() }
    }
}

} // verus!
