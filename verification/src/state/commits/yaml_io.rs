//! Where `commits.yaml` lives.

use vstd::prelude::*;

use crate::text::{join_path, join_path_exec};

verus! {

/// `<plan_dir>/commits.yaml`.
pub fn commits_path(plan_dir: &str) -> (r: String)
    ensures
        r@ == join_path(plan_dir@, "commits.yaml"@),
{
    join_path_exec(plan_dir, "commits.yaml")
}

} // verus!
