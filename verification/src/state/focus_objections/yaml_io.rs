//! Where `focus-objections.yaml` lives.

use vstd::prelude::*;

use crate::text::{join_path, join_path_exec};

verus! {

/// `<plan_dir>/focus-objections.yaml`.
pub fn focus_objections_path(plan_dir: &str) -> (r: String)
    ensures
        r@ == join_path(plan_dir@, "focus-objections.yaml"@),
{
    join_path_exec(plan_dir, "focus-objections.yaml")
}

} // verus!
