//! Where `this-cycle-focus.yaml` lives.

use vstd::prelude::*;

use crate::text::{join_path, join_path_exec};

verus! {

/// `<plan_dir>/this-cycle-focus.yaml`.
pub fn this_cycle_focus_path(plan_dir: &str) -> (r: String)
    ensures
        r@ == join_path(plan_dir@, "this-cycle-focus.yaml"@),
{
    join_path_exec(plan_dir, "this-cycle-focus.yaml")
}

} // verus!
