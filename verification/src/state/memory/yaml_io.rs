//! Where `memory.yaml` lives.

use vstd::prelude::*;

use crate::text::{join_path, join_path_exec};

verus! {

/// `<plan_dir>/memory.yaml`.
pub fn memory_path(plan_dir: &str) -> (r: String)
    ensures
        r@ == join_path(plan_dir@, "memory.yaml"@),
{
    join_path_exec(plan_dir, "memory.yaml")
}

} // verus!
