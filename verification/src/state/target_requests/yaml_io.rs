//! Where `target-requests.yaml` lives.

use vstd::prelude::*;

use crate::text::{join_path, join_path_exec};

verus! {

/// `<plan_dir>/target-requests.yaml`.
pub fn target_requests_path(plan_dir: &str) -> (r: String)
    ensures
        r@ == join_path(plan_dir@, "target-requests.yaml"@),
{
    join_path_exec(plan_dir, "target-requests.yaml")
}

} // verus!
