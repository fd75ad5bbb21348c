//! Where `intents.yaml` lives.

use vstd::prelude::*;

use crate::text::{join_path, join_path_exec};

verus! {

/// `<plan_dir>/intents.yaml`.
pub fn intents_path(plan_dir: &str) -> (r: String)
    ensures
        r@ == join_path(plan_dir@, "intents.yaml"@),
{
    join_path_exec(plan_dir, "intents.yaml")
}

} // verus!
