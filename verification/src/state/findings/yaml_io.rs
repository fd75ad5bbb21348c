//! Where `findings.yaml` lives.

use vstd::prelude::*;

use crate::text::{join_path, join_path_exec};

verus! {

/// `<context_root>/findings.yaml`.
pub fn findings_path(context_root: &str) -> (r: String)
    ensures
        r@ == join_path(context_root@, "findings.yaml"@),
{
    join_path_exec(context_root, "findings.yaml")
}

} // verus!
