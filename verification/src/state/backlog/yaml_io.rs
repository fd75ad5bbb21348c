//! Where `backlog.yaml` lives, and the schema-version gate a loaded file
//! must pass.

use vstd::prelude::*;

use crate::error::{ErrorCode, PlanError};
use crate::state::{check_file_version, version_mismatch_message};
use crate::text::{join_path, join_path_exec};

use super::schema::BACKLOG_SCHEMA_VERSION;

verus! {

/// `<plan_dir>/backlog.yaml`.
pub fn backlog_path(plan_dir: &str) -> (r: String)
    ensures
        r@ == join_path(plan_dir@, "backlog.yaml"@),
{
    join_path_exec(plan_dir, "backlog.yaml")
}

/// A loaded backlog must declare the schema version this library writes;
/// any other is a `Conflict` naming the file and both versions.
pub fn check_schema_version(path: &str, found: u32) -> (r: Result<(), PlanError>)
    ensures
        r is Ok <==> found == BACKLOG_SCHEMA_VERSION,
        r matches Err(e) ==> e.code == ErrorCode::Conflict && e.message@ == version_mismatch_message(
            path@,
            found,
            BACKLOG_SCHEMA_VERSION,
        ),
{
    check_file_version(path, found, BACKLOG_SCHEMA_VERSION)
}

} // verus!
