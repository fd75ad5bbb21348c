//! `set-phase`: the decision of rewriting `<plan>/phase.md`.

use vstd::prelude::*;

use crate::error::{ErrorCode, PlanError};
use crate::phase_loop::{phase_named, Phase};
use crate::text::concat3;

verus! {

/// The refusal of an unknown phase name: the name in single quotes, then
/// the names of the cycle.
pub open spec fn invalid_phase_message(phase: Seq<char>) -> Seq<char> {
    "Invalid phase '"@ + phase
        + "'. Accepted values: triage, work, analyse-work, reflect, git-commit-triage, git-commit-work, git-commit-analyse-work, git-commit-reflect"@
}

/// The refusal when the marker file at `marker_path` is missing.
pub open spec fn missing_marker_message(marker_path: Seq<char>) -> Seq<char> {
    "phase.md not found at "@ + marker_path + ". set-phase refuses to create a new plan dir."@
}

/// Whether `phase.md` (at `marker_path`) may be rewritten with `phase`:
/// the name must be one the phase parser knows, and the marker file must
/// already exist (the verb never creates a plan directory). Writing the
/// file is the caller's part.
pub fn run_set_phase(phase: &str, marker_path: &str, marker_exists: bool) -> (r: Result<(), PlanError>)
    ensures
        phase_named(phase@) is None ==> (r matches Err(e) && e.code == ErrorCode::InvalidInput && e.message@
            == invalid_phase_message(phase@)),
        phase_named(phase@) is Some && !marker_exists ==> (r matches Err(e) && e.code == ErrorCode::NotFound
            && e.message@ == missing_marker_message(marker_path@)),
        r is Ok <==> phase_named(phase@) is Some && marker_exists,
{
    if Phase::parse(phase).is_none() {
        return Err(
            PlanError {
                code: ErrorCode::InvalidInput,
                message: concat3(
                    "Invalid phase '",
                    phase,
                    "'. Accepted values: triage, work, analyse-work, reflect, git-commit-triage, git-commit-work, git-commit-analyse-work, git-commit-reflect",
                ),
            },
        );
    }
    if !marker_exists {
        return Err(
            PlanError {
                code: ErrorCode::NotFound,
                message: concat3("phase.md not found at ", marker_path, ". set-phase refuses to create a new plan dir."),
            },
        );
    }
    Ok(())
}

} // verus!
