use ravel_lite::error::ErrorCode;
use ravel_lite::state::phase::run_set_phase;

const ALL_PHASES: [&str; 8] = [
    "triage",
    "work",
    "analyse-work",
    "reflect",
    "git-commit-triage",
    "git-commit-work",
    "git-commit-analyse-work",
    "git-commit-reflect",
];

#[test]
fn phase_set_phase_writes_valid_llm_phase_to_phase_md() {
    assert!(run_set_phase("analyse-work", "/plans/p/phase.md", true).is_ok());
}

#[test]
fn phase_set_phase_rejects_missing_phase_md() {
    let err = run_set_phase("reflect", "/plans/p/phase.md", false).unwrap_err();
    assert!(err.message.contains("phase.md"), "error must name phase.md: {}", err.message);
    assert_eq!(err.code, ErrorCode::NotFound);
}

#[test]
fn phase_set_phase_rejects_typo_and_lists_valid_phases() {
    let err = run_set_phase("analyze-work", "/plans/p/phase.md", true).unwrap_err();
    assert!(err.message.contains("analyze-work"), "error must include the bad input: {}", err.message);
    for valid in ALL_PHASES {
        assert!(err.message.contains(valid), "error must list '{valid}': {}", err.message);
    }
    assert_eq!(err.code, ErrorCode::InvalidInput);
}

#[test]
fn state_set_phase_writes_valid_llm_phase_to_phase_md() {
    for p in ALL_PHASES {
        assert!(run_set_phase(p, "/plans/p/phase.md", true).is_ok(), "{p} must be accepted");
    }
}

#[test]
fn state_set_phase_rejects_missing_phase_md() {
    let err = run_set_phase("analyse-work", "/plans/p/phase.md", false).unwrap_err();
    assert!(err.message.contains("phase.md"));
}

#[test]
fn set_phase_checks_the_name_before_the_marker() {
    assert_eq!(run_set_phase("bogus", "/plans/p/phase.md", false).unwrap_err().code, ErrorCode::InvalidInput);
}

#[test]
fn set_phase_refusal_messages_are_exact() {
    assert_eq!(
        run_set_phase("analyze-work", "/plans/p/phase.md", true).unwrap_err().message,
        "Invalid phase 'analyze-work'. Accepted values: triage, work, analyse-work, reflect, git-commit-triage, git-commit-work, git-commit-analyse-work, git-commit-reflect"
    );
    assert_eq!(
        run_set_phase("work", "/plans/p/phase.md", false).unwrap_err().message,
        "phase.md not found at /plans/p/phase.md. set-phase refuses to create a new plan dir."
    );
}

#[test]
fn set_phase_accepts_the_migration_phases() {
    for p in ["migrate-intent", "migrate-targets", "migrate-memory-backfill"] {
        assert!(run_set_phase(p, "/plans/p/phase.md", true).is_ok(), "{p} must be accepted");
    }
}
