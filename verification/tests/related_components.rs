use ravel_lite::error::ErrorCode;
use ravel_lite::related_components::{canonical_participants, plan_component_names, require_component_known};
use ravel_lite::state::targets::schema::{Target, TargetsFile, TARGETS_SCHEMA_VERSION};

fn target(repo: &str, component: &str) -> Target {
    Target {
        repo_slug: repo.into(),
        component_id: component.into(),
        working_root: format!(".worktrees/{repo}"),
        branch: "ravel-lite/p/main".into(),
        path_segments: vec!["src".into()],
    }
}

fn file(targets: Vec<Target>) -> TargetsFile {
    TargetsFile { schema_version: TARGETS_SCHEMA_VERSION, targets }
}

#[test]
fn resolve_plan_component_names_returns_empty_when_targets_yaml_absent() {
    assert!(plan_component_names(&TargetsFile::default()).is_empty());
}

#[test]
fn resolve_plan_component_names_collects_repo_slug_and_component_id() {
    let names = plan_component_names(&file(vec![target("ravel-lite", "phase-loop")]));
    assert_eq!(names, vec!["ravel-lite".to_string(), "phase-loop".to_string()]);
}

#[test]
fn resolve_plan_component_names_dedups_when_repo_slug_equals_component_id() {
    let names = plan_component_names(&file(vec![target("ravel-lite", "ravel-lite")]));
    assert_eq!(names, vec!["ravel-lite".to_string()]);
}

#[test]
fn plan_component_names_keep_first_seen_order_across_targets() {
    let names = plan_component_names(&file(vec![target("a", "x"), target("b", "x"), target("a", "y")]));
    assert_eq!(names, vec!["a", "x", "b", "y"]);
}

#[test]
fn edge_endpoints_must_be_registered() {
    assert!(require_component_known(true, "atlas").is_ok());
    let err = require_component_known(false, "Stranger").unwrap_err();
    assert_eq!(err.code, ErrorCode::NotFound);
    assert_eq!(
        err.message,
        "component 'Stranger' is not in the repo registry; register it with `ravel-lite repo add Stranger --url <git-url> [--local-path <path>]`"
    );
}

#[test]
fn symmetric_participants_are_sorted_and_directed_ones_kept() {
    assert_eq!(canonical_participants(false, "zeta", "alpha"), vec!["alpha", "zeta"]);
    assert_eq!(canonical_participants(false, "alpha", "zeta"), vec!["alpha", "zeta"]);
    assert_eq!(canonical_participants(true, "zeta", "alpha"), vec!["zeta", "alpha"]);
}
