use ravel_lite::component_ref::ComponentRef;
use ravel_lite::error::ErrorCode;
use ravel_lite::state::targets::schema::{Target, TargetsFile, TARGETS_SCHEMA_VERSION};
use ravel_lite::state::targets::verbs::{run_add, run_list, run_remove, run_show, AddRequest};
use ravel_lite::state::targets::yaml_io::{mounted_worktree_add_dirs, resolve_target_worktree, targets_path};
use ravel_lite::state::OutputFormat;

fn sample_request(repo: &str, component: &str) -> AddRequest {
    AddRequest {
        repo_slug: repo.into(),
        component_id: component.into(),
        working_root: format!(".worktrees/{repo}"),
        branch: "ravel-lite/test-plan/main".into(),
        path_segments: vec!["crates".into(), component.into()],
    }
}

fn sample_target() -> Target {
    Target {
        repo_slug: "atlas".into(),
        component_id: "atlas-ontology".into(),
        working_root: ".worktrees/atlas".into(),
        branch: "ravel-lite/sample-plan/main".into(),
        path_segments: vec!["crates".into(), "atlas-ontology".into()],
    }
}

fn file_of(targets: Vec<Target>) -> TargetsFile {
    TargetsFile { schema_version: TARGETS_SCHEMA_VERSION, targets }
}

#[test]
fn run_add_appends_target_to_empty_file() {
    let mut t = TargetsFile::default();
    run_add(&mut t, &sample_request("atlas", "atlas-ontology")).unwrap();
    assert_eq!(t.targets.len(), 1);
    assert_eq!(t.targets[0].repo_slug, "atlas");
    assert_eq!(t.targets[0].component_id, "atlas-ontology");
    assert_eq!(t.targets[0].path_segments, vec!["crates".to_string(), "atlas-ontology".to_string()]);
}

#[test]
fn run_add_rejects_duplicate_repo_component_pair() {
    let mut t = TargetsFile::default();
    run_add(&mut t, &sample_request("atlas", "atlas-ontology")).unwrap();
    let err = run_add(&mut t, &sample_request("atlas", "atlas-ontology")).unwrap_err();
    assert!(err.message.contains("already mounted"), "error must say already mounted: {}", err.message);
    assert_eq!(err.code, ErrorCode::Conflict);
    assert_eq!(t.targets.len(), 1);
}

#[test]
fn run_add_allows_two_components_in_the_same_repo() {
    let mut t = TargetsFile::default();
    run_add(&mut t, &sample_request("atlas", "atlas-ontology")).unwrap();
    run_add(&mut t, &sample_request("atlas", "atlas-discovery")).unwrap();
    assert_eq!(t.targets.len(), 2);
    assert_eq!(t.targets[0].working_root, t.targets[1].working_root);
}

#[test]
fn run_add_rejects_empty_required_fields() {
    let mut t = TargetsFile::default();
    let mut req = sample_request("atlas", "ontology");
    req.repo_slug = String::new();
    assert!(run_add(&mut t, &req).unwrap_err().message.contains("--repo"));

    let mut req = sample_request("atlas", "ontology");
    req.component_id = String::new();
    assert!(run_add(&mut t, &req).unwrap_err().message.contains("--component"));

    let mut req = sample_request("atlas", "ontology");
    req.working_root = String::new();
    assert!(run_add(&mut t, &req).unwrap_err().message.contains("--working-root"));

    let mut req = sample_request("atlas", "ontology");
    req.branch = String::new();
    let err = run_add(&mut t, &req).unwrap_err();
    assert!(err.message.contains("--branch"));
    assert_eq!(err.code, ErrorCode::InvalidInput);
    assert!(t.targets.is_empty());
}

#[test]
fn run_remove_drops_only_the_named_target() {
    let mut t = TargetsFile::default();
    run_add(&mut t, &sample_request("atlas", "ontology")).unwrap();
    run_add(&mut t, &sample_request("sidekick", "router")).unwrap();
    run_remove(&mut t, "atlas:ontology").unwrap();
    assert_eq!(t.targets.len(), 1);
    assert_eq!(t.targets[0].repo_slug, "sidekick");
}

#[test]
fn run_remove_errors_when_target_not_present() {
    let mut t = TargetsFile::default();
    run_add(&mut t, &sample_request("atlas", "ontology")).unwrap();
    let err = run_remove(&mut t, "missing:thing").unwrap_err();
    assert!(err.message.contains("missing:thing"), "error must cite the bad ref: {}", err.message);
    assert_eq!(err.code, ErrorCode::NotFound);
    assert_eq!(t.targets.len(), 1);
}

#[test]
fn list_and_show_refuse_markdown_and_copy_rows() {
    let t = file_of(vec![sample_target()]);
    assert!(run_list(&t, OutputFormat::Markdown).is_err());
    assert_eq!(run_list(&t, OutputFormat::Yaml).unwrap().targets.len(), 1);
    let shown = run_show(&t, "atlas:atlas-ontology", OutputFormat::Json).unwrap();
    assert_eq!(shown.targets[0].branch, "ravel-lite/sample-plan/main");
    assert_eq!(run_show(&t, "atlas:nope", OutputFormat::Yaml).unwrap_err().code, ErrorCode::NotFound);
}

#[test]
fn targets_path_joins_file_name() {
    assert_eq!(targets_path("/p/plan"), "/p/plan/targets.yaml");
}

#[test]
fn mounted_worktree_add_dirs_returns_empty_when_targets_yaml_absent() {
    let dirs = mounted_worktree_add_dirs("/tmp/x", "/tmp/x", &TargetsFile::default());
    assert!(dirs.is_empty());
}

#[test]
fn mounted_worktree_add_dirs_skips_paths_inside_cwd() {
    let t = file_of(vec![sample_target()]);
    let dirs = mounted_worktree_add_dirs("/tmp/x/LLM_STATE/sample-plan", "/tmp/x", &t);
    assert!(dirs.is_empty(), "worktrees under cwd must be filtered out; got {dirs:?}");
}

#[test]
fn mounted_worktree_add_dirs_returns_paths_outside_cwd() {
    let t = file_of(vec![sample_target()]);
    let dirs = mounted_worktree_add_dirs("/tmp/x/context/plans/sample-plan", "/tmp/x/project", &t);
    assert_eq!(dirs, vec!["/tmp/x/context/plans/sample-plan/.worktrees/atlas".to_string()]);
}

#[test]
fn mounted_worktree_add_dirs_emits_one_path_per_target() {
    let mut t2 = sample_target();
    t2.repo_slug = "ravel".into();
    t2.component_id = "ravel-core".into();
    t2.working_root = ".worktrees/ravel".into();
    let t = file_of(vec![sample_target(), t2]);
    let dirs = mounted_worktree_add_dirs("/tmp/x/plan", "/tmp/x/project", &t);
    assert_eq!(dirs.len(), 2);
    assert!(dirs[0].ends_with(".worktrees/atlas"));
    assert!(dirs[1].ends_with(".worktrees/ravel"));
}

#[test]
fn mounted_worktree_add_dirs_treats_sibling_prefix_as_outside() {
    let t = file_of(vec![sample_target()]);
    let dirs = mounted_worktree_add_dirs("/tmp/xy/plan", "/tmp/x", &t);
    assert_eq!(dirs, vec!["/tmp/xy/plan/.worktrees/atlas".to_string()]);
}

#[test]
fn resolve_target_worktree_returns_plan_relative_path_for_mounted_target() {
    let t = file_of(vec![sample_target()]);
    let resolved = resolve_target_worktree("/tmp/plan", &t, &ComponentRef::new("atlas", "atlas-ontology")).unwrap();
    assert_eq!(resolved, "/tmp/plan/.worktrees/atlas");
}

#[test]
fn resolve_target_worktree_errors_when_component_not_mounted() {
    let t = file_of(vec![sample_target()]);
    let err = resolve_target_worktree("/tmp/plan", &t, &ComponentRef::new("ravel-lite", "phase-loop")).unwrap_err();
    assert!(err.message.contains("ravel-lite:phase-loop"), "must cite the missing ref: {}", err.message);
    assert!(err.message.contains("target-requests"), "must point user at the mount path: {}", err.message);
}

#[test]
fn resolve_target_worktree_errors_when_targets_yaml_absent() {
    let err = resolve_target_worktree("/tmp/plan", &TargetsFile::default(), &ComponentRef::new("atlas", "atlas-ontology"))
        .unwrap_err();
    assert!(err.message.contains("atlas:atlas-ontology"));
}

#[test]
fn resolve_target_worktree_distinguishes_components_sharing_a_worktree() {
    let mut second = sample_target();
    second.component_id = "atlas-discovery".into();
    let t = file_of(vec![sample_target(), second]);
    let ontology = resolve_target_worktree("/p", &t, &ComponentRef::new("atlas", "atlas-ontology")).unwrap();
    let discovery = resolve_target_worktree("/p", &t, &ComponentRef::new("atlas", "atlas-discovery")).unwrap();
    assert_eq!(ontology, discovery, "shared worktree means equal paths");
    assert!(resolve_target_worktree("/p", &t, &ComponentRef::new("atlas", "not-a-component")).is_err());
}

#[test]
fn target_refusal_messages_are_exact() {
    let mut t = TargetsFile::default();
    let mut req = sample_request("atlas", "atlas-ontology");
    req.repo_slug = String::new();
    assert_eq!(run_add(&mut t, &req).unwrap_err().message, "--repo must be non-empty");
    let mut req = sample_request("atlas", "atlas-ontology");
    req.component_id = String::new();
    assert_eq!(run_add(&mut t, &req).unwrap_err().message, "--component must be non-empty");
    let mut req = sample_request("atlas", "atlas-ontology");
    req.working_root = String::new();
    assert_eq!(run_add(&mut t, &req).unwrap_err().message, "--working-root must be non-empty");
    let mut req = sample_request("atlas", "atlas-ontology");
    req.branch = String::new();
    assert_eq!(run_add(&mut t, &req).unwrap_err().message, "--branch must be non-empty");
    run_add(&mut t, &sample_request("atlas", "atlas-ontology")).unwrap();
    assert_eq!(
        run_add(&mut t, &sample_request("atlas", "atlas-ontology")).unwrap_err().message,
        "target atlas:atlas-ontology already mounted"
    );
    assert_eq!(run_remove(&mut t, "atlas:other").unwrap_err().message, "no target atlas:other to remove");
    assert_eq!(
        run_remove(&mut t, "atlas").unwrap_err().message,
        "target reference \"atlas\" must be `<repo_slug>:<component_id>` with both parts non-empty"
    );
    assert_eq!(run_show(&t, "atlas:other", OutputFormat::Yaml).unwrap_err().message, "no target atlas:other");
    let err = resolve_target_worktree("/plans/p", &t, &ComponentRef::new("atlas", "other")).unwrap_err();
    assert_eq!(
        err.message,
        "atlas:other is not a mounted target in /plans/p; add it via target-requests.yaml so the next phase boundary mounts it"
    );
}
