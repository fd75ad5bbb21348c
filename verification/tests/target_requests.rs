use ravel_lite::component_ref::ComponentRef;
use ravel_lite::error::ErrorCode;
use ravel_lite::state::target_requests::schema::{TargetRequestsFile, TARGET_REQUESTS_SCHEMA_VERSION};
use ravel_lite::state::target_requests::verbs::{
    run_add, run_list, run_remove, run_show, OutputFormat,
};
use ravel_lite::state::target_requests::yaml_io::target_requests_path;

fn empty() -> TargetRequestsFile {
    TargetRequestsFile::default()
}

fn same(a: &ComponentRef, repo: &str, comp: &str) -> bool {
    a.repo_slug == repo && a.component_id == comp
}

#[test]
fn run_add_appends_request_to_empty_file() {
    let mut file = empty();
    run_add(&mut file, "atlas:atlas-ontology", "core schema").unwrap();
    assert_eq!(file.requests.len(), 1);
    assert!(same(&file.requests[0].component, "atlas", "atlas-ontology"));
    assert_eq!(file.requests[0].reason, "core schema");
}

#[test]
fn run_add_rejects_reference_with_empty_repo_slug() {
    let mut file = empty();
    let err = run_add(&mut file, ":only-component", "reason").unwrap_err();
    assert!(err.message.contains("repo_slug"));
    assert_eq!(file.requests.len(), 0);
}

#[test]
fn run_add_rejects_reference_with_empty_component_id() {
    let mut file = empty();
    let err = run_add(&mut file, "only-repo:", "reason").unwrap_err();
    assert!(err.message.contains("component_id"));
}

#[test]
fn run_add_rejects_duplicate_reference() {
    let mut file = empty();
    run_add(&mut file, "atlas:atlas-ontology", "first").unwrap();
    let err = run_add(&mut file, "atlas:atlas-ontology", "second").unwrap_err();
    assert!(err.message.contains("already queued"), "error must say already queued: {}", err.message);
    assert_eq!(err.code, ErrorCode::Conflict);
    assert_eq!(file.requests.len(), 1);
    assert_eq!(file.requests[0].reason, "first");
}

#[test]
fn run_add_rejects_empty_reason() {
    let mut file = empty();
    let err = run_add(&mut file, "atlas:atlas-ontology", "").unwrap_err();
    assert!(err.message.contains("--reason"));
    assert_eq!(err.code, ErrorCode::InvalidInput);
}

#[test]
fn run_add_rejects_malformed_reference() {
    let mut file = empty();
    let err = run_add(&mut file, "atlas-only", "reason").unwrap_err();
    assert!(err.message.contains("repo_slug"), "error must explain expected shape: {}", err.message);
}

#[test]
fn run_remove_drops_only_the_named_request() {
    let mut file = empty();
    run_add(&mut file, "atlas:ontology", "first").unwrap();
    run_add(&mut file, "sidekick:router", "second").unwrap();
    run_remove(&mut file, "atlas:ontology").unwrap();
    assert_eq!(file.requests.len(), 1);
    assert!(same(&file.requests[0].component, "sidekick", "router"));
}

#[test]
fn run_remove_errors_when_reference_not_present() {
    let mut file = empty();
    run_add(&mut file, "atlas:ontology", "reason").unwrap();
    let err = run_remove(&mut file, "missing:thing").unwrap_err();
    assert!(err.message.contains("missing:thing"), "error must cite the bad ref: {}", err.message);
    assert_eq!(err.code, ErrorCode::NotFound);
    assert_eq!(file.requests.len(), 1);
}

#[test]
fn add_then_remove_restores_the_queue() {
    let mut file = empty();
    run_add(&mut file, "atlas:ontology", "keep").unwrap();
    run_add(&mut file, "sidekick:router", "drop").unwrap();
    run_remove(&mut file, "sidekick:router").unwrap();
    assert_eq!(file.requests.len(), 1);
    assert!(same(&file.requests[0].component, "atlas", "ontology"));
    assert_eq!(file.requests[0].reason, "keep");
}

#[test]
fn show_returns_the_one_request_and_list_copies_all() {
    let mut file = empty();
    run_add(&mut file, "atlas:ontology", "a").unwrap();
    run_add(&mut file, "sidekick:router", "b").unwrap();
    let shown = run_show(&file, "sidekick:router").unwrap();
    assert_eq!(shown.requests.len(), 1);
    assert_eq!(shown.requests[0].reason, "b");
    assert_eq!(run_show(&file, "nope:none").unwrap_err().code, ErrorCode::NotFound);
    assert_eq!(run_show(&file, "bad").unwrap_err().code, ErrorCode::InvalidInput);
    let listed = run_list(&file);
    assert_eq!(listed.requests.len(), 2);
    assert_eq!(listed.schema_version, TARGET_REQUESTS_SCHEMA_VERSION);
}

#[test]
fn output_format_parses_known_names_only() {
    assert!(matches!(OutputFormat::parse("yaml"), Some(OutputFormat::Yaml)));
    assert!(OutputFormat::parse("xml").is_none());
}

#[test]
fn target_requests_path_joins_file_name() {
    assert_eq!(target_requests_path("/p/plan"), "/p/plan/target-requests.yaml");
}

#[test]
fn target_request_refusal_messages_are_exact() {
    let mut file = empty();
    assert_eq!(run_add(&mut file, "atlas:core", "").unwrap_err().message, "--reason must be non-empty");
    run_add(&mut file, "atlas:core", "first").unwrap();
    assert_eq!(run_add(&mut file, "atlas:core", "again").unwrap_err().message, "request for atlas:core already queued");
    assert_eq!(run_remove(&mut file, "atlas:other").unwrap_err().message, "no request for atlas:other to remove");
}
