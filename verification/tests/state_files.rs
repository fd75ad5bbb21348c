use ravel_lite::component_ref::ComponentRef;
use ravel_lite::dates::format_unix_utc;
use ravel_lite::state::backlog::render::GroupBy;
use ravel_lite::state::backlog::schema::slug_from_title;
use ravel_lite::state::commits::schema::{CommitsSpec, COMMITS_SCHEMA_VERSION};
use ravel_lite::state::commits::verbs::OutputFormat;
use ravel_lite::state::focus_objections::schema::{FocusObjectionsFile, Objection, FOCUS_OBJECTIONS_SCHEMA_VERSION};
use ravel_lite::state::target_requests::schema::{TargetRequest, TargetRequestsFile, TARGET_REQUESTS_SCHEMA_VERSION};
use ravel_lite::state::target_requests::verbs::find_request;
use ravel_lite::state::targets::schema::{Target, TargetsFile, TARGETS_SCHEMA_VERSION};
use ravel_lite::state::targets::verbs::{find_target, parse_reference};
use ravel_lite::state::this_cycle_focus::schema::{ThisCycleFocus, THIS_CYCLE_FOCUS_SCHEMA_VERSION};

#[test]
fn group_by_parse_rejects_unknown_values() {
    assert_eq!(GroupBy::parse("category"), Some(GroupBy::Category));
    assert_eq!(GroupBy::parse("status"), Some(GroupBy::Status));
    assert_eq!(GroupBy::parse("priority"), None);
    assert_eq!(GroupBy::parse(""), None);
}

#[test]
fn slug_from_title_lowercases_and_punctuation_maps_to_dash() {
    assert_eq!(slug_from_title("Add clippy `-D warnings` CI gate"), "add-clippy-d-warnings-ci-gate");
    assert_eq!(slug_from_title("Research: expose plan-state data"), "research-expose-plan-state-data");
    assert_eq!(slug_from_title("  trim leading/trailing  "), "trim-leading-trailing");
}

#[test]
fn commits_spec_default_has_current_schema_version_and_empty_list() {
    let file = CommitsSpec::default();
    assert_eq!(file.schema_version, COMMITS_SCHEMA_VERSION);
    assert!(file.commits.is_empty());
}

#[test]
fn output_format_parses_known_values() {
    assert_eq!(OutputFormat::parse("yaml"), Some(OutputFormat::Yaml));
    assert_eq!(OutputFormat::parse("json"), Some(OutputFormat::Json));
    assert_eq!(OutputFormat::parse("toml"), None);
}

#[test]
fn kind_str_matches_wire_discriminator() {
    assert_eq!(
        Objection::WrongTarget { suggested_target: ComponentRef::new("a", "b"), reasoning: "r".into() }.kind_str(),
        "wrong-target"
    );
    assert_eq!(Objection::SkipItem { item_id: "t-1".into(), reasoning: "r".into() }.kind_str(), "skip-item");
    assert_eq!(Objection::Premature { reasoning: "r".into() }.kind_str(), "premature");
}

#[test]
fn file_default_has_current_schema_version() {
    let file = FocusObjectionsFile::default();
    assert_eq!(file.schema_version, FOCUS_OBJECTIONS_SCHEMA_VERSION);
    assert!(file.objections.is_empty());
}

#[test]
fn format_unix_utc_renders_known_epoch_zero() {
    assert_eq!(format_unix_utc(0), "1970-01-01T00:00:00Z");
}

#[test]
fn format_unix_utc_handles_leap_year_february() {
    assert_eq!(format_unix_utc(1_709_164_800), "2024-02-29T00:00:00Z");
}

#[test]
fn target_requests_file_default_has_current_schema_version() {
    let file = TargetRequestsFile::default();
    assert_eq!(file.schema_version, TARGET_REQUESTS_SCHEMA_VERSION);
    assert!(file.requests.is_empty());
}

#[test]
fn find_request_returns_match() {
    let component = ComponentRef::new("atlas", "ontology");
    let file = TargetRequestsFile {
        schema_version: TARGET_REQUESTS_SCHEMA_VERSION,
        requests: vec![TargetRequest { component: component.duplicate(), reason: "x".into() }],
    };
    let found = find_request(&file, &component).unwrap();
    assert!(found.component.same(&component));
}

#[test]
fn targets_file_default_has_current_schema_version() {
    let file = TargetsFile::default();
    assert_eq!(file.schema_version, TARGETS_SCHEMA_VERSION);
    assert!(file.targets.is_empty());
}

#[test]
fn parse_reference_splits_on_first_colon() {
    let (repo, component) = parse_reference("atlas:atlas-ontology").unwrap();
    assert_eq!(repo, "atlas");
    assert_eq!(component, "atlas-ontology");
}

#[test]
fn parse_reference_rejects_missing_colon() {
    let err = parse_reference("atlas-only").unwrap_err();
    assert!(err.message.contains("repo_slug"), "error must explain expected shape: {}", err.message);
}

#[test]
fn parse_reference_rejects_empty_repo() {
    let err = parse_reference(":only-component").unwrap_err();
    assert!(err.message.contains("non-empty"), "error must mention non-empty: {}", err.message);
}

#[test]
fn parse_reference_rejects_empty_component() {
    let err = parse_reference("only-repo:").unwrap_err();
    assert!(err.message.contains("non-empty"), "error must mention non-empty: {}", err.message);
}

#[test]
fn find_target_returns_match() {
    let targets = TargetsFile {
        schema_version: TARGETS_SCHEMA_VERSION,
        targets: vec![Target {
            repo_slug: "atlas".into(),
            component_id: "ontology".into(),
            working_root: ".worktrees/atlas".into(),
            branch: "ravel-lite/p/main".into(),
            path_segments: vec![],
        }],
    };
    let found = find_target(&targets, "atlas", "ontology").unwrap();
    assert_eq!(found.repo_slug, "atlas");
}

#[test]
fn new_record_has_current_schema_version_and_empty_collections() {
    let focus = ThisCycleFocus::new("atlas:atlas-core");
    assert_eq!(focus.schema_version, THIS_CYCLE_FOCUS_SCHEMA_VERSION);
    assert_eq!(focus.target, "atlas:atlas-core");
    assert!(focus.backlog_items.is_empty());
    assert!(focus.notes.is_none());
}
