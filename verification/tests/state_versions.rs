use ravel_lite::error::ErrorCode;
use ravel_lite::state::check_file_version;
use ravel_lite::state::findings::schema::FINDINGS_SCHEMA_VERSION;
use ravel_lite::state::findings::yaml_io::findings_path;
use ravel_lite::state::focus_objections::schema::FOCUS_OBJECTIONS_SCHEMA_VERSION;
use ravel_lite::state::focus_objections::yaml_io::focus_objections_path;
use ravel_lite::state::intents::schema::INTENTS_SCHEMA_VERSION;
use ravel_lite::state::intents::yaml_io::intents_path;
use ravel_lite::state::memory::schema::MEMORY_SCHEMA_VERSION;
use ravel_lite::state::memory::yaml_io::memory_path;
use ravel_lite::state::target_requests::schema::TARGET_REQUESTS_SCHEMA_VERSION;
use ravel_lite::state::target_requests::yaml_io::target_requests_path;
use ravel_lite::state::targets::schema::TARGETS_SCHEMA_VERSION;
use ravel_lite::state::targets::yaml_io::targets_path;
use ravel_lite::state::this_cycle_focus::schema::THIS_CYCLE_FOCUS_SCHEMA_VERSION;
use ravel_lite::state::this_cycle_focus::yaml_io::this_cycle_focus_path;

/// Each gated state file, by path, with the version its kind writes.
fn gated_files() -> Vec<(String, u32)> {
    vec![
        (intents_path("/p"), INTENTS_SCHEMA_VERSION),
        (memory_path("/p"), MEMORY_SCHEMA_VERSION),
        (findings_path("/ctx"), FINDINGS_SCHEMA_VERSION),
        (focus_objections_path("/p"), FOCUS_OBJECTIONS_SCHEMA_VERSION),
        (target_requests_path("/p"), TARGET_REQUESTS_SCHEMA_VERSION),
        (targets_path("/p"), TARGETS_SCHEMA_VERSION),
        (this_cycle_focus_path("/p"), THIS_CYCLE_FOCUS_SCHEMA_VERSION),
    ]
}

#[test]
fn yaml_io_read_errors_on_schema_version_mismatch() {
    for (path, expected) in gated_files() {
        let err = check_file_version(&path, 99, expected).unwrap_err();
        assert!(err.message.contains("schema_version"), "error must cite schema_version: {}", err.message);
        assert!(err.message.contains("99"), "error must show found version: {}", err.message);
        assert_eq!(err.code, ErrorCode::Conflict);
        assert_eq!(err.message, format!("{path} declares schema_version 99, expected {expected}."));
    }
}

#[test]
fn current_schema_version_passes_every_gate() {
    for (path, expected) in gated_files() {
        assert!(check_file_version(&path, expected, expected).is_ok(), "{path}");
    }
}

#[test]
fn state_file_paths_use_their_file_names() {
    let names: Vec<String> = gated_files().into_iter().map(|(p, _)| p).collect();
    assert_eq!(
        names,
        vec![
            "/p/intents.yaml",
            "/p/memory.yaml",
            "/ctx/findings.yaml",
            "/p/focus-objections.yaml",
            "/p/target-requests.yaml",
            "/p/targets.yaml",
            "/p/this-cycle-focus.yaml",
        ]
    );
}
