use ravel_lite::component_ref::ComponentRef;
use ravel_lite::error::ErrorCode;
use ravel_lite::state::focus_objections::schema::{FocusObjectionsFile, Objection};
use ravel_lite::state::focus_objections::verbs::{
    run_add_premature, run_add_skip_item, run_add_wrong_target, run_clear as clear_objections, run_list,
};
use ravel_lite::state::this_cycle_focus::schema::ThisCycleFocus;
use ravel_lite::state::this_cycle_focus::verbs::{run_clear as clear_focus, run_set, run_show};
use ravel_lite::state::OutputFormat;

fn items(ids: &[&str]) -> Vec<String> {
    ids.iter().map(|s| s.to_string()).collect()
}

// ----- this-cycle-focus ----------------------------------------------------------

#[test]
fn run_set_writes_focus_with_all_fields() {
    let focus = run_set("atlas:atlas-core", &items(&["t-001", "t-005"]), Some("Order: t-001 then t-005.")).unwrap();
    assert_eq!(focus.target, "atlas:atlas-core");
    assert_eq!(focus.backlog_items, vec!["t-001", "t-005"]);
    assert_eq!(
        focus.notes.as_deref(),
        Some("Order: t-001 then t-005.\n"),
        "notes should have trailing newline normalised"
    );
}

#[test]
fn run_set_overwrites_prior_focus() {
    let mut slot: Option<ThisCycleFocus> = Some(run_set("atlas:atlas-core", &items(&["t-001"]), None).unwrap());
    assert_eq!(slot.as_ref().unwrap().backlog_items.len(), 1);
    slot = Some(run_set("sidekick:router", &items(&[]), Some("Different focus.")).unwrap());
    let focus = slot.unwrap();
    assert_eq!(focus.target, "sidekick:router");
    assert!(focus.backlog_items.is_empty());
    assert_eq!(focus.notes.as_deref(), Some("Different focus.\n"));
}

#[test]
fn run_set_rejects_malformed_target() {
    let err = run_set("atlas-only", &items(&[]), None).unwrap_err();
    assert!(err.message.contains("repo_slug"), "error must explain expected shape: {}", err.message);
    assert_eq!(err.code, ErrorCode::InvalidInput);
}

#[test]
fn run_set_rejects_target_with_empty_repo_slug() {
    let err = run_set(":only-component", &items(&[]), None).unwrap_err();
    assert!(err.message.contains("repo_slug"));
}

#[test]
fn run_set_rejects_target_with_empty_component_id() {
    let err = run_set("only-repo:", &items(&[]), None).unwrap_err();
    assert!(err.message.contains("component_id"));
}

#[test]
fn run_set_rejects_empty_item_id() {
    let err = run_set("atlas:core", &items(&[""]), None).unwrap_err();
    assert!(err.message.contains("non-empty"), "error must mention non-empty: {}", err.message);
}

#[test]
fn run_set_keeps_notes_that_already_end_in_newline() {
    let focus = run_set("atlas:core", &items(&[]), Some("done\n")).unwrap();
    assert_eq!(focus.notes.as_deref(), Some("done\n"));
    assert!(run_set("atlas:core", &items(&[]), None).unwrap().notes.is_none());
}

#[test]
fn run_clear_is_idempotent() {
    let mut slot: Option<ThisCycleFocus> = None;
    clear_focus(&mut slot);
    slot = Some(run_set("atlas:core", &items(&[]), None).unwrap());
    clear_focus(&mut slot);
    clear_focus(&mut slot);
    assert!(slot.is_none());
}

#[test]
fn run_show_needs_a_focus_and_refuses_markdown() {
    assert_eq!(run_show(false, OutputFormat::Yaml).unwrap_err().code, ErrorCode::NotFound);
    assert_eq!(run_show(true, OutputFormat::Markdown).unwrap_err().code, ErrorCode::InvalidInput);
    assert!(run_show(true, OutputFormat::Json).is_ok());
}

// ----- focus-objections ----------------------------------------------------------

#[test]
fn run_add_wrong_target_appends_typed_objection() {
    let mut file = FocusObjectionsFile::default();
    run_add_wrong_target(&mut file, ComponentRef::new("atlas", "atlas-ontology"), "Need ontology change first").unwrap();
    assert_eq!(file.objections.len(), 1);
    match &file.objections[0] {
        Objection::WrongTarget { suggested_target, reasoning } => {
            assert_eq!(suggested_target.repo_slug, "atlas");
            assert_eq!(suggested_target.component_id, "atlas-ontology");
            assert_eq!(reasoning, "Need ontology change first\n");
        }
        other => panic!("expected WrongTarget, got {other:?}"),
    }
}

#[test]
fn run_add_skip_item_appends_typed_objection() {
    let mut file = FocusObjectionsFile::default();
    run_add_skip_item(&mut file, "t-007", "Blocked upstream").unwrap();
    assert_eq!(file.objections.len(), 1);
    assert!(matches!(&file.objections[0], Objection::SkipItem { item_id, .. } if item_id == "t-007"));
}

#[test]
fn run_add_premature_appends_typed_objection() {
    let mut file = FocusObjectionsFile::default();
    run_add_premature(&mut file, "Understand X first").unwrap();
    assert_eq!(file.objections.len(), 1);
    assert!(matches!(&file.objections[0], Objection::Premature { .. }));
}

#[test]
fn each_add_verb_rejects_empty_reasoning() {
    let mut file = FocusObjectionsFile::default();
    assert!(run_add_wrong_target(&mut file, ComponentRef::new("a", "b"), "").is_err());
    assert!(run_add_skip_item(&mut file, "t-1", "").is_err());
    assert!(run_add_premature(&mut file, "").is_err());
    assert!(file.objections.is_empty());
}

#[test]
fn run_add_skip_item_rejects_empty_item_id() {
    let mut file = FocusObjectionsFile::default();
    let err = run_add_skip_item(&mut file, "", "reasoning").unwrap_err();
    assert!(err.message.contains("--item-id"));
}

#[test]
fn objections_accumulate_across_calls() {
    let mut file = FocusObjectionsFile::default();
    run_add_wrong_target(&mut file, ComponentRef::new("a", "b"), "r1").unwrap();
    run_add_skip_item(&mut file, "t-1", "r2").unwrap();
    run_add_premature(&mut file, "r3").unwrap();
    assert_eq!(file.objections.len(), 3);
    assert_eq!(file.objections[0].kind_str(), "wrong-target");
    assert_eq!(file.objections[1].kind_str(), "skip-item");
    assert_eq!(file.objections[2].kind_str(), "premature");
}

#[test]
fn verbs_run_clear_is_idempotent() {
    let mut file = FocusObjectionsFile::default();
    clear_objections(&mut file);
    run_add_premature(&mut file, "r").unwrap();
    clear_objections(&mut file);
    clear_objections(&mut file);
    assert!(file.objections.is_empty());
}

#[test]
fn objections_list_refuses_markdown() {
    assert!(run_list(OutputFormat::Markdown).is_err());
    assert!(run_list(OutputFormat::Yaml).is_ok());
}

#[test]
fn objection_refusal_messages_are_exact() {
    let mut file = FocusObjectionsFile::default();
    let err = run_add_wrong_target(&mut file, ComponentRef::new("atlas", "atlas-ontology"), "").unwrap_err();
    assert_eq!(err.message, "--reasoning must be non-empty");
    assert_eq!(run_add_skip_item(&mut file, "", "why").unwrap_err().message, "--item-id must be non-empty");
    assert_eq!(run_add_skip_item(&mut file, "t-1", "").unwrap_err().message, "--reasoning must be non-empty");
    assert_eq!(run_add_premature(&mut file, "").unwrap_err().message, "--reasoning must be non-empty");
    assert!(file.objections.is_empty());
}
