use ravel_lite::plan_kg::{BacklogStatus, Item, Justification};
use ravel_lite::state::backlog::lint_dependencies::{contains_id_as_word, lint_dependencies, scan_prose_mentions};
use ravel_lite::state::backlog::repair_stale_statuses::{
    analyse_repairs, check_report_format, run_repair_stale_statuses, RepairReason,
};
use ravel_lite::state::backlog::schema::{allocate_id, BacklogEntry, BacklogFile, PlanRowCounts, TaskCounts, BACKLOG_SCHEMA_VERSION};
use ravel_lite::state::backlog::yaml_io::{backlog_path, check_schema_version};
use ravel_lite::state::OutputFormat;
use ravel_lite::error::ErrorCode;

fn entry_full(id: &str, status: BacklogStatus, deps: &[&str], results: Option<&str>, body: &str) -> BacklogEntry {
    BacklogEntry {
        item: Item {
            id: id.into(),
            claim: id.into(),
            justifications: vec![Justification::Rationale { text: body.into() }],
            status,
            supersedes: vec![],
            superseded_by: None,
            defeated_by: None,
            authored_at: "test".into(),
            authored_in: "test".into(),
        },
        category: "maintenance".into(),
        blocked_reason: if status == BacklogStatus::Blocked { Some("upstream".into()) } else { None },
        dependencies: deps.iter().map(|s| s.to_string()).collect(),
        results: results.map(String::from),
        handoff: None,
    }
}

fn entry(id: &str, _title: &str, status: BacklogStatus, deps: &[&str]) -> BacklogEntry {
    entry_full(id, status, deps, None, "body\n")
}

fn entry_with(id: &str, dependencies: Vec<String>, body: &str) -> BacklogEntry {
    let deps: Vec<&str> = dependencies.iter().map(|s| s.as_str()).collect();
    entry_full(id, BacklogStatus::Active, &deps, None, body)
}

fn backlog_with(items: Vec<BacklogEntry>) -> BacklogFile {
    BacklogFile { schema_version: BACKLOG_SCHEMA_VERSION, items }
}

fn strings(v: &[&str]) -> Vec<String> {
    v.iter().map(|s| s.to_string()).collect()
}

// ----- schema ---------------------------------------------------------------

#[test]
fn backlog_file_default_has_current_schema_version() {
    let file = BacklogFile::default();
    assert_eq!(file.schema_version, BACKLOG_SCHEMA_VERSION);
    assert!(file.items.is_empty());
}

#[test]
fn allocate_id_suffixes_on_collision() {
    let existing = strings(&["foo", "foo-2"]);
    assert_eq!(allocate_id("Foo", &existing), "foo-3");
    assert_eq!(allocate_id("Foo!", &existing), "foo-3");
    assert_eq!(allocate_id("Bar", &existing), "bar");
}

#[test]
fn task_counts_tallies_every_status_and_sums_to_total() {
    let backlog = backlog_with(vec![
        entry("a", "A", BacklogStatus::Active, &[]),
        entry("b", "B", BacklogStatus::Active, &[]),
        entry("c", "C", BacklogStatus::Done, &[]),
        entry("d", "D", BacklogStatus::Blocked, &[]),
        entry("e", "E", BacklogStatus::Defeated, &[]),
        entry("f", "F", BacklogStatus::Superseded, &[]),
    ]);
    let counts = backlog.task_counts();
    assert_eq!(counts.total, 6);
    assert_eq!(counts.active, 2);
    assert_eq!(counts.done, 1);
    assert_eq!(counts.blocked, 1);
    assert_eq!(counts.defeated, 1);
    assert_eq!(counts.superseded, 1);
    assert_eq!(counts.active + counts.done + counts.blocked + counts.defeated + counts.superseded, counts.total);
}

#[test]
fn task_counts_on_empty_backlog_is_all_zero() {
    let counts = BacklogFile::default().task_counts();
    assert_eq!(counts, TaskCounts::default());
    assert_eq!(counts.total, 0);
}

#[test]
fn plan_row_counts_unblocked_requires_every_dep_done() {
    let backlog = backlog_with(vec![
        entry("dep-done", "Dep done", BacklogStatus::Done, &[]),
        entry("dep-active", "Dep active", BacklogStatus::Active, &[]),
        entry("ready", "Ready", BacklogStatus::Active, &["dep-done"]),
        entry("waiting", "Waiting", BacklogStatus::Active, &["dep-active"]),
        entry("partially-ready", "Partially ready", BacklogStatus::Active, &["dep-done", "dep-active"]),
    ]);
    let counts = backlog.plan_row_counts();
    assert_eq!(counts.unblocked, 2, "dep-active itself unblocked + ready");
    assert_eq!(counts.blocked, 2, "waiting + partially-ready are blocked on unmet deps");
}

#[test]
fn plan_row_counts_active_with_no_deps_is_unblocked() {
    let backlog = backlog_with(vec![entry("a", "A", BacklogStatus::Active, &[]), entry("b", "B", BacklogStatus::Active, &[])]);
    let counts = backlog.plan_row_counts();
    assert_eq!(counts.unblocked, 2);
    assert_eq!(counts.blocked, 0);
}

#[test]
fn plan_row_counts_unknown_dep_id_counts_as_unmet() {
    let backlog = backlog_with(vec![entry("orphan", "Orphan", BacklogStatus::Active, &["nonexistent-id"])]);
    let counts = backlog.plan_row_counts();
    assert_eq!(counts.unblocked, 0);
    assert_eq!(counts.blocked, 1);
}

#[test]
fn plan_row_counts_status_blocked_always_counts_as_blocked() {
    let backlog = backlog_with(vec![
        entry("explicitly-blocked", "X", BacklogStatus::Blocked, &[]),
        entry("blocked-with-done-deps", "Y", BacklogStatus::Blocked, &["foo"]),
        entry("foo", "Foo", BacklogStatus::Done, &[]),
    ]);
    let counts = backlog.plan_row_counts();
    assert_eq!(counts.unblocked, 0);
    assert_eq!(counts.blocked, 2);
}

#[test]
fn plan_row_counts_terminal_states_neither_unblocked_nor_blocked() {
    let backlog = backlog_with(vec![
        entry("d", "D", BacklogStatus::Done, &[]),
        entry("x", "X", BacklogStatus::Defeated, &[]),
        entry("s", "S", BacklogStatus::Superseded, &[]),
    ]);
    let counts = backlog.plan_row_counts();
    assert_eq!(counts.unblocked, 0);
    assert_eq!(counts.blocked, 0);
}

#[test]
fn plan_row_counts_received_counts_items_with_handoff_regardless_of_status() {
    let mut with_handoff = entry("with-handoff", "W", BacklogStatus::Done, &[]);
    with_handoff.handoff = Some("pending design\n".into());
    let mut pending_handoff = entry("pending-handoff", "P", BacklogStatus::Active, &[]);
    pending_handoff.handoff = Some("received dispatch\n".into());
    let backlog = backlog_with(vec![entry("no-handoff", "N", BacklogStatus::Active, &[]), with_handoff, pending_handoff]);
    let counts = backlog.plan_row_counts();
    assert_eq!(counts.received, 2);
    assert_eq!(counts.unblocked, 2, "no-handoff and pending-handoff both ready");
}

#[test]
fn plan_row_counts_empty_backlog_is_all_zero() {
    let counts = BacklogFile::default().plan_row_counts();
    assert_eq!(counts, PlanRowCounts::default());
}

#[test]
fn schema_version_gate_names_file_and_versions() {
    assert!(check_schema_version("/p/backlog.yaml", 1).is_ok());
    let err = check_schema_version("/p/backlog.yaml", 99).unwrap_err();
    assert_eq!(err.code, ErrorCode::Conflict);
    assert_eq!(err.message, "/p/backlog.yaml declares schema_version 99, expected 1.");
    assert_eq!(backlog_path("/p/plan"), "/p/plan/backlog.yaml");
}

// ----- lint -------------------------------------------------------------------

#[test]
fn no_drift_when_prose_mention_matches_structured_deps() {
    let backlog = backlog_with(vec![
        entry_with("foo", vec![], "original brief\n"),
        entry_with("bar", vec!["foo".into()], "depends on foo to finish\n"),
    ]);
    assert!(lint_dependencies(&backlog).drifts.is_empty());
}

#[test]
fn drift_when_prose_mention_missing_from_structured_deps() {
    let backlog = backlog_with(vec![entry_with("foo", vec![], "brief\n"), entry_with("bar", vec![], "see also foo for context\n")]);
    let report = lint_dependencies(&backlog);
    assert_eq!(report.drifts.len(), 1);
    let drift = &report.drifts[0];
    assert_eq!(drift.task_id, "bar");
    assert_eq!(drift.prose_mentioned, vec!["foo".to_string()]);
    assert_eq!(drift.structured_deps, Vec::<String>::new());
    assert_eq!(drift.missing, vec!["foo".to_string()]);
}

#[test]
fn structured_dep_not_in_prose_is_not_flagged() {
    let backlog = backlog_with(vec![
        entry_with("foo", vec![], "brief\n"),
        entry_with("bar", vec!["foo".into()], "no mention of the dep here\n"),
    ]);
    assert!(lint_dependencies(&backlog).drifts.is_empty());
}

#[test]
fn lint_dependencies_empty_backlog_yields_empty_report() {
    assert!(lint_dependencies(&backlog_with(vec![])).drifts.is_empty());
}

#[test]
fn prose_string_that_is_not_an_actual_id_is_not_flagged() {
    let backlog = backlog_with(vec![
        entry_with("foo", vec![], "brief\n"),
        entry_with("bar", vec![], "mentions some-other-thing not in backlog\n"),
    ]);
    assert!(lint_dependencies(&backlog).drifts.is_empty());
}

#[test]
fn self_mention_is_not_drift() {
    let backlog = backlog_with(vec![entry_with("foo", vec![], "this is foo's own brief; foo references itself\n")]);
    assert!(lint_dependencies(&backlog).drifts.is_empty());
}

#[test]
fn multiple_prose_mentions_all_reported_in_sorted_order() {
    let backlog = backlog_with(vec![
        entry_with("alpha", vec![], "brief\n"),
        entry_with("beta", vec![], "brief\n"),
        entry_with("gamma", vec!["alpha".into()], "needs alpha and beta\n"),
    ]);
    let report = lint_dependencies(&backlog);
    assert_eq!(report.drifts.len(), 1);
    let drift = &report.drifts[0];
    assert_eq!(drift.task_id, "gamma");
    assert_eq!(drift.prose_mentioned, vec!["alpha".to_string(), "beta".to_string()]);
    assert_eq!(drift.missing, vec!["beta".to_string()]);
}

#[test]
fn substring_match_does_not_count_without_word_boundaries() {
    let backlog = backlog_with(vec![
        entry_with("foo", vec![], "brief\n"),
        entry_with("qux", vec![], "references foobar and foo-bar-baz only\n"),
    ]);
    assert!(lint_dependencies(&backlog).drifts.is_empty());
}

#[test]
fn id_inside_backticks_is_matched() {
    let backlog = backlog_with(vec![entry_with("foo", vec![], "brief\n"), entry_with("bar", vec![], "See `foo` for details.\n")]);
    let report = lint_dependencies(&backlog);
    assert_eq!(report.drifts.len(), 1);
    assert_eq!(report.drifts[0].prose_mentioned, vec!["foo".to_string()]);
}

#[test]
fn item_with_no_rationale_does_not_panic() {
    let backlog = backlog_with(vec![entry_with("foo", vec![], "\n"), entry_with("bar", vec![], "\n")]);
    assert!(lint_dependencies(&backlog).drifts.is_empty());
}

#[test]
fn word_boundaries_are_slug_characters() {
    let hay: Vec<char> = "a foo-bar, foo.".chars().collect();
    let foo: Vec<char> = "foo".chars().collect();
    let foo_bar: Vec<char> = "foo-bar".chars().collect();
    assert!(contains_id_as_word(&hay, &foo));
    assert!(contains_id_as_word(&hay, &foo_bar));
    let mentions = scan_prose_mentions("beta then alpha then beta", &strings(&["alpha", "beta", "me"]), "me");
    assert_eq!(mentions, strings(&["alpha", "beta"]));
}

// ----- repair -------------------------------------------------------------------

#[test]
fn active_with_results_is_not_repaired() {
    let backlog = backlog_with(vec![entry_full("foo", BacklogStatus::Active, &[], Some("did the thing\n"), "body\n")]);
    assert!(analyse_repairs(&backlog).repairs.is_empty());
}

#[test]
fn blocked_with_all_deps_done_repairs_to_active() {
    let backlog = backlog_with(vec![
        entry_full("foo", BacklogStatus::Done, &[], Some("done\n"), "body\n"),
        entry_full("bar", BacklogStatus::Done, &[], Some("done\n"), "body\n"),
        entry_full("baz", BacklogStatus::Blocked, &["foo", "bar"], None, "body\n"),
    ]);
    let report = analyse_repairs(&backlog);
    assert_eq!(report.repairs.len(), 1);
    let r = &report.repairs[0];
    assert_eq!(r.task_id, "baz");
    assert_eq!(r.old_status, BacklogStatus::Blocked);
    assert_eq!(r.new_status, BacklogStatus::Active);
    assert_eq!(r.reason, RepairReason::DependenciesSatisfied);
}

#[test]
fn blocked_with_some_deps_pending_is_not_repaired() {
    let backlog = backlog_with(vec![
        entry_full("foo", BacklogStatus::Done, &[], Some("done\n"), "body\n"),
        entry_full("bar", BacklogStatus::Active, &[], None, "body\n"),
        entry_full("baz", BacklogStatus::Blocked, &["foo", "bar"], None, "body\n"),
    ]);
    assert!(analyse_repairs(&backlog).repairs.is_empty());
}

#[test]
fn blocked_with_no_dependencies_is_not_auto_unblocked() {
    let backlog = backlog_with(vec![entry_full("foo", BacklogStatus::Blocked, &[], None, "body\n")]);
    assert!(analyse_repairs(&backlog).repairs.is_empty());
}

#[test]
fn repair_stale_statuses_empty_backlog_yields_empty_report() {
    assert!(analyse_repairs(&backlog_with(vec![])).repairs.is_empty());
}

#[test]
fn run_applies_repairs_and_writes_back_when_not_dry_run() {
    let mut backlog = backlog_with(vec![
        entry_full("foo", BacklogStatus::Done, &[], Some("done\n"), "body\n"),
        entry_full("baz", BacklogStatus::Blocked, &["foo"], None, "body\n"),
    ]);
    let report = run_repair_stale_statuses(&mut backlog, false);
    assert_eq!(report.repairs.len(), 1, "one repair expected (baz → active)");
    let baz = backlog.items.iter().find(|e| e.item.id == "baz").unwrap();
    assert_eq!(baz.item.status, BacklogStatus::Active);
    assert_eq!(baz.blocked_reason, None, "blocked_reason must clear when an item is unblocked");
}

#[test]
fn run_dry_run_reports_without_writing() {
    let mut backlog = backlog_with(vec![
        entry_full("foo", BacklogStatus::Done, &[], Some("done\n"), "body\n"),
        entry_full("baz", BacklogStatus::Blocked, &["foo"], None, "body\n"),
    ]);
    let report = run_repair_stale_statuses(&mut backlog, true);
    assert_eq!(report.repairs.len(), 1);
    let baz = backlog.items.iter().find(|e| e.item.id == "baz").unwrap();
    assert_eq!(baz.item.status, BacklogStatus::Blocked);
}

#[test]
fn run_on_empty_backlog_returns_zero_and_writes_nothing() {
    let mut backlog = backlog_with(vec![]);
    let report = run_repair_stale_statuses(&mut backlog, false);
    assert_eq!(report.repairs.len(), 0);
}

#[test]
fn repair_is_idempotent() {
    let mut backlog = backlog_with(vec![
        entry_full("foo", BacklogStatus::Done, &[], Some("done\n"), "body\n"),
        entry_full("baz", BacklogStatus::Blocked, &["foo"], None, "body\n"),
    ]);
    run_repair_stale_statuses(&mut backlog, false);
    let second = run_repair_stale_statuses(&mut backlog, false);
    assert!(second.repairs.is_empty());
}

#[test]
fn repair_report_refuses_markdown() {
    assert!(check_report_format(OutputFormat::Yaml).is_ok());
    assert_eq!(check_report_format(OutputFormat::Markdown).unwrap_err().code, ErrorCode::InvalidInput);
}
