use ravel_lite::phase_summary::{
    compute_dream_labels, compute_labels, compute_reflect_labels, compute_triage_labels, format_labels_text, memory_word_total,
    word_count,
    Label, Phase,
};
use ravel_lite::plan_kg::{BacklogStatus, Item, Justification, MemoryStatus};
use ravel_lite::state::backlog::schema::{BacklogEntry, BacklogFile, BACKLOG_SCHEMA_VERSION};
use ravel_lite::state::memory::schema::{MemoryEntry, MemoryFile, MEMORY_SCHEMA_VERSION};

fn task(id: &str, title: &str, status: BacklogStatus) -> BacklogEntry {
    BacklogEntry {
        item: Item {
            id: id.into(),
            claim: title.into(),
            justifications: vec![Justification::Rationale { text: "body\n".into() }],
            status,
            supersedes: vec![],
            superseded_by: None,
            defeated_by: None,
            authored_at: "test".into(),
            authored_in: "test".into(),
        },
        category: "core".into(),
        blocked_reason: if status == BacklogStatus::Blocked { Some("upstream".into()) } else { None },
        dependencies: vec![],
        results: if status == BacklogStatus::Done { Some("done\n".into()) } else { None },
        handoff: None,
    }
}

fn backlog_file(items: Vec<BacklogEntry>) -> BacklogFile {
    BacklogFile { schema_version: BACKLOG_SCHEMA_VERSION, items }
}

fn mem(id: &str, title: &str, body: &str) -> MemoryEntry {
    MemoryEntry {
        item: Item {
            id: id.into(),
            claim: title.into(),
            justifications: vec![Justification::Rationale { text: body.into() }],
            status: MemoryStatus::Active,
            supersedes: vec![],
            superseded_by: None,
            defeated_by: None,
            authored_at: "test".into(),
            authored_in: "test".into(),
        },
        attribution: None,
    }
}

fn memfile(items: Vec<MemoryEntry>) -> MemoryFile {
    MemoryFile { schema_version: MEMORY_SCHEMA_VERSION, items }
}

fn simple(kind: &str, subject: &str) -> (String, String, Option<String>) {
    (kind.to_string(), subject.to_string(), None)
}

fn views(labels: &[Label]) -> Vec<(String, String, Option<String>)> {
    labels.iter().map(|l| (l.kind.clone(), l.subject.clone(), l.continuation.clone())).collect()
}

fn label(kind: &str, subject: &str, continuation: Option<&str>) -> Label {
    Label { kind: kind.into(), subject: subject.into(), continuation: continuation.map(|s| s.to_string()) }
}

#[test]
fn triage_with_no_mutations_emits_no_labels() {
    let backlog = backlog_file(vec![task("a", "A", BacklogStatus::Active)]);
    assert!(compute_triage_labels(&backlog, &backlog).is_empty());
}

#[test]
fn triage_emits_new_label_for_tasks_absent_in_baseline() {
    let baseline = BacklogFile::default();
    let current = backlog_file(vec![task("a", "Alpha", BacklogStatus::Active)]);
    let labels = compute_triage_labels(&baseline, &current);
    assert_eq!(views(&labels), vec![simple("NEW", "Alpha")]);
}

#[test]
fn triage_emits_done_label_only_for_status_flips_into_done() {
    let baseline = backlog_file(vec![task("a", "Alpha", BacklogStatus::Active), task("b", "Bravo", BacklogStatus::Done)]);
    let current = backlog_file(vec![task("a", "Alpha", BacklogStatus::Done), task("b", "Bravo", BacklogStatus::Done)]);
    let labels = compute_triage_labels(&baseline, &current);
    assert_eq!(views(&labels), vec![simple("DONE", "Alpha")]);
}

#[test]
fn triage_emits_obsolete_label_for_baseline_ids_missing_from_current() {
    let baseline = backlog_file(vec![task("a", "Alpha", BacklogStatus::Active), task("b", "Bravo", BacklogStatus::Active)]);
    let current = backlog_file(vec![task("a", "Alpha", BacklogStatus::Active)]);
    let labels = compute_triage_labels(&baseline, &current);
    assert_eq!(views(&labels), vec![simple("OBSOLETE", "Bravo")]);
}

#[test]
fn triage_emits_reprioritised_when_index_position_changes() {
    let baseline = backlog_file(vec![task("a", "Alpha", BacklogStatus::Active), task("b", "Bravo", BacklogStatus::Active)]);
    let current = backlog_file(vec![task("b", "Bravo", BacklogStatus::Active), task("a", "Alpha", BacklogStatus::Active)]);
    let labels = compute_triage_labels(&baseline, &current);
    assert_eq!(views(&labels), vec![simple("REPRIORITISED", "Bravo"), simple("REPRIORITISED", "Alpha")]);
}

#[test]
fn triage_orders_done_before_new_before_reprioritised_before_obsolete() {
    let baseline = backlog_file(vec![
        task("stale", "Stale", BacklogStatus::Active),
        task("kept", "Kept", BacklogStatus::Active),
        task("finish", "Finish", BacklogStatus::Active),
    ]);
    let current = backlog_file(vec![
        task("kept", "Kept", BacklogStatus::Active),
        task("finish", "Finish", BacklogStatus::Done),
        task("fresh", "Fresh", BacklogStatus::Active),
    ]);
    let labels = compute_triage_labels(&baseline, &current);
    let kinds: Vec<&str> = labels.iter().map(|l| l.kind.as_str()).collect();
    assert_eq!(kinds, vec!["DONE", "NEW", "REPRIORITISED", "OBSOLETE"]);
}

#[test]
fn reflect_emits_stale_when_body_changes_for_same_id() {
    let baseline = memfile(vec![mem("foo", "Foo rule", "old body\n")]);
    let current = memfile(vec![mem("foo", "Foo rule", "new tighter body\n")]);
    let labels = compute_reflect_labels(&baseline, &current);
    assert_eq!(views(&labels), vec![simple("STALE", "Foo rule")]);
}

#[test]
fn reflect_emits_stale_when_title_changes_even_if_body_identical() {
    let baseline = memfile(vec![mem("foo", "Old title", "same body\n")]);
    let current = memfile(vec![mem("foo", "New title", "same body\n")]);
    let labels = compute_reflect_labels(&baseline, &current);
    assert_eq!(views(&labels), vec![simple("STALE", "New title")]);
}

#[test]
fn reflect_emits_new_and_obsolete_for_added_and_removed_entries() {
    let baseline = memfile(vec![mem("old", "Retired rule", "body\n")]);
    let current = memfile(vec![mem("fresh", "Fresh rule", "body\n")]);
    let labels = compute_reflect_labels(&baseline, &current);
    assert_eq!(views(&labels), vec![simple("NEW", "Fresh rule"), simple("OBSOLETE", "Retired rule")]);
}

#[test]
fn reflect_with_no_changes_emits_no_labels() {
    let memory = memfile(vec![mem("a", "A", "body\n")]);
    assert!(compute_reflect_labels(&memory, &memory).is_empty());
}

#[test]
fn dream_always_appends_a_stats_two_line_entry() {
    let memory = memfile(vec![mem("a", "A", "one two three\n")]);
    let labels = compute_dream_labels(&memory, &memory);
    assert_eq!(labels.len(), 1, "unchanged memory still emits STATS");
    let stats = &labels[0];
    assert_eq!(stats.kind, "STATS");
    assert_eq!(stats.subject, "4");
    assert_eq!(stats.continuation.as_deref(), Some("4"));
}

#[test]
fn dream_stats_reports_before_and_after_word_counts_distinctly() {
    let baseline = memfile(vec![mem("a", "A", "one two three four five six seven eight nine ten\n")]);
    let current = memfile(vec![mem("a", "A", "shorter body here\n")]);
    let labels = compute_dream_labels(&baseline, &current);
    let stats = labels.iter().find(|l| l.kind == "STATS").unwrap();
    assert_eq!(stats.subject, "11");
    assert_eq!(stats.continuation.as_deref(), Some("4"));
}

#[test]
fn dream_consolidation_surfaces_as_new_plus_obsolete_plus_stats() {
    let baseline = memfile(vec![mem("a", "Fact A", "one two\n"), mem("b", "Fact B", "three four\n")]);
    let current = memfile(vec![mem("c", "Merged fact", "merged content\n")]);
    let labels = compute_dream_labels(&baseline, &current);
    let kinds: Vec<&str> = labels.iter().map(|l| l.kind.as_str()).collect();
    assert_eq!(kinds, vec!["NEW", "OBSOLETE", "OBSOLETE", "STATS"]);
}

#[test]
fn format_text_emits_one_line_per_simple_label() {
    let labels = vec![label("NEW", "Alpha", None), label("OBSOLETE", "Bravo", None)];
    let out = format_labels_text(&labels);
    assert_eq!(out, "[NEW] Alpha\n[OBSOLETE] Bravo\n");
}

#[test]
fn format_text_emits_continuation_line_for_two_line_labels() {
    let labels = vec![label("STATS", "42", Some("23"))];
    let out = format_labels_text(&labels);
    assert_eq!(out, "[STATS] 42\n       → 23\n");
}

#[test]
fn empty_summary_in_text_format_is_an_empty_string() {
    let out = format_labels_text(&vec![]);
    assert_eq!(out, "");
}

#[test]
fn word_count_splits_on_whitespace_runs() {
    assert_eq!(word_count(""), 0);
    assert_eq!(word_count("  one\ttwo\n\nthree  "), 3);
}

#[test]
fn compute_labels_dispatches_on_phase() {
    let b0 = BacklogFile::default();
    let b1 = backlog_file(vec![task("a", "Alpha", BacklogStatus::Active)]);
    let m = memfile(vec![mem("a", "A", "x\n")]);
    let t = compute_labels(Phase::Triage, &b0, &b1, &m, &m);
    assert_eq!(views(&t), vec![simple("NEW", "Alpha")]);
    let r = compute_labels(Phase::Reflect, &b0, &b1, &m, &m);
    assert!(r.is_empty());
    let d = compute_labels(Phase::Dream, &b0, &b1, &m, &m);
    assert_eq!(views(&d), vec![("STATS".to_string(), "2".to_string(), Some("2".to_string()))]);
}

#[test]
fn memory_word_total_counts_claims_and_prose() {
    let m = memfile(vec![mem("a", "two words", "three more words"), mem("b", "one", "")]);
    assert_eq!(memory_word_total(&m), Some(6));
    assert_eq!(memory_word_total(&memfile(vec![])), Some(0));
}
