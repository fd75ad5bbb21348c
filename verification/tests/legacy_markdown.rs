use ravel_lite::error::ErrorCode;
use ravel_lite::plan_kg::{BacklogStatus, Justification, MemoryStatus};
use ravel_lite::state::backlog::parse_md::parse_backlog_markdown;
use ravel_lite::state::memory::parse_md::parse_memory_markdown;
use ravel_lite::state::memory::schema::MEMORY_SCHEMA_VERSION;

const MINIMAL_TASK: &str = "\
### Add clippy `-D warnings` CI gate

**Category:** `maintenance`
**Status:** `not_started`
**Dependencies:** none

**Description:**

Cargo clippy is clean today. Add a CI gate.

**Results:** _pending_

---
";

#[test]
fn parses_minimal_task_with_legacy_not_started_mapped_to_active() {
    let backlog = parse_backlog_markdown(MINIMAL_TASK).unwrap();
    assert_eq!(backlog.items.len(), 1);
    let entry = &backlog.items[0];
    assert_eq!(entry.item.id, "add-clippy-d-warnings-ci-gate");
    assert_eq!(entry.item.claim, "Add clippy `-D warnings` CI gate");
    assert_eq!(entry.category, "maintenance");
    assert_eq!(entry.item.status, BacklogStatus::Active);
    assert!(entry.dependencies.is_empty());
    match &entry.item.justifications[0] {
        Justification::Rationale { text } => assert!(text.contains("CI gate")),
        other => panic!("expected Rationale justification, got {other:?}"),
    }
    assert_eq!(entry.results, None);
    assert_eq!(entry.handoff, None);
}

#[test]
fn legacy_in_progress_maps_to_active() {
    let input = "\
### In-flight task

**Category:** `research`
**Status:** `in_progress`
**Dependencies:** none

**Description:**

Body.

**Results:** _pending_

---
";
    let backlog = parse_backlog_markdown(input).unwrap();
    assert_eq!(backlog.items[0].item.status, BacklogStatus::Active);
}

#[test]
fn parses_task_with_results_and_handoff() {
    let input = "\
### Finished task

**Category:** `research`
**Status:** `done`
**Dependencies:** none

**Description:**

Did the thing.

**Results:**

Did the thing successfully.

---
[HANDOFF]

Promote `follow-up-task` to backlog.
";
    let backlog = parse_backlog_markdown(input).unwrap();
    assert_eq!(backlog.items.len(), 1);
    let entry = &backlog.items[0];
    assert_eq!(entry.item.status, BacklogStatus::Done);
    assert!(entry.results.as_deref().unwrap().contains("successfully"));
    assert!(entry.handoff.as_deref().unwrap().contains("Promote `follow-up-task` to backlog."));
}

#[test]
fn parses_dependencies_as_slugged_ids() {
    let input = "\
### Dependent task

**Category:** `enhancement`
**Status:** `not_started`
**Dependencies:** Research: expose plan-state markdown, Another Upstream

**Description:**

Waits for the two above.

**Results:** _pending_

---
";
    let backlog = parse_backlog_markdown(input).unwrap();
    assert_eq!(
        backlog.items[0].dependencies,
        vec!["research-expose-plan-state-markdown".to_string(), "another-upstream".to_string()]
    );
}

#[test]
fn parses_blocked_status_with_reason() {
    let input = "\
### Blocked task

**Category:** `maintenance`
**Status:** `blocked (reason: upstream pending 2.1.117)`
**Dependencies:** none

**Description:**

Waiting for the agent upstream.

**Results:** _pending_

---
";
    let backlog = parse_backlog_markdown(input).unwrap();
    assert_eq!(backlog.items[0].item.status, BacklogStatus::Blocked);
    assert_eq!(backlog.items[0].blocked_reason.as_deref(), Some("upstream pending 2.1.117"));
}

#[test]
fn multiple_tasks_split_on_separator() {
    let input = format!("{MINIMAL_TASK}\n{MINIMAL_TASK}");
    let backlog = parse_backlog_markdown(&input).unwrap();
    assert_eq!(backlog.items.len(), 2);
    assert_eq!(backlog.items[0].item.id, "add-clippy-d-warnings-ci-gate");
    assert_eq!(backlog.items[1].item.id, "add-clippy-d-warnings-ci-gate-2");
}

#[test]
fn rejects_task_missing_category() {
    let input = "\
### No category task

**Status:** `not_started`
**Dependencies:** none

**Description:**

Body.

**Results:** _pending_

---
";
    let err = parse_backlog_markdown(input).unwrap_err();
    assert_eq!(err.code, ErrorCode::InvalidInput);
    assert!(err.message.contains("Category"), "error must name the missing field: {}", err.message);
    assert_eq!(err.message, "failed to parse task block #1: missing **Category:** field");
}

const MINIMAL_MEMORY: &str = "\
# Memory

## All prompt loading routes through `substitute_tokens`
Ad-hoc `str::replace` bypasses the hard-error guard regex. Drift guards require one canonical substitution path.

## Config overlays use deep-merge
`src/config.rs` implements `*.local.yaml` overlays. Scalar collisions go to overlay, map collisions recurse.
";

#[test]
fn parses_two_entries_skipping_top_level_header() {
    let memory = parse_memory_markdown(MINIMAL_MEMORY).unwrap();
    assert_eq!(memory.items.len(), 2);
    assert_eq!(memory.items[0].item.id, "all-prompt-loading-routes-through-substitute-tokens");
    assert_eq!(memory.items[0].item.claim, "All prompt loading routes through `substitute_tokens`");
    match &memory.items[0].item.justifications[0] {
        Justification::Rationale { text } => assert!(text.contains("str::replace")),
        other => panic!("expected Rationale justification, got {other:?}"),
    }
    assert_eq!(memory.items[1].item.id, "config-overlays-use-deep-merge");
}

#[test]
fn body_preserves_multiple_paragraphs() {
    let input = "\
# Memory

## Multi-paragraph entry

First paragraph.

Second paragraph with `code`.
";
    let memory = parse_memory_markdown(input).unwrap();
    assert_eq!(memory.items.len(), 1);
    let body = match &memory.items[0].item.justifications[0] {
        Justification::Rationale { text } => text.clone(),
        other => panic!("expected Rationale, got {other:?}"),
    };
    assert!(body.contains("First paragraph."));
    assert!(body.contains("Second paragraph with `code`."));
    assert!(body.contains("\n\n"));
    assert_eq!(body, "First paragraph.\n\nSecond paragraph with `code`.\n");
}

#[test]
fn id_suffixes_on_title_collision() {
    let input = "\
# Memory

## Same title
First body.

## Same title
Second body.
";
    let memory = parse_memory_markdown(input).unwrap();
    assert_eq!(memory.items[0].item.id, "same-title");
    assert_eq!(memory.items[1].item.id, "same-title-2");
}

#[test]
fn rejects_entry_with_empty_body() {
    let input = "\
# Memory

## Empty body entry

## Next entry
real body
";
    let err = parse_memory_markdown(input).unwrap_err();
    assert!(err.message.contains("no body"), "error must mention empty body: {}", err.message);
    assert_eq!(err.message, "failed to parse memory entry #1: memory entry \"Empty body entry\" has no body");
}

#[test]
fn empty_input_parses_to_zero_entries() {
    let memory = parse_memory_markdown("").unwrap();
    assert!(memory.items.is_empty());
    assert_eq!(memory.schema_version, MEMORY_SCHEMA_VERSION);
}

#[test]
fn preamble_only_parses_to_zero_entries() {
    let memory = parse_memory_markdown("# Memory\n\nsome preamble\n").unwrap();
    assert!(memory.items.is_empty());
}

#[test]
fn migrated_entries_default_to_active_status_and_legacy_provenance() {
    let memory = parse_memory_markdown(MINIMAL_MEMORY).unwrap();
    let first = &memory.items[0];
    assert_eq!(first.item.status, MemoryStatus::Active);
    assert_eq!(first.item.authored_at, "legacy");
    assert_eq!(first.item.authored_in, "migrate");
    assert!(first.attribution.is_none());
}

#[test]
fn memory_title_must_not_be_blank() {
    let err = parse_memory_markdown("##  \nbody\n").unwrap_err();
    assert_eq!(err.message, "failed to parse memory entry #1: memory entry title is empty");
}
