use ravel_lite::state::backlog::parse_md::parse_backlog_markdown;
use ravel_lite::state::migrate::{
    backlogs_equivalent, migrate_action, refuse_overwrite_message, MigrateAction, MigrateOptions, OriginalPolicy,
};

const TWO_TASK_MARKDOWN: &str = "\
### First task

**Category:** `maintenance`
**Status:** `not_started`
**Dependencies:** none

**Description:**

First task body.

**Results:** _pending_

---

### Second task

**Category:** `research`
**Status:** `done`
**Dependencies:** First task

**Description:**

Second task body.

**Results:**

Done and dusted.

---
";

#[test]
fn migrate_writes_backlog_yaml_and_keeps_md_by_default() {
    let parsed = parse_backlog_markdown(TWO_TASK_MARKDOWN).unwrap();
    assert_eq!(parsed.items.len(), 2);
    let action = migrate_action(false, false, &MigrateOptions::default());
    assert_eq!(action, MigrateAction::Write { delete_original: false }, "default is keep-originals");
}

#[test]
fn migrate_with_delete_originals_removes_md_after_success() {
    let opts = MigrateOptions { original_policy: OriginalPolicy::Delete, ..MigrateOptions::default() };
    assert_eq!(migrate_action(false, false, &opts), MigrateAction::Write { delete_original: true });
}

#[test]
fn migrate_migrate_dry_run_writes_nothing() {
    let opts = MigrateOptions { dry_run: true, ..MigrateOptions::default() };
    assert_eq!(migrate_action(false, false, &opts), MigrateAction::DryRun { delete_original: false });
}

#[test]
fn migrate_migrate_is_idempotent_on_second_run() {
    let written = parse_backlog_markdown(TWO_TASK_MARKDOWN).unwrap();
    let reparsed = parse_backlog_markdown(TWO_TASK_MARKDOWN).unwrap();
    let equivalent = backlogs_equivalent(&written, &reparsed);
    assert!(equivalent);
    assert_eq!(
        migrate_action(true, equivalent, &MigrateOptions::default()),
        MigrateAction::AlreadyMigrated { delete_original: false }
    );
    assert_eq!(written.items.len(), 2);
}

#[test]
fn migrate_refuses_overwrite_on_diverged_yaml_without_force() {
    let mut existing = parse_backlog_markdown(TWO_TASK_MARKDOWN).unwrap();
    existing.items[0].item.claim = "Tampered title".into();
    let reparsed = parse_backlog_markdown(TWO_TASK_MARKDOWN).unwrap();
    let equivalent = backlogs_equivalent(&existing, &reparsed);
    assert!(!equivalent);
    assert_eq!(migrate_action(true, equivalent, &MigrateOptions::default()), MigrateAction::RefuseOverwrite);
    let msg = refuse_overwrite_message("/p/backlog.yaml");
    assert!(msg.contains("already exists"), "error must mention existence: {msg}");
    assert!(msg.contains("--force"), "error must cite --force: {msg}");

    let opts = MigrateOptions { force: true, ..MigrateOptions::default() };
    assert_eq!(migrate_action(true, equivalent, &opts), MigrateAction::Write { delete_original: false });
    assert_eq!(reparsed.items[0].item.claim, "First task");
}

#[test]
fn migrate_parse_failure_leaves_filesystem_untouched() {
    let err = parse_backlog_markdown("### Malformed task\n\nno category or status\n").unwrap_err();
    assert!(
        err.message.contains("Category") || err.message.contains("Status"),
        "error must name the missing field: {}",
        err.message
    );
}

#[test]
fn already_migrated_dry_run_deletes_nothing() {
    let opts = MigrateOptions { dry_run: true, original_policy: OriginalPolicy::Delete, force: false };
    assert_eq!(migrate_action(true, true, &opts), MigrateAction::AlreadyMigrated { delete_original: false });
    let opts = MigrateOptions { dry_run: false, original_policy: OriginalPolicy::Delete, force: false };
    assert_eq!(migrate_action(true, true, &opts), MigrateAction::AlreadyMigrated { delete_original: true });
}
