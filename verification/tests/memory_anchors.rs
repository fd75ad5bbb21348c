use ravel_lite::plan_kg::{Item, Justification, MemoryStatus};
use ravel_lite::state::memory::check_anchors::{
    check_anchors, check_one_anchor, code_anchors, AnchorObservation, AnchorRef, SuspectReason, SuspectReport,
    REPORT_SCHEMA_VERSION,
};
use ravel_lite::state::memory::schema::{MemoryEntry, MemoryFile, MEMORY_SCHEMA_VERSION};

fn entry_with_anchor(id: &str, path: &str, sha_at_assertion: &str, status: MemoryStatus) -> MemoryEntry {
    MemoryEntry {
        item: Item {
            id: id.into(),
            claim: format!("claim for {id}"),
            justifications: vec![Justification::CodeAnchor {
                component: "ravel-lite:cli".into(),
                path: path.into(),
                lines: Some("1-10".into()),
                sha_at_assertion: sha_at_assertion.into(),
            }],
            status,
            supersedes: vec![],
            superseded_by: None,
            defeated_by: None,
            authored_at: "2026-04-29T00:00:00Z".into(),
            authored_in: "test".into(),
        },
        attribution: None,
    }
}

fn rationale_only_entry(id: &str) -> MemoryEntry {
    MemoryEntry {
        item: Item {
            id: id.into(),
            claim: format!("claim for {id}"),
            justifications: vec![Justification::Rationale { text: "free prose only.\n".into() }],
            status: MemoryStatus::Active,
            supersedes: vec![],
            superseded_by: None,
            defeated_by: None,
            authored_at: "2026-04-29T00:00:00Z".into(),
            authored_in: "test".into(),
        },
        attribution: None,
    }
}

fn present(sha: &str) -> AnchorObservation {
    AnchorObservation::Present { sha: sha.into() }
}

#[test]
fn empty_memory_yields_empty_report() {
    let memory = MemoryFile::default();
    let report = check_anchors(&memory, &vec![]);
    assert_eq!(report.checked, 0);
    assert!(report.suspects.is_empty());
}

#[test]
fn rationale_only_entries_are_not_visited() {
    let memory = MemoryFile {
        schema_version: MEMORY_SCHEMA_VERSION,
        items: vec![rationale_only_entry("r-1"), rationale_only_entry("r-2")],
    };
    assert!(code_anchors(&memory).is_empty());
    let report = check_anchors(&memory, &vec![]);
    assert_eq!(report.checked, 0, "no code-anchor justifications to visit");
    assert!(report.suspects.is_empty());
}

#[test]
fn matching_sha_produces_no_suspect() {
    let memory = MemoryFile {
        schema_version: MEMORY_SCHEMA_VERSION,
        items: vec![entry_with_anchor("matches", "src/lib.rs", "abc123", MemoryStatus::Active)],
    };
    let report = check_anchors(&memory, &vec![present("abc123")]);
    assert_eq!(report.checked, 1);
    assert!(report.suspects.is_empty(), "matching anchor must not be suspect");
}

#[test]
fn missing_file_yields_path_missing_suspect() {
    let memory = MemoryFile {
        schema_version: MEMORY_SCHEMA_VERSION,
        items: vec![entry_with_anchor(
            "ghost",
            "src/never-existed.rs",
            "0000000000000000000000000000000000000000",
            MemoryStatus::Active,
        )],
    };
    let report = check_anchors(&memory, &vec![AnchorObservation::Missing]);
    assert_eq!(report.checked, 1);
    assert_eq!(report.suspects.len(), 1);
    let suspect = &report.suspects[0];
    assert_eq!(suspect.entry_id, "ghost");
    assert_eq!(suspect.reason, SuspectReason::PathMissing);
    assert_eq!(suspect.actual_sha, None);
}

#[test]
fn changed_content_yields_sha_mismatch_suspect() {
    let memory = MemoryFile {
        schema_version: MEMORY_SCHEMA_VERSION,
        items: vec![entry_with_anchor("drifted", "src/changed.rs", "old-sha", MemoryStatus::Active)],
    };
    let report = check_anchors(&memory, &vec![present("new-sha")]);
    assert_eq!(report.checked, 1);
    assert_eq!(report.suspects.len(), 1);
    let suspect = &report.suspects[0];
    assert_eq!(suspect.entry_id, "drifted");
    assert_eq!(suspect.reason, SuspectReason::ShaMismatch);
    assert_eq!(suspect.expected_sha, "old-sha");
    assert_eq!(suspect.actual_sha.as_deref(), Some("new-sha"));
    assert_eq!(suspect.lines.as_deref(), Some("1-10"));
}

#[test]
fn defeated_entries_are_skipped() {
    let memory = MemoryFile {
        schema_version: MEMORY_SCHEMA_VERSION,
        items: vec![entry_with_anchor("old", "src/who-cares.rs", "abc", MemoryStatus::Defeated)],
    };
    let report = check_anchors(&memory, &vec![]);
    assert_eq!(report.checked, 0);
    assert!(report.suspects.is_empty());
}

#[test]
fn one_entry_with_multiple_anchors_each_checked_independently() {
    let mut entry = entry_with_anchor("multi", "src/ok.rs", "good", MemoryStatus::Active);
    entry.item.justifications.push(Justification::CodeAnchor {
        component: "ravel-lite:cli".into(),
        path: "src/missing.rs".into(),
        lines: None,
        sha_at_assertion: "abc".into(),
    });
    let memory = MemoryFile { schema_version: MEMORY_SCHEMA_VERSION, items: vec![entry] };
    let anchors = code_anchors(&memory);
    assert_eq!(anchors.len(), 2);
    assert_eq!(anchors[1].path, "src/missing.rs");
    let report = check_anchors(&memory, &vec![present("good"), AnchorObservation::Missing]);
    assert_eq!(report.checked, 2, "both anchors visited");
    assert_eq!(report.suspects.len(), 1, "only the missing-path anchor is suspect");
    assert_eq!(report.suspects[0].path, "src/missing.rs");
    assert_eq!(report.suspects[0].reason, SuspectReason::PathMissing);
}

#[test]
fn single_anchor_judgement_copies_the_anchor() {
    let a = AnchorRef {
        entry_id: "e".into(),
        component: "c".into(),
        path: "p".into(),
        lines: None,
        expected_sha: "x".into(),
    };
    assert!(check_one_anchor(&a, &present("x")).is_none());
    let s = check_one_anchor(&a, &present("y")).unwrap();
    assert_eq!((s.entry_id.as_str(), s.component.as_str(), s.path.as_str()), ("e", "c", "p"));
    let empty = SuspectReport::empty();
    assert_eq!(empty.schema_version, REPORT_SCHEMA_VERSION);
    assert_eq!(empty.checked, 0);
}
