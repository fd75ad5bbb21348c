use ravel_lite::plan_inspect::{
    filter_backlog_by_justification, filter_backlog_by_status, filter_findings_by_justification,
    filter_findings_by_status, filter_intents_by_status, filter_memory_by_justification, filter_memory_by_status,
    run_list_items, run_query_by_justification, run_query_by_status, run_show_item, AnyEntry, InspectOutput,
    JustificationKindFilter, PlanFiles, PlanItemKind,
};
use ravel_lite::plan_kg::{BacklogStatus, FindingStatus, IntentStatus, Item, Justification, MemoryStatus};
use ravel_lite::state::backlog::schema::{BacklogEntry, BacklogFile, BACKLOG_SCHEMA_VERSION};
use ravel_lite::state::findings::schema::{FindingEntry, FindingsFile, FINDINGS_SCHEMA_VERSION};
use ravel_lite::state::intents::schema::{IntentEntry, IntentsFile, INTENTS_SCHEMA_VERSION};
use ravel_lite::state::memory::schema::{MemoryEntry, MemoryFile, MEMORY_SCHEMA_VERSION};

fn item<S>(id: &str, claim: String, status: S, justs: Vec<Justification>) -> Item<S> {
    Item {
        id: id.into(),
        claim,
        justifications: justs,
        status,
        supersedes: vec![],
        superseded_by: None,
        defeated_by: None,
        authored_at: "2026-04-29T00:00:00Z".into(),
        authored_in: "test".into(),
    }
}

fn intent(id: &str, status: IntentStatus, justs: Vec<Justification>) -> IntentEntry {
    IntentEntry { item: item(id, format!("intent {id}"), status, justs) }
}

fn backlog(id: &str, status: BacklogStatus, justs: Vec<Justification>) -> BacklogEntry {
    BacklogEntry {
        item: item(id, format!("task {id}"), status, justs),
        category: "core".into(),
        blocked_reason: None,
        dependencies: vec![],
        results: None,
        handoff: None,
    }
}

fn memory(id: &str, status: MemoryStatus, justs: Vec<Justification>) -> MemoryEntry {
    MemoryEntry { item: item(id, format!("memory {id}"), status, justs), attribution: None }
}

fn finding(id: &str, status: FindingStatus, justs: Vec<Justification>) -> FindingEntry {
    FindingEntry { item: item(id, format!("finding {id}"), status, justs), component: None, raised_in: None }
}

fn rationale(text: &str) -> Justification {
    Justification::Rationale { text: text.into() }
}

fn serves(id: &str) -> Justification {
    Justification::ServesIntent { intent_id: id.into() }
}

fn anchor(path: &str) -> Justification {
    Justification::CodeAnchor { component: "test:test".into(), path: path.into(), lines: None, sha_at_assertion: "deadbeef".into() }
}

fn defeats(id: &str) -> Justification {
    Justification::Defeats { item_id: id.into() }
}

fn full_plan() -> PlanFiles {
    PlanFiles {
        intents: IntentsFile {
            schema_version: INTENTS_SCHEMA_VERSION,
            items: vec![
                intent("i-a", IntentStatus::Active, vec![rationale("plan-A.\n")]),
                intent("i-b", IntentStatus::Satisfied, vec![rationale("plan-B.\n")]),
            ],
        },
        backlog: BacklogFile {
            schema_version: BACKLOG_SCHEMA_VERSION,
            items: vec![
                backlog("t-1", BacklogStatus::Active, vec![rationale("body.\n"), serves("i-a")]),
                backlog("t-2", BacklogStatus::Done, vec![rationale("body.\n")]),
                backlog("t-3", BacklogStatus::Blocked, vec![defeats("t-2")]),
            ],
        },
        memory: MemoryFile {
            schema_version: MEMORY_SCHEMA_VERSION,
            items: vec![
                memory("m-x", MemoryStatus::Active, vec![anchor("src/lib.rs")]),
                memory("m-y", MemoryStatus::Defeated, vec![rationale("note.\n")]),
            ],
        },
        findings: FindingsFile {
            schema_version: FINDINGS_SCHEMA_VERSION,
            items: vec![
                finding("f-1", FindingStatus::New, vec![rationale("observed.\n")]),
                finding("f-2", FindingStatus::Promoted, vec![rationale("observed.\n"), serves("i-a")]),
            ],
        },
    }
}

fn ids(out: &InspectOutput) -> Vec<String> {
    match out {
        InspectOutput::Intents(f) => f.items.iter().map(|e| e.item.id.clone()).collect(),
        InspectOutput::Backlog(f) => f.items.iter().map(|e| e.item.id.clone()).collect(),
        InspectOutput::Memory(f) => f.items.iter().map(|e| e.item.id.clone()).collect(),
        InspectOutput::Findings(f) => f.items.iter().map(|e| e.item.id.clone()).collect(),
        InspectOutput::Any(f) => f.items.iter().map(|e| e.id().to_string()).collect(),
    }
}

#[test]
fn filter_intents_by_status_picks_only_matching() {
    let file = IntentsFile {
        schema_version: INTENTS_SCHEMA_VERSION,
        items: vec![
            intent("a", IntentStatus::Active, vec![]),
            intent("b", IntentStatus::Satisfied, vec![]),
            intent("c", IntentStatus::Active, vec![]),
        ],
    };
    let active = filter_intents_by_status(&file, IntentStatus::Active);
    assert_eq!(active.len(), 2);
    assert_eq!(active[0].item.id, "a");
    assert_eq!(active[1].item.id, "c");
}

#[test]
fn filter_backlog_by_status_picks_blocked() {
    let file = BacklogFile {
        schema_version: BACKLOG_SCHEMA_VERSION,
        items: vec![
            backlog("a", BacklogStatus::Active, vec![]),
            backlog("b", BacklogStatus::Blocked, vec![]),
            backlog("c", BacklogStatus::Done, vec![]),
        ],
    };
    let blocked = filter_backlog_by_status(&file, BacklogStatus::Blocked);
    assert_eq!(blocked.len(), 1);
    assert_eq!(blocked[0].item.id, "b");
}

#[test]
fn filter_memory_by_status_excludes_terminal() {
    let file = MemoryFile {
        schema_version: MEMORY_SCHEMA_VERSION,
        items: vec![
            memory("a", MemoryStatus::Active, vec![]),
            memory("b", MemoryStatus::Defeated, vec![]),
            memory("c", MemoryStatus::Superseded, vec![]),
        ],
    };
    let active = filter_memory_by_status(&file, MemoryStatus::Active);
    assert_eq!(active.len(), 1);
    assert_eq!(active[0].item.id, "a");
}

#[test]
fn justification_kind_matches_each_variant() {
    let cases = [
        (
            JustificationKindFilter::CodeAnchor,
            Justification::CodeAnchor { component: "x".into(), path: "p".into(), lines: None, sha_at_assertion: "s".into() },
        ),
        (JustificationKindFilter::Rationale, Justification::Rationale { text: "r".into() }),
        (JustificationKindFilter::ServesIntent, Justification::ServesIntent { intent_id: "i".into() }),
        (JustificationKindFilter::Defeats, Justification::Defeats { item_id: "d".into() }),
        (JustificationKindFilter::Supersedes, Justification::Supersedes { item_id: "s".into() }),
        (JustificationKindFilter::External, Justification::External { uri: "u".into() }),
    ];
    for (filter, j) in &cases {
        assert!(filter.matches(j), "{filter:?} should match {j:?}");
    }
}

#[test]
fn justification_kind_filter_does_not_match_other_variants() {
    let r = Justification::Rationale { text: "x".into() };
    assert!(!JustificationKindFilter::CodeAnchor.matches(&r));
    assert!(!JustificationKindFilter::ServesIntent.matches(&r));
}

#[test]
fn filter_backlog_by_justification_serves_intent() {
    let file = BacklogFile {
        schema_version: BACKLOG_SCHEMA_VERSION,
        items: vec![
            backlog("a", BacklogStatus::Active, vec![rationale("body.\n")]),
            backlog("b", BacklogStatus::Active, vec![rationale("body.\n"), serves("i-1")]),
            backlog("c", BacklogStatus::Active, vec![serves("i-2")]),
        ],
    };
    let hits = filter_backlog_by_justification(&file, JustificationKindFilter::ServesIntent);
    assert_eq!(hits.len(), 2);
    assert_eq!(hits[0].item.id, "b");
    assert_eq!(hits[1].item.id, "c");
}

#[test]
fn filter_memory_by_justification_code_anchor() {
    let file = MemoryFile {
        schema_version: MEMORY_SCHEMA_VERSION,
        items: vec![
            memory("a", MemoryStatus::Active, vec![rationale("note.\n")]),
            memory("b", MemoryStatus::Active, vec![anchor("src/lib.rs")]),
        ],
    };
    let hits = filter_memory_by_justification(&file, JustificationKindFilter::CodeAnchor);
    assert_eq!(hits.len(), 1);
    assert_eq!(hits[0].item.id, "b");
}

#[test]
fn filter_findings_by_status_picks_only_matching() {
    let file = FindingsFile {
        schema_version: FINDINGS_SCHEMA_VERSION,
        items: vec![
            finding("a", FindingStatus::New, vec![]),
            finding("b", FindingStatus::Promoted, vec![]),
            finding("c", FindingStatus::New, vec![]),
        ],
    };
    let new = filter_findings_by_status(&file, FindingStatus::New);
    assert_eq!(new.len(), 2);
    assert_eq!(new[0].item.id, "a");
    assert_eq!(new[1].item.id, "c");
}

#[test]
fn filter_findings_by_justification_serves_intent() {
    let file = FindingsFile {
        schema_version: FINDINGS_SCHEMA_VERSION,
        items: vec![
            finding("a", FindingStatus::New, vec![rationale("body.\n")]),
            finding("b", FindingStatus::New, vec![rationale("body.\n"), serves("i-1")]),
        ],
    };
    let hits = filter_findings_by_justification(&file, JustificationKindFilter::ServesIntent);
    assert_eq!(hits.len(), 1);
    assert_eq!(hits[0].item.id, "b");
}

#[test]
fn run_list_items_per_kind_returns_only_that_kind() {
    let files = full_plan();
    assert_eq!(ids(&run_list_items(&files, Some(PlanItemKind::Intent))), vec!["i-a", "i-b"]);
    assert_eq!(ids(&run_list_items(&files, Some(PlanItemKind::BacklogItem))), vec!["t-1", "t-2", "t-3"]);
    assert_eq!(ids(&run_list_items(&files, Some(PlanItemKind::MemoryEntry))), vec!["m-x", "m-y"]);
    assert_eq!(ids(&run_list_items(&files, Some(PlanItemKind::Finding))), vec!["f-1", "f-2"]);
}

#[test]
fn run_list_items_no_kind_returns_unified_view() {
    let files = full_plan();
    let out = run_list_items(&files, None);
    assert!(matches!(out, InspectOutput::Any(_)));
    assert_eq!(ids(&out), vec!["i-a", "i-b", "t-1", "t-2", "t-3", "m-x", "m-y", "f-1", "f-2"]);
}

#[test]
fn run_show_item_finds_id_in_any_kind() {
    let files = full_plan();
    assert_eq!(run_show_item(&files, "i-a").unwrap().kind_str(), "intent");
    assert_eq!(run_show_item(&files, "t-1").unwrap().kind_str(), "backlog-item");
    assert_eq!(run_show_item(&files, "m-x").unwrap().kind_str(), "memory-entry");
    assert_eq!(run_show_item(&files, "f-1").unwrap().kind_str(), "finding");
}

#[test]
fn run_show_item_errors_when_id_not_found() {
    let files = full_plan();
    let err = run_show_item(&files, "nonexistent").unwrap_err();
    assert!(err.message.contains("nonexistent"), "error must echo id: {}", err.message);
}

#[test]
fn run_show_item_errors_on_id_collision_across_kinds() {
    let files = PlanFiles {
        intents: IntentsFile { schema_version: INTENTS_SCHEMA_VERSION, items: vec![intent("dup", IntentStatus::Active, vec![])] },
        backlog: BacklogFile { schema_version: BACKLOG_SCHEMA_VERSION, items: vec![backlog("dup", BacklogStatus::Active, vec![])] },
        memory: MemoryFile::default(),
        findings: FindingsFile::default(),
    };
    let err = run_show_item(&files, "dup").unwrap_err();
    let msg = err.message;
    assert!(msg.contains("ambiguous"), "error must say ambiguous: {msg}");
    assert!(msg.contains("intent"), "error must list intent kind: {msg}");
    assert!(msg.contains("backlog-item"), "error must list backlog kind: {msg}");
}

#[test]
fn run_query_by_status_per_kind_with_legal_value() {
    let files = full_plan();
    let out = run_query_by_status(&files, Some(PlanItemKind::BacklogItem), "blocked").unwrap();
    assert_eq!(ids(&out), vec!["t-3"]);
}

#[test]
fn run_query_by_status_per_kind_rejects_status_outside_kind_vocab() {
    let files = full_plan();
    let err = run_query_by_status(&files, Some(PlanItemKind::Intent), "blocked").unwrap_err();
    let msg = err.message;
    assert!(msg.contains("intent status"), "error must name the kind: {msg}");
    assert!(msg.contains("blocked"), "error must echo bad input: {msg}");
}

#[test]
fn run_query_by_status_cross_kind_unions_matches() {
    let files = full_plan();
    let out = run_query_by_status(&files, None, "active").unwrap();
    assert_eq!(ids(&out), vec!["i-a", "t-1", "m-x"]);
}

#[test]
fn run_query_by_status_cross_kind_rejects_status_no_kind_accepts() {
    let files = full_plan();
    let err = run_query_by_status(&files, None, "ghost").unwrap_err();
    let msg = err.message;
    assert!(msg.contains("ghost"), "error must echo bad input: {msg}");
    assert!(msg.contains("vocabulary"), "error must explain it's not in any kind's vocabulary: {msg}");
    assert!(msg.contains("finding"), "error must list finding vocabulary: {msg}");
}

#[test]
fn run_query_by_status_per_kind_finding_with_legal_value() {
    let files = full_plan();
    let out = run_query_by_status(&files, Some(PlanItemKind::Finding), "new").unwrap();
    assert_eq!(ids(&out), vec!["f-1"]);
}

#[test]
fn run_query_by_status_per_kind_finding_rejects_status_outside_vocab() {
    let files = full_plan();
    let err = run_query_by_status(&files, Some(PlanItemKind::Finding), "blocked").unwrap_err();
    let msg = err.message;
    assert!(msg.contains("finding status"), "error must name the kind: {msg}");
    assert!(msg.contains("blocked"), "error must echo bad input: {msg}");
}

#[test]
fn run_query_by_status_cross_kind_finds_finding_only_status() {
    let files = full_plan();
    let out = run_query_by_status(&files, None, "new").unwrap();
    assert_eq!(ids(&out), vec!["f-1"]);
}

#[test]
fn run_query_by_justification_serves_intent_picks_only_intent_serving_items() {
    let files = full_plan();
    let out = run_query_by_justification(&files, Some(PlanItemKind::BacklogItem), JustificationKindFilter::ServesIntent);
    assert_eq!(ids(&out), vec!["t-1"]);
}

#[test]
fn run_query_by_justification_cross_kind_walks_all_stores() {
    let files = full_plan();
    let out = run_query_by_justification(&files, None, JustificationKindFilter::CodeAnchor);
    assert_eq!(ids(&out), vec!["m-x"]);
    let out = run_query_by_justification(&files, None, JustificationKindFilter::ServesIntent);
    assert_eq!(ids(&out), vec!["t-1", "f-2"]);
}

#[test]
fn run_query_by_justification_per_kind_finding() {
    let files = full_plan();
    let out = run_query_by_justification(&files, Some(PlanItemKind::Finding), JustificationKindFilter::ServesIntent);
    assert_eq!(ids(&out), vec!["f-2"]);
}

#[test]
fn any_entry_id_and_kind_str() {
    let i = AnyEntry::Intent(intent("i-1", IntentStatus::Active, vec![]));
    let b = AnyEntry::Backlog(backlog("t-1", BacklogStatus::Active, vec![]));
    let m = AnyEntry::Memory(memory("m-1", MemoryStatus::Active, vec![]));
    let f = AnyEntry::Finding(finding("f-1", FindingStatus::New, vec![]));
    assert_eq!(i.id(), "i-1");
    assert_eq!(b.id(), "t-1");
    assert_eq!(m.id(), "m-1");
    assert_eq!(f.id(), "f-1");
    assert_eq!(i.kind_str(), "intent");
    assert_eq!(b.kind_str(), "backlog-item");
    assert_eq!(m.kind_str(), "memory-entry");
    assert_eq!(f.kind_str(), "finding");
}

#[test]
fn plan_inspect_refusal_messages_are_exact() {
    assert_eq!(
        PlanItemKind::parse("task").unwrap_err().message,
        "unknown --kind \"task\"; expected one of `intent`, `backlog-item`, `memory-entry`, `finding`"
    );
    assert_eq!(
        JustificationKindFilter::parse("anchor").unwrap_err().message,
        "unknown --justification-kind \"anchor\"; expected one of `code-anchor`, `rationale`, `serves-intent`, `defeats`, `supersedes`, `external`"
    );
    let files = full_plan();
    assert_eq!(
        run_show_item(&files, "zz").unwrap_err().message,
        "no item with id \"zz\" in any of intents.yaml, backlog.yaml, memory.yaml, findings.yaml"
    );
    assert_eq!(
        run_query_by_status(&files, Some(PlanItemKind::Intent), "blocked").unwrap_err().message,
        "unknown intent status \"blocked\"; expected one of [\"active\", \"satisfied\", \"defeated\", \"superseded\"]"
    );
    assert_eq!(
        run_query_by_status(&files, None, "ghost").unwrap_err().message,
        "status \"ghost\" is not a member of any kind's vocabulary. Intent: [\"active\", \"satisfied\", \"defeated\", \"superseded\"]; backlog-item: [\"active\", \"done\", \"defeated\", \"superseded\", \"blocked\"]; memory-entry: [\"active\", \"defeated\", \"superseded\"]; finding: [\"new\", \"promoted\", \"wontfix\", \"superseded\"]."
    );
}

#[test]
fn run_show_item_ambiguity_message_lists_count_and_kinds() {
    let files = PlanFiles {
        intents: IntentsFile { schema_version: INTENTS_SCHEMA_VERSION, items: vec![intent("dup", IntentStatus::Active, vec![])] },
        backlog: BacklogFile { schema_version: BACKLOG_SCHEMA_VERSION, items: vec![backlog("dup", BacklogStatus::Active, vec![])] },
        memory: MemoryFile::default(),
        findings: FindingsFile::default(),
    };
    assert_eq!(
        run_show_item(&files, "dup").unwrap_err().message,
        "id \"dup\" is ambiguous: 2 matches across kinds [\"intent\", \"backlog-item\"]. Use the per-kind verb (`state intents show`, `state backlog show`, `state memory show`, `state findings show`) to disambiguate."
    );
}
