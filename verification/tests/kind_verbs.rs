use ravel_lite::plan_kg::{FindingStatus, IntentStatus, Item, Justification, MemoryStatus};
use ravel_lite::state::findings::schema::{FindingEntry, FindingsFile, FINDINGS_SCHEMA_VERSION};
use ravel_lite::state::findings::verbs as findings;
use ravel_lite::state::intents::schema::{IntentEntry, IntentsFile, INTENTS_SCHEMA_VERSION};
use ravel_lite::state::intents::verbs as intents;
use ravel_lite::state::memory::schema::{MemoryEntry, MemoryFile, MEMORY_SCHEMA_VERSION};
use ravel_lite::state::memory::verbs as memory;

fn item<S>(id: &str, claim: &str, status: S, justs: Vec<Justification>) -> Item<S> {
    Item {
        id: id.into(),
        claim: claim.into(),
        justifications: justs,
        status,
        supersedes: vec![],
        superseded_by: None,
        defeated_by: None,
        authored_at: "2026-04-29T00:00:00Z".into(),
        authored_in: "test".into(),
    }
}

fn rationale(text: &str) -> Vec<Justification> {
    vec![Justification::Rationale { text: text.into() }]
}

fn first_rationale(js: &[Justification]) -> &str {
    match &js[0] {
        Justification::Rationale { text } => text.as_str(),
        other => panic!("expected Rationale justification, got {other:?}"),
    }
}

// ----- memory -------------------------------------------------------------------

fn mem_entry(id: &str, claim: &str, body: &str) -> MemoryEntry {
    MemoryEntry { item: item(id, claim, MemoryStatus::Active, rationale(body)), attribution: None }
}

fn sample_memory() -> MemoryFile {
    MemoryFile {
        schema_version: MEMORY_SCHEMA_VERSION,
        items: vec![mem_entry("foo", "Foo claim", "Foo body.\n"), mem_entry("bar", "Bar claim", "Bar body.\n")],
    }
}

fn mem_request(title: &str, body: &str) -> memory::AddRequest {
    memory::AddRequest {
        title: title.into(),
        body: body.into(),
        authored_at: Some("2026-04-29T00:00:00Z".into()),
        authored_in: Some("test".into()),
        attribution: None,
    }
}

#[test]
fn memory_find_entry_returns_entry_by_id() {
    let m = sample_memory();
    assert_eq!(memory::find_entry(&m, "bar").unwrap().item.id, "bar");
}

#[test]
fn memory_find_entry_errors_when_id_not_found() {
    let err = memory::find_entry(&sample_memory(), "nonexistent").unwrap_err();
    assert!(err.message.contains("nonexistent"));
}

#[test]
fn memory_run_add_appends_entry_with_allocated_id() {
    let mut m = sample_memory();
    memory::run_add(&mut m, &mem_request("New Entry", "Body of new entry.\n"));
    let last = m.items.last().unwrap();
    assert_eq!(last.item.id, "new-entry");
    assert_eq!(last.item.claim, "New Entry");
    assert_eq!(last.item.status, MemoryStatus::Active);
}

#[test]
fn memory_run_add_records_rationale_as_first_justification() {
    let mut m = MemoryFile::default();
    memory::run_add(&mut m, &mem_request("Title", "Rationale text.\n"));
    let entry = m.items.last().unwrap();
    assert_eq!(entry.item.justifications.len(), 1);
    assert_eq!(first_rationale(&entry.item.justifications), "Rationale text.\n");
}

#[test]
fn run_add_propagates_attribution_when_provided() {
    let mut m = MemoryFile::default();
    let mut req = mem_request("Title", "Body.\n");
    req.attribution = Some("atlas:atlas-core".into());
    memory::run_add(&mut m, &req);
    assert_eq!(m.items[0].attribution.as_deref(), Some("atlas:atlas-core"));
}

#[test]
fn run_init_populates_empty_memory() {
    let mut stored = MemoryFile::default();
    memory::run_init(&mut stored, sample_memory()).unwrap();
    assert_eq!(stored.items.len(), 2);
}

#[test]
fn run_init_refuses_to_overwrite_non_empty_memory() {
    let mut stored = sample_memory();
    let err = memory::run_init(&mut stored, sample_memory()).unwrap_err();
    assert!(err.message.contains("non-empty"), "error must explain refusal: {}", err.message);
}

#[test]
fn run_set_body_rewrites_first_rationale_justification() {
    let mut m = sample_memory();
    memory::run_set_body(&mut m, "foo", "Rewritten body.\n").unwrap();
    let foo = m.items.iter().find(|e| e.item.id == "foo").unwrap();
    assert_eq!(first_rationale(&foo.item.justifications), "Rewritten body.\n");
}

#[test]
fn run_set_body_inserts_rationale_when_none_exists() {
    let mut m = MemoryFile::default();
    m.items.push(MemoryEntry { item: item("no-rationale", "Claim", MemoryStatus::Active, vec![]), attribution: None });
    memory::run_set_body(&mut m, "no-rationale", "First body.\n").unwrap();
    let entry = m.items.iter().find(|e| e.item.id == "no-rationale").unwrap();
    assert_eq!(entry.item.justifications.len(), 1);
    assert_eq!(first_rationale(&entry.item.justifications), "First body.\n");
}

#[test]
fn memory_run_set_title_updates_claim_but_preserves_id() {
    let mut m = sample_memory();
    memory::run_set_title(&mut m, "bar", "Bar's New Claim").unwrap();
    let bar = m.items.iter().find(|e| e.item.id == "bar").unwrap();
    assert_eq!(bar.item.claim, "Bar's New Claim");
    assert_eq!(bar.item.id, "bar");
}

#[test]
fn memory_run_set_status_accepts_legal_transition() {
    let mut m = sample_memory();
    memory::run_set_status(&mut m, "foo", "defeated").unwrap();
    assert_eq!(m.items[0].item.status, MemoryStatus::Defeated);
}

#[test]
fn memory_run_set_status_rejects_unknown_status_string() {
    let mut m = sample_memory();
    let err = memory::run_set_status(&mut m, "foo", "ghost").unwrap_err();
    assert!(err.message.contains("ghost"), "error must cite the unknown value: {}", err.message);
    assert!(err.message.contains("active"), "error must list legal values: {}", err.message);
}

#[test]
fn memory_run_set_status_rejects_illegal_transition() {
    let mut m = sample_memory();
    m.items[0].item.status = MemoryStatus::Defeated;
    let err = memory::run_set_status(&mut m, "foo", "active").unwrap_err();
    let msg = err.message;
    assert!(msg.contains("illegal"), "error must say illegal: {msg}");
    assert!(msg.contains("defeated"), "error must show from-state: {msg}");
    assert!(msg.contains("active"), "error must show to-state: {msg}");
}

#[test]
fn memory_run_set_status_self_transition_is_a_noop() {
    let mut m = sample_memory();
    memory::run_set_status(&mut m, "foo", "active").unwrap();
    assert_eq!(m.items[0].item.status, MemoryStatus::Active);
}

#[test]
fn run_delete_removes_entry_by_id() {
    let mut m = sample_memory();
    memory::run_delete(&mut m, "foo").unwrap();
    assert_eq!(m.items.len(), 1);
    assert_eq!(m.items[0].item.id, "bar");
}

#[test]
fn run_delete_errors_on_unknown_id() {
    let mut m = sample_memory();
    let err = memory::run_delete(&mut m, "nonexistent").unwrap_err();
    assert!(err.message.contains("nonexistent"), "error must cite the bad id: {}", err.message);
    assert_eq!(m.items.len(), 2);
}

// ----- intents ------------------------------------------------------------------

fn sample_intents() -> IntentsFile {
    IntentsFile {
        schema_version: INTENTS_SCHEMA_VERSION,
        items: vec![
            IntentEntry { item: item("foo", "Foo claim", IntentStatus::Active, rationale("Foo body.\n")) },
            IntentEntry { item: item("bar", "Bar claim", IntentStatus::Active, rationale("Bar body.\n")) },
        ],
    }
}

fn intent_request(claim: &str, body: &str) -> intents::AddRequest {
    intents::AddRequest {
        claim: claim.into(),
        body: body.into(),
        authored_at: Some("2026-04-29T00:00:00Z".into()),
        authored_in: Some("test".into()),
    }
}

#[test]
fn intents_find_entry_returns_entry_by_id() {
    assert_eq!(intents::find_entry(&sample_intents(), "bar").unwrap().item.id, "bar");
}

#[test]
fn intents_find_entry_errors_when_id_not_found() {
    assert!(intents::find_entry(&sample_intents(), "nonexistent").unwrap_err().message.contains("nonexistent"));
}

#[test]
fn intents_run_add_appends_entry_with_allocated_id() {
    let mut f = sample_intents();
    intents::run_add(&mut f, &intent_request("New Intent", "Body.\n"));
    let last = f.items.last().unwrap();
    assert_eq!(last.item.id, "new-intent");
    assert_eq!(last.item.claim, "New Intent");
    assert_eq!(last.item.status, IntentStatus::Active);
}

#[test]
fn verbs_run_add_records_rationale_as_first_justification() {
    let mut f = IntentsFile::default();
    intents::run_add(&mut f, &intent_request("Title", "Rationale text.\n"));
    let entry = f.items.last().unwrap();
    assert_eq!(entry.item.justifications.len(), 1);
    assert_eq!(first_rationale(&entry.item.justifications), "Rationale text.\n");
}

#[test]
fn verbs_run_set_status_accepts_legal_transition() {
    let mut f = sample_intents();
    intents::run_set_status(&mut f, "foo", "satisfied").unwrap();
    assert_eq!(f.items[0].item.status, IntentStatus::Satisfied);
}

#[test]
fn verbs_run_set_status_rejects_unknown_status_string() {
    let mut f = sample_intents();
    let err = intents::run_set_status(&mut f, "foo", "ghost").unwrap_err();
    assert!(err.message.contains("ghost"));
    assert!(err.message.contains("active"));
}

#[test]
fn intents_run_set_status_rejects_illegal_transition() {
    let mut f = sample_intents();
    f.items[0].item.status = IntentStatus::Satisfied;
    let err = intents::run_set_status(&mut f, "foo", "active").unwrap_err();
    assert!(err.message.contains("illegal"));
    assert!(err.message.contains("satisfied"));
}

#[test]
fn intents_run_set_status_self_transition_is_a_noop() {
    let mut f = sample_intents();
    intents::run_set_status(&mut f, "foo", "active").unwrap();
    assert_eq!(f.items[0].item.status, IntentStatus::Active);
}

#[test]
fn verbs_run_set_status_errors_on_unknown_id() {
    let mut f = sample_intents();
    let err = intents::run_set_status(&mut f, "nonexistent", "satisfied").unwrap_err();
    assert!(err.message.contains("nonexistent"));
}

// ----- findings -----------------------------------------------------------------

fn sample_findings() -> FindingsFile {
    FindingsFile {
        schema_version: FINDINGS_SCHEMA_VERSION,
        items: vec![
            FindingEntry { item: item("foo", "Foo claim", FindingStatus::New, rationale("Foo body.\n")), component: None, raised_in: None },
            FindingEntry { item: item("bar", "Bar claim", FindingStatus::New, rationale("Bar body.\n")), component: None, raised_in: None },
        ],
    }
}

fn finding_request(claim: &str, body: &str) -> findings::AddRequest {
    findings::AddRequest {
        claim: claim.into(),
        body: body.into(),
        authored_at: Some("2026-04-29T00:00:00Z".into()),
        authored_in: Some("test".into()),
        component: None,
        raised_in: None,
    }
}

#[test]
fn findings_find_entry_returns_entry_by_id() {
    assert_eq!(findings::find_entry(&sample_findings(), "bar").unwrap().item.id, "bar");
}

#[test]
fn findings_find_entry_errors_when_id_not_found() {
    assert!(findings::find_entry(&sample_findings(), "nonexistent").unwrap_err().message.contains("nonexistent"));
}

#[test]
fn findings_run_add_appends_entry_with_allocated_id() {
    let mut f = sample_findings();
    findings::run_add(&mut f, &finding_request("New Finding", "Body.\n"));
    let last = f.items.last().unwrap();
    assert_eq!(last.item.id, "new-finding");
    assert_eq!(last.item.claim, "New Finding");
    assert_eq!(last.item.status, FindingStatus::New);
}

#[test]
fn run_add_works_when_findings_yaml_does_not_yet_exist() {
    let mut f = FindingsFile::default();
    findings::run_add(&mut f, &finding_request("First", "First body.\n"));
    assert_eq!(f.items.len(), 1);
    assert_eq!(f.items[0].item.id, "first");
}

#[test]
fn run_add_records_component_and_raised_in() {
    let mut f = FindingsFile::default();
    let mut req = finding_request("Title", "Body.\n");
    req.component = Some("atlas:atlas-ontology".into());
    req.raised_in = Some("plan/foo".into());
    findings::run_add(&mut f, &req);
    let entry = f.items.last().unwrap();
    assert_eq!(entry.component.as_deref(), Some("atlas:atlas-ontology"));
    assert_eq!(entry.raised_in.as_deref(), Some("plan/foo"));
}

#[test]
fn findings_run_add_records_rationale_as_first_justification() {
    let mut f = FindingsFile::default();
    findings::run_add(&mut f, &finding_request("Title", "Rationale text.\n"));
    assert_eq!(first_rationale(&f.items[0].item.justifications), "Rationale text.\n");
}

#[test]
fn findings_run_set_status_accepts_legal_transition() {
    let mut f = sample_findings();
    findings::run_set_status(&mut f, "foo", "promoted").unwrap();
    assert_eq!(f.items[0].item.status, FindingStatus::Promoted);
}

#[test]
fn findings_run_set_status_rejects_unknown_status_string() {
    let mut f = sample_findings();
    let err = findings::run_set_status(&mut f, "foo", "ghost").unwrap_err();
    assert!(err.message.contains("ghost"));
    assert!(err.message.contains("new"));
    assert!(err.message.contains("wontfix"));
}

#[test]
fn findings_run_set_status_rejects_illegal_transition() {
    let mut f = sample_findings();
    f.items[0].item.status = FindingStatus::Promoted;
    let err = findings::run_set_status(&mut f, "foo", "new").unwrap_err();
    assert!(err.message.contains("illegal"));
    assert!(err.message.contains("promoted"));
    assert!(err.message.contains("new"));
}

#[test]
fn findings_run_set_status_self_transition_is_a_noop() {
    let mut f = sample_findings();
    findings::run_set_status(&mut f, "foo", "new").unwrap();
    assert_eq!(f.items[0].item.status, FindingStatus::New);
}

#[test]
fn findings_run_set_status_errors_on_unknown_id() {
    let mut f = sample_findings();
    let err = findings::run_set_status(&mut f, "nonexistent", "promoted").unwrap_err();
    assert!(err.message.contains("nonexistent"));
}

#[test]
fn intents_file_default_has_current_schema_version() {
    let f = IntentsFile::default();
    assert_eq!(f.schema_version, INTENTS_SCHEMA_VERSION);
    assert!(f.items.is_empty());
}

#[test]
fn memory_file_default_has_current_schema_version() {
    let f = MemoryFile::default();
    assert_eq!(f.schema_version, MEMORY_SCHEMA_VERSION);
    assert!(f.items.is_empty());
}

#[test]
fn findings_file_default_has_current_schema_version() {
    let f = FindingsFile::default();
    assert_eq!(f.schema_version, FINDINGS_SCHEMA_VERSION);
    assert!(f.items.is_empty());
}

#[test]
fn not_found_messages_quote_the_id_as_debug_text() {
    assert_eq!(memory::not_found("foo").message, "no memory entry with id \"foo\"");
    assert_eq!(intents::not_found("a\"b").message, "no intent with id \"a\\\"b\"");
    let e = findings::not_found("f-1");
    assert_eq!(e.message, "no finding with id \"f-1\"");
    assert_eq!(e.code, ravel_lite::error::ErrorCode::NotFound);
}

// ----- refusal messages ------------------------------------------------------------

#[test]
fn memory_set_status_messages_are_exact() {
    let mut m = sample_memory();
    let err = memory::run_set_status(&mut m, "foo", "gh\"ost").unwrap_err();
    assert_eq!(err.message, "unknown memory status \"gh\\\"ost\"; expected one of `active`, `defeated`, `superseded`");
    let err = memory::run_set_status(&mut m, "nope", "active").unwrap_err();
    assert_eq!(err.message, "no memory entry with id \"nope\"");
    m.items[0].item.status = MemoryStatus::Defeated;
    let err = memory::run_set_status(&mut m, "foo", "active").unwrap_err();
    assert_eq!(
        err.message,
        "illegal status transition for memory entry \"foo\": `defeated` → `active` is not in the transition table"
    );
}

#[test]
fn intent_set_status_messages_are_exact() {
    let mut f = sample_intents();
    let err = intents::run_set_status(&mut f, "foo", "done").unwrap_err();
    assert_eq!(
        err.message,
        "unknown intent status \"done\"; expected one of `active`, `satisfied`, `defeated`, `superseded`"
    );
    f.items[1].item.status = IntentStatus::Satisfied;
    let err = intents::run_set_status(&mut f, "bar", "active").unwrap_err();
    assert_eq!(
        err.message,
        "illegal status transition for intent \"bar\": `satisfied` → `active` is not in the transition table"
    );
}

#[test]
fn finding_set_status_messages_are_exact() {
    let mut f = sample_findings();
    let err = findings::run_set_status(&mut f, "foo", "open").unwrap_err();
    assert_eq!(
        err.message,
        "unknown finding status \"open\"; expected one of `new`, `promoted`, `wontfix`, `superseded`"
    );
    let err = findings::run_set_status(&mut f, "zzz", "wontfix").unwrap_err();
    assert_eq!(err.message, "no finding with id \"zzz\"");
}

#[test]
fn ids_with_control_characters_are_quoted_as_debug_prints_them() {
    let mut m = sample_memory();
    let id = "a\0b\u{1}c\u{7f}\u{1b}\t";
    let err = memory::run_set_status(&mut m, id, "active").unwrap_err();
    assert_eq!(err.message, format!("no memory entry with id {id:?}"));
    assert_eq!(err.message, "no memory entry with id \"a\\0b\\u{1}c\\u{7f}\\u{1b}\\t\"");
}
