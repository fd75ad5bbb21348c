use ravel_lite::plan_kg::{BacklogStatus, Item, Justification};
use ravel_lite::state::backlog::schema::{BacklogEntry, BacklogFile, BACKLOG_SCHEMA_VERSION};
use ravel_lite::state::backlog::verbs::{
    dependency_path_exists, done_ids, entry_matches, find_entry, run_add, run_clear_handoff, run_delete, run_init,
    run_list, run_reorder, run_set_dependencies, run_set_description, run_set_handoff, run_set_results,
    run_set_status, run_set_title, run_show, AddRequest, ListFilter, ReorderPosition,
};
use ravel_lite::state::OutputFormat;

fn make_entry(id: &str, status: BacklogStatus, deps: &[&str]) -> BacklogEntry {
    BacklogEntry {
        item: Item {
            id: id.into(),
            claim: id.into(),
            justifications: vec![Justification::Rationale { text: "body\n".into() }],
            status,
            supersedes: vec![],
            superseded_by: None,
            defeated_by: None,
            authored_at: "test".into(),
            authored_in: "test".into(),
        },
        category: "maintenance".into(),
        blocked_reason: None,
        dependencies: deps.iter().map(|s| s.to_string()).collect(),
        results: if status == BacklogStatus::Done { Some("did it\n".into()) } else { None },
        handoff: None,
    }
}

fn sample_backlog() -> BacklogFile {
    BacklogFile {
        schema_version: BACKLOG_SCHEMA_VERSION,
        items: vec![
            make_entry("foo", BacklogStatus::Done, &[]),
            make_entry("bar", BacklogStatus::Active, &["foo"]),
            make_entry("baz", BacklogStatus::Active, &["bar"]),
            make_entry("qux", BacklogStatus::Active, &[]),
        ],
    }
}

fn matching(backlog: &BacklogFile, filter: &ListFilter) -> Vec<String> {
    let done = done_ids(backlog);
    backlog.items.iter().filter(|e| entry_matches(e, filter, &done)).map(|e| e.item.id.clone()).collect()
}

fn find<'a>(b: &'a BacklogFile, id: &str) -> &'a BacklogEntry {
    b.items.iter().find(|e| e.item.id == id).unwrap()
}

#[test]
fn ready_filter_excludes_items_with_unmet_deps() {
    let backlog = sample_backlog();
    let filter = ListFilter { ready: true, ..Default::default() };
    assert_eq!(matching(&backlog, &filter), vec!["bar", "qux"]);
}

#[test]
fn status_filter_narrows_to_exact_match() {
    let backlog = sample_backlog();
    let filter = ListFilter { status: Some(BacklogStatus::Active), ..Default::default() };
    assert_eq!(matching(&backlog, &filter), vec!["bar", "baz", "qux"]);
}

#[test]
fn missing_results_filter_matches_done_items_without_results() {
    let mut backlog = sample_backlog();
    backlog.items[0].results = None;
    let filter = ListFilter { missing_results: true, ..Default::default() };
    assert_eq!(matching(&backlog, &filter), vec!["foo"]);
}

#[test]
fn run_list_keeps_only_matching_items_in_order() {
    let backlog = sample_backlog();
    let filter = ListFilter { category: Some("maintenance".into()), ready: true, ..Default::default() };
    let out = run_list(&backlog, &filter);
    let ids: Vec<&str> = out.items.iter().map(|e| e.item.id.as_str()).collect();
    assert_eq!(ids, vec!["bar", "qux"]);
}

#[test]
fn run_show_rejects_markdown_format_with_clear_error() {
    let err = run_show(&sample_backlog(), "foo", OutputFormat::Markdown).unwrap_err();
    assert!(err.message.contains("markdown"), "error must mention markdown: {}", err.message);
    let shown = run_show(&sample_backlog(), "baz", OutputFormat::Yaml).unwrap();
    assert_eq!(shown.items.len(), 1);
    assert_eq!(shown.items[0].item.id, "baz");
}

#[test]
fn verbs_find_entry_returns_entry_by_id() {
    let backlog = sample_backlog();
    let entry = find_entry(&backlog, "bar").unwrap();
    assert_eq!(entry.item.id, "bar");
}

#[test]
fn verbs_find_entry_errors_when_id_not_found() {
    let backlog = sample_backlog();
    let err = find_entry(&backlog, "nonexistent").unwrap_err();
    assert!(err.message.contains("nonexistent"), "error must include the bad id: {}", err.message);
}

#[test]
fn verbs_run_add_appends_entry_with_allocated_id() {
    let mut backlog = sample_backlog();
    let req = AddRequest {
        title: "New task".into(),
        category: "maintenance".into(),
        dependencies: vec!["foo".into()],
        description: "Description body.\n".into(),
    };
    run_add(&mut backlog, &req).unwrap();
    let last = backlog.items.last().unwrap();
    assert_eq!(last.item.id, "new-task");
    assert_eq!(last.item.claim, "New task");
    assert_eq!(last.dependencies, vec!["foo"]);
    assert_eq!(last.item.status, BacklogStatus::Active);
}

#[test]
fn run_add_errors_when_dependency_ids_are_unknown() {
    let mut backlog = sample_backlog();
    let req = AddRequest {
        title: "New task".into(),
        category: "maintenance".into(),
        dependencies: vec!["nonexistent".into()],
        description: "body".into(),
    };
    let err = run_add(&mut backlog, &req).unwrap_err();
    assert!(err.message.contains("nonexistent"), "error must name the missing dep: {}", err.message);
    assert_eq!(backlog.items.len(), 4);
}

#[test]
fn run_init_populates_empty_backlog() {
    let mut stored = BacklogFile::default();
    let seed = sample_backlog();
    run_init(&mut stored, seed).unwrap();
    assert_eq!(stored.items.len(), 4);
}

#[test]
fn run_init_refuses_to_overwrite_non_empty_backlog() {
    let mut stored = sample_backlog();
    let err = run_init(&mut stored, sample_backlog()).unwrap_err();
    assert!(err.message.contains("non-empty"), "error must explain the refusal: {}", err.message);
}

#[test]
fn run_set_status_updates_the_target_item() {
    let mut backlog = sample_backlog();
    run_set_status(&mut backlog, "bar", BacklogStatus::Blocked, Some("upstream")).unwrap();
    let bar = find(&backlog, "bar");
    assert_eq!(bar.item.status, BacklogStatus::Blocked);
    assert_eq!(bar.blocked_reason.as_deref(), Some("upstream"));
}

#[test]
fn run_set_status_requires_reason_for_blocked() {
    let mut backlog = sample_backlog();
    let err = run_set_status(&mut backlog, "bar", BacklogStatus::Blocked, None).unwrap_err();
    assert!(err.message.contains("reason"), "error must mention reason: {}", err.message);
}

#[test]
fn run_set_status_clears_reason_when_moving_out_of_blocked() {
    let mut backlog = sample_backlog();
    backlog.items[1].item.status = BacklogStatus::Blocked;
    backlog.items[1].blocked_reason = Some("upstream".into());
    run_set_status(&mut backlog, "bar", BacklogStatus::Active, None).unwrap();
    assert_eq!(find(&backlog, "bar").blocked_reason, None, "blocked_reason must clear when status leaves blocked");
}

#[test]
fn verbs_run_set_status_rejects_illegal_transition() {
    let mut backlog = sample_backlog();
    backlog.items[1].item.status = BacklogStatus::Done;
    let err = run_set_status(&mut backlog, "bar", BacklogStatus::Active, None).unwrap_err();
    let msg = err.message;
    assert!(msg.contains("illegal") || msg.contains("transition"), "error must signal an illegal transition: {msg}");
}

#[test]
fn verbs_run_set_status_self_transition_is_a_noop() {
    let mut backlog = sample_backlog();
    run_set_status(&mut backlog, "bar", BacklogStatus::Active, None).unwrap();
    assert_eq!(find(&backlog, "bar").item.status, BacklogStatus::Active);
}

#[test]
fn run_set_description_rewrites_rationale_and_preserves_other_fields() {
    let mut backlog = sample_backlog();
    backlog.items[0].results = Some("keep me\n".into());
    backlog.items[0].handoff = Some("keep me too\n".into());
    run_set_description(&mut backlog, "foo", "Fresh brief.\n").unwrap();
    let foo = find(&backlog, "foo");
    match &foo.item.justifications[0] {
        Justification::Rationale { text } => assert_eq!(text, "Fresh brief.\n"),
        other => panic!("expected Rationale justification, got {other:?}"),
    }
    assert_eq!(foo.results.as_deref(), Some("keep me\n"));
    assert_eq!(foo.handoff.as_deref(), Some("keep me too\n"));
    assert_eq!(foo.item.status, BacklogStatus::Done);
    assert_eq!(foo.item.claim, "foo");
}

#[test]
fn run_set_description_rejects_empty_body() {
    let mut backlog = sample_backlog();
    let err = run_set_description(&mut backlog, "foo", "").unwrap_err();
    assert!(err.message.contains("empty"));
}

#[test]
fn run_set_results_writes_markdown_body() {
    let mut backlog = sample_backlog();
    run_set_results(&mut backlog, "foo", "Body of results.\n").unwrap();
    assert_eq!(find(&backlog, "foo").results.as_deref(), Some("Body of results.\n"));
}

#[test]
fn run_set_handoff_writes_markdown_body() {
    let mut backlog = sample_backlog();
    run_set_handoff(&mut backlog, "foo", "Promote follow-up.\n").unwrap();
    assert_eq!(find(&backlog, "foo").handoff.as_deref(), Some("Promote follow-up.\n"));
}

#[test]
fn run_clear_handoff_nulls_the_field() {
    let mut backlog = sample_backlog();
    backlog.items[0].handoff = Some("some handoff\n".into());
    run_clear_handoff(&mut backlog, "foo").unwrap();
    assert_eq!(find(&backlog, "foo").handoff, None);
}

#[test]
fn verbs_run_set_title_updates_claim_but_preserves_id() {
    let mut backlog = sample_backlog();
    run_set_title(&mut backlog, "bar", "Bar's New Title").unwrap();
    let bar = find(&backlog, "bar");
    assert_eq!(bar.item.claim, "Bar's New Title");
    assert_eq!(bar.item.id, "bar", "id must not change when claim changes");
}

#[test]
fn run_reorder_before_moves_item_to_earlier_position() {
    let mut backlog = sample_backlog();
    run_reorder(&mut backlog, "qux", ReorderPosition::Before, "foo").unwrap();
    let ids: Vec<&str> = backlog.items.iter().map(|e| e.item.id.as_str()).collect();
    assert_eq!(ids, vec!["qux", "foo", "bar", "baz"]);
}

#[test]
fn run_reorder_after_moves_item_to_later_position() {
    let mut backlog = sample_backlog();
    run_reorder(&mut backlog, "foo", ReorderPosition::After, "baz").unwrap();
    let ids: Vec<&str> = backlog.items.iter().map(|e| e.item.id.as_str()).collect();
    assert_eq!(ids, vec!["bar", "baz", "foo", "qux"]);
}

#[test]
fn run_set_dependencies_replaces_the_dependency_list() {
    let mut backlog = sample_backlog();
    run_set_dependencies(&mut backlog, "bar", &vec!["qux".into()]).unwrap();
    assert_eq!(find(&backlog, "bar").dependencies, vec!["qux".to_string()]);
}

#[test]
fn run_set_dependencies_rejects_self_reference() {
    let mut backlog = sample_backlog();
    let err = run_set_dependencies(&mut backlog, "bar", &vec!["bar".into()]).unwrap_err();
    let msg = err.message;
    assert!(msg.contains("itself") || msg.contains("self"), "error must call out the self-reference: {msg}");
}

#[test]
fn run_set_dependencies_rejects_cycles() {
    let mut backlog = sample_backlog();
    let err = run_set_dependencies(&mut backlog, "foo", &vec!["baz".into()]).unwrap_err();
    assert!(err.message.contains("cycle"), "error must mention cycle: {}", err.message);
    assert!(find(&backlog, "foo").dependencies.is_empty());
}

#[test]
fn dependency_paths_follow_edges_transitively() {
    let backlog = sample_backlog();
    assert!(dependency_path_exists(&backlog, "baz", "foo"));
    assert!(!dependency_path_exists(&backlog, "foo", "baz"));
    assert!(!dependency_path_exists(&backlog, "qux", "foo"));
}

#[test]
fn run_delete_errors_when_item_has_dependents() {
    let mut backlog = sample_backlog();
    let err = run_delete(&mut backlog, "foo", false).unwrap_err();
    assert!(err.message.contains("bar"), "error must cite the dependent: {}", err.message);
    assert_eq!(backlog.items.len(), 4);
}

#[test]
fn run_delete_with_force_cascades_dep_reference_cleanup() {
    let mut backlog = sample_backlog();
    run_delete(&mut backlog, "foo", true).unwrap();
    assert!(!backlog.items.iter().any(|e| e.item.id == "foo"));
    assert!(!find(&backlog, "bar").dependencies.contains(&"foo".to_string()));
}

#[test]
fn reorder_position_parses_its_two_words() {
    assert_eq!(ReorderPosition::parse("before"), Some(ReorderPosition::Before));
    assert_eq!(ReorderPosition::parse("after"), Some(ReorderPosition::After));
    assert_eq!(ReorderPosition::parse("between"), None);
}

#[test]
fn run_delete_removes_an_item_nothing_depends_on() {
    let mut backlog = sample_backlog();
    run_delete(&mut backlog, "qux", false).unwrap();
    let ids: Vec<&str> = backlog.items.iter().map(|e| e.item.id.as_str()).collect();
    assert_eq!(ids, vec!["foo", "bar", "baz"]);
}

#[test]
fn backlog_refusal_messages_are_exact() {
    let mut backlog = sample_backlog();
    assert_eq!(
        run_delete(&mut backlog, "foo", false).unwrap_err().message,
        "refusing to delete foo: item is a dependency of [\"bar\"]. Rerun with --force to cascade-remove the dep references."
    );
    assert_eq!(run_delete(&mut backlog, "nope", true).unwrap_err().message, "no item with id \"nope\" in backlog");
    assert_eq!(
        run_set_dependencies(&mut backlog, "foo", &vec!["foo".into()]).unwrap_err().message,
        "item \"foo\" cannot depend on itself"
    );
    assert_eq!(
        run_set_dependencies(&mut backlog, "foo", &vec!["zzz".into()]).unwrap_err().message,
        "dependency id \"zzz\" does not exist in backlog; known ids: {\"foo\", \"bar\", \"baz\", \"qux\"}"
    );
    assert_eq!(
        run_set_dependencies(&mut backlog, "foo", &vec!["baz".into()]).unwrap_err().message,
        "refusing to set dependencies on \"foo\": would create a cycle through \"baz\""
    );
    assert_eq!(
        run_set_status(&mut backlog, "foo", BacklogStatus::Active, None).unwrap_err().message,
        "illegal status transition for backlog item \"foo\": `done` → `active` is not in the transition table"
    );
}
