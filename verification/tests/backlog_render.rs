use ravel_lite::plan_kg::{BacklogStatus, Item, Justification};
use ravel_lite::state::backlog::render::{compute_depth_ranks, escape_cell, render_deps, render_markdown, GroupBy};
use ravel_lite::state::backlog::schema::{BacklogEntry, BacklogFile, BACKLOG_SCHEMA_VERSION};

fn entry(id: &str, claim: &str, category: &str, status: BacklogStatus, deps: &[&str]) -> BacklogEntry {
    BacklogEntry {
        item: Item {
            id: id.into(),
            claim: claim.into(),
            justifications: vec![Justification::Rationale { text: "Body.\n".into() }],
            status,
            supersedes: vec![],
            superseded_by: None,
            defeated_by: None,
            authored_at: "test".into(),
            authored_in: "test".into(),
        },
        category: category.into(),
        blocked_reason: if status == BacklogStatus::Blocked { Some("upstream".into()) } else { None },
        dependencies: deps.iter().map(|s| (*s).into()).collect(),
        results: if status == BacklogStatus::Done { Some("Done.\n".into()) } else { None },
        handoff: None,
    }
}

fn file(items: Vec<BacklogEntry>) -> BacklogFile {
    BacklogFile { schema_version: BACKLOG_SCHEMA_VERSION, items }
}

#[test]
fn empty_backlog_renders_a_placeholder_and_no_empty_tables() {
    let out = render_markdown(&BacklogFile::default(), GroupBy::Category);
    assert_eq!(out, "_(no tasks)_\n");
    assert!(!out.contains("|---"), "must not emit table scaffolding for empty input");
}

#[test]
fn group_by_status_orders_sections_active_blocked_done() {
    let backlog = file(vec![
        entry("d", "D", "core", BacklogStatus::Done, &[]),
        entry("b", "B", "core", BacklogStatus::Blocked, &[]),
        entry("a", "A", "core", BacklogStatus::Active, &[]),
    ]);
    let out = render_markdown(&backlog, GroupBy::Status);
    let i_active = out.find("## active").expect("section missing");
    let i_blocked = out.find("## blocked").expect("section missing");
    let i_done = out.find("## done").expect("section missing");
    assert!(i_active < i_blocked, "active must come before blocked");
    assert!(i_blocked < i_done, "blocked must come before done");
}

#[test]
fn within_a_group_rows_order_by_status_rank_first() {
    let backlog = file(vec![
        entry("d", "D", "core", BacklogStatus::Done, &[]),
        entry("b", "B", "core", BacklogStatus::Blocked, &[]),
        entry("a", "A", "core", BacklogStatus::Active, &[]),
    ]);
    let out = render_markdown(&backlog, GroupBy::Category);
    let i_a = out.find("| A |").expect("row A missing");
    let i_b = out.find("| B |").expect("row B missing");
    let i_d = out.find("| D |").expect("row D missing");
    assert!(i_a < i_b, "active row must come before blocked");
    assert!(i_b < i_d, "blocked row must come before done");
}

#[test]
fn rows_break_status_ties_by_dependency_depth_roots_first() {
    let backlog = file(vec![
        entry("leaf", "Leaf", "core", BacklogStatus::Active, &["mid"]),
        entry("mid", "Mid", "core", BacklogStatus::Active, &["root"]),
        entry("root", "Root", "core", BacklogStatus::Active, &[]),
    ]);
    let out = render_markdown(&backlog, GroupBy::Category);
    let i_root = out.find("| Root |").expect("row Root missing");
    let i_mid = out.find("| Mid |").expect("row Mid missing");
    let i_leaf = out.find("| Leaf |").expect("row Leaf missing");
    assert!(i_root < i_mid, "root must render before mid: got\n{out}");
    assert!(i_mid < i_leaf, "mid must render before leaf: got\n{out}");
}

#[test]
fn group_by_category_emits_one_section_per_category_alphabetically() {
    let backlog = file(vec![
        entry("a", "A", "infra", BacklogStatus::Active, &[]),
        entry("b", "B", "core", BacklogStatus::Active, &[]),
        entry("c", "C", "docs", BacklogStatus::Active, &[]),
    ]);
    let out = render_markdown(&backlog, GroupBy::Category);
    let i_core = out.find("## core").expect("core section missing");
    let i_docs = out.find("## docs").expect("docs section missing");
    let i_infra = out.find("## infra").expect("infra section missing");
    assert!(i_core < i_docs, "categories must sort alphabetically: got\n{out}");
    assert!(i_docs < i_infra, "categories must sort alphabetically: got\n{out}");
}

#[test]
fn dependency_cell_shows_em_dash_when_no_deps_and_comma_list_otherwise() {
    let backlog = file(vec![
        entry("root", "Root", "core", BacklogStatus::Done, &[]),
        entry("other", "Other", "core", BacklogStatus::Done, &[]),
        entry("leaf", "Leaf", "core", BacklogStatus::Active, &["root", "other"]),
    ]);
    let out = render_markdown(&backlog, GroupBy::Category);
    assert!(out.contains("| Root | done | — |"), "no-dep row must show em dash:\n{out}");
    assert!(out.contains("| Leaf | active | root, other |"), "multi-dep cell must comma-join in declared order:\n{out}");
}

#[test]
fn cell_contents_escape_pipe_characters_and_collapse_newlines() {
    let backlog = file(vec![entry("weird-id", "Title with | pipe\nand newline", "core", BacklogStatus::Active, &[])]);
    let out = render_markdown(&backlog, GroupBy::Category);
    let rows: Vec<&str> = out.lines().filter(|l| l.starts_with("| ")).collect();
    assert_eq!(rows.len(), 2, "expected 1 header + 1 data row, got {rows:?}");
    assert!(
        out.contains("Title with \\| pipe and newline"),
        "pipe must be backslash-escaped and newline replaced with space:\n{out}"
    );
}

#[test]
fn cycle_participants_sort_to_the_end_without_looping() {
    let backlog = file(vec![
        entry("a", "A", "core", BacklogStatus::Active, &["b"]),
        entry("b", "B", "core", BacklogStatus::Active, &["c"]),
        entry("c", "C", "core", BacklogStatus::Active, &["a"]),
        entry("z", "Z", "core", BacklogStatus::Active, &[]),
    ]);
    let out = render_markdown(&backlog, GroupBy::Category);
    let i_z = out.find("| Z |").expect("row Z missing");
    let i_a = out.find("| A |").expect("row A missing");
    assert!(i_z < i_a, "non-cycle root must precede cycle participants:\n{out}");
}

#[test]
fn render_layout_is_exact() {
    let backlog = file(vec![
        entry("x", "X", "b-cat", BacklogStatus::Active, &[]),
        entry("y", "Y", "A-cat", BacklogStatus::Done, &["x"]),
    ]);
    let out = render_markdown(&backlog, GroupBy::Category);
    assert_eq!(
        out,
        "## A-cat\n\n| title | status | deps |\n|---|---|---|\n| Y | done | x |\n\n## b-cat\n\n| title | status | deps |\n|---|---|---|\n| X | active | — |\n"
    );
}

#[test]
fn categories_sort_case_insensitively_with_ties_in_first_appearance_order() {
    let backlog = file(vec![
        entry("a", "A", "Core", BacklogStatus::Active, &[]),
        entry("b", "B", "beta", BacklogStatus::Active, &[]),
        entry("c", "C", "core", BacklogStatus::Active, &[]),
    ]);
    let out = render_markdown(&backlog, GroupBy::Category);
    let i_beta = out.find("## beta").unwrap();
    let i_upper = out.find("## Core").unwrap();
    let i_lower = out.find("## core").unwrap();
    assert!(i_beta < i_upper && i_upper < i_lower, "got\n{out}");
}

#[test]
fn status_grouping_skips_empty_statuses() {
    let backlog = file(vec![entry("a", "A", "core", BacklogStatus::Superseded, &[])]);
    let out = render_markdown(&backlog, GroupBy::Status);
    assert!(out.starts_with("## superseded\n"));
    assert!(!out.contains("## active"));
}

#[test]
fn depth_ranks_follow_the_dependency_dag() {
    let items = vec![
        entry("leaf", "Leaf", "core", BacklogStatus::Active, &["mid", "outside"]),
        entry("mid", "Mid", "core", BacklogStatus::Active, &["root"]),
        entry("root", "Root", "core", BacklogStatus::Active, &[]),
        entry("c1", "C1", "core", BacklogStatus::Active, &["c2"]),
        entry("c2", "C2", "core", BacklogStatus::Active, &["c1"]),
        entry("hang", "Hang", "core", BacklogStatus::Active, &["c1"]),
    ];
    let d = compute_depth_ranks(&items);
    assert_eq!(d, vec![2, 1, 0, usize::MAX, usize::MAX, usize::MAX]);
}

#[test]
fn cells_escape_and_deps_join() {
    assert_eq!(escape_cell("a|b\nc"), "a\\|b c");
    assert_eq!(render_deps(&vec![]), "—");
    assert_eq!(render_deps(&vec!["x|y".to_string(), "z".to_string()]), "x\\|y, z");
}
