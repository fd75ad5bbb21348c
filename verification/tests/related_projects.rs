use ravel_lite::error::ErrorCode;
use ravel_lite::phase_loop::project_name;
use ravel_lite::related_projects::{
    check_loaded, migrate_edges, parse_bullet_line, parse_related_plans_sections, plan_project_path, run_add_edge, run_remove_edge,
    substitute_path_tokens, Edge, EdgeKind, MigrationReport, RelatedProjectsFile, SCHEMA_VERSION,
};

#[test]
fn add_sibling_is_idempotent_regardless_of_order() {
    let mut file = RelatedProjectsFile::default();
    assert!(file.add_edge(Edge::sibling("A", "B")).unwrap());
    assert!(!file.add_edge(Edge::sibling("A", "B")).unwrap());
    assert!(!file.add_edge(Edge::sibling("B", "A")).unwrap());
    assert_eq!(file.edges.len(), 1);
}

#[test]
fn add_parent_of_is_order_sensitive() {
    let mut file = RelatedProjectsFile::default();
    assert!(file.add_edge(Edge::parent_of("Parent", "Child")).unwrap());
    assert!(file.add_edge(Edge::parent_of("Child", "Parent")).unwrap());
    assert_eq!(file.edges.len(), 2);
}

#[test]
fn remove_edge_returns_false_when_absent() {
    let mut file = RelatedProjectsFile::default();
    let removed = file.remove_edge(&Edge::sibling("X", "Y")).unwrap();
    assert!(!removed);
}

#[test]
fn remove_sibling_works_regardless_of_participant_order() {
    let mut file = RelatedProjectsFile::default();
    file.add_edge(Edge::sibling("A", "B")).unwrap();
    let removed = file.remove_edge(&Edge::sibling("B", "A")).unwrap();
    assert!(removed);
    assert!(file.edges.is_empty());
}

#[test]
fn edge_validate_rejects_self_loop() {
    let err = Edge::sibling("A", "A").validate().unwrap_err();
    assert!(err.message.contains("distinct"));
}

#[test]
fn edge_validate_rejects_wrong_participant_count() {
    let e = Edge { kind: EdgeKind::Sibling, participants: vec!["solo".into()] };
    let err = e.validate().unwrap_err();
    assert!(err.message.contains("exactly 2"));
}

#[test]
fn edge_involves_matches_either_participant() {
    let e = Edge::sibling("Alpha", "Beta");
    assert!(e.involves("Alpha"));
    assert!(e.involves("Beta"));
    assert!(!e.involves("Gamma"));
}

#[test]
fn plan_project_path_derives_grandparent() {
    let path = plan_project_path("/a/b/c").unwrap();
    assert_eq!(path, "/a");
}

#[test]
fn plan_project_path_errors_on_shallow_input() {
    let err = plan_project_path("/").unwrap_err();
    assert!(err.message.contains("parent") || err.message.contains("grandparent"));
}

#[test]
fn parse_related_plans_handles_three_sections() {
    let body = "\
# Related Plans

## Siblings
- /dev/Peer1 — peer one

## Parents
- /dev/Up1 — upstream

## Children
- /dev/Down1 — downstream
- /dev/Down2 — another downstream
";
    let parsed = parse_related_plans_sections(body).unwrap();
    assert_eq!(parsed.siblings.len(), 1);
    assert_eq!(parsed.parents.len(), 1);
    assert_eq!(parsed.children.len(), 2);
    assert_eq!(parsed.siblings[0], "/dev/Peer1");
    assert_eq!(parsed.children[1], "/dev/Down2");
}

#[test]
fn parse_related_plans_treats_placeholder_prose_as_empty() {
    let body = "\
## Siblings
_No active sibling plans._

## Parents
";
    let parsed = parse_related_plans_sections(body).unwrap();
    assert!(parsed.siblings.is_empty());
    assert!(parsed.parents.is_empty());
    assert!(parsed.children.is_empty());
}

#[test]
fn parse_bullet_rejects_relative_path() {
    let err = parse_bullet_line("- relative/path — desc").unwrap_err();
    assert!(err.message.contains("absolute"));
}

// ----- verbs and migration over in-memory files ------------------------------------

fn names(ns: &[&str]) -> Vec<String> {
    ns.iter().map(|s| s.to_string()).collect()
}

fn base_names(paths: &[String]) -> Vec<String> {
    paths.iter().map(|p| project_name(p)).collect()
}

/// Parse a legacy file and merge its edges for the plan's project `me`,
/// resolving each peer path to its directory name.
fn migrate(file: &mut RelatedProjectsFile, me: &str, body: &str, dry_run: bool) -> MigrationReport {
    let parsed = parse_related_plans_sections(body).unwrap();
    migrate_edges(
        file,
        me,
        &base_names(&parsed.siblings),
        &base_names(&parsed.parents),
        &base_names(&parsed.children),
        dry_run,
    )
}

#[test]
fn related_projects_load_or_empty_returns_empty_when_file_missing() {
    let file = RelatedProjectsFile::default();
    assert_eq!(file.schema_version, SCHEMA_VERSION);
    assert!(file.edges.is_empty());
}

#[test]
fn run_add_edge_rejects_unknown_project() {
    let mut file = RelatedProjectsFile::default();
    let err = run_add_edge(&mut file, &names(&["Known"]), EdgeKind::Sibling, "Known", "Stranger").unwrap_err();
    assert!(err.message.contains("Stranger"));
    assert!(err.message.contains("state projects add"));
    assert_eq!(err.code, ErrorCode::NotFound);
    assert!(file.edges.is_empty());
}

#[test]
fn run_add_edge_persists_and_is_idempotent() {
    let mut file = RelatedProjectsFile::default();
    let catalog = names(&["Alpha", "Beta"]);
    assert!(run_add_edge(&mut file, &catalog, EdgeKind::Sibling, "Alpha", "Beta").unwrap());
    assert!(!run_add_edge(&mut file, &catalog, EdgeKind::Sibling, "Beta", "Alpha").unwrap());
    assert_eq!(file.edges.len(), 1);
}

#[test]
fn run_remove_edge_errors_when_absent() {
    let mut file = RelatedProjectsFile::default();
    let err = run_remove_edge(&mut file, EdgeKind::Sibling, "A", "B").unwrap_err();
    assert!(err.message.contains("no matching edge"));
    assert_eq!(err.code, ErrorCode::NotFound);
}

#[test]
fn run_remove_edge_after_add_leaves_other_edges() {
    let mut file = RelatedProjectsFile::default();
    let catalog = names(&["A", "B", "C"]);
    run_add_edge(&mut file, &catalog, EdgeKind::Sibling, "A", "B").unwrap();
    run_add_edge(&mut file, &catalog, EdgeKind::ParentOf, "A", "C").unwrap();
    run_remove_edge(&mut file, EdgeKind::Sibling, "B", "A").unwrap();
    assert_eq!(file.edges.len(), 1);
    assert_eq!(file.edges[0].kind, EdgeKind::ParentOf);
    assert!(run_remove_edge(&mut file, EdgeKind::ParentOf, "C", "A").is_err());
}

#[test]
fn migrate_writes_sibling_and_directional_parent_edges() {
    let mut file = RelatedProjectsFile::default();
    let body = "# Related Plans\n\n## Siblings\n- /dev/Peer — peer\n\n## Parents\n- /dev/Up — upstream\n\n## Children\n- /dev/Down — downstream\n";
    let report = migrate(&mut file, "Me", body, false);
    assert_eq!(report.added.len(), 3);
    assert!(report.skipped_existing.is_empty());
    assert_eq!(file.edges.len(), 3);
    assert!(file.edges.iter().any(|e| e.kind == EdgeKind::Sibling && e.participants == vec!["Me", "Peer"]));
    assert!(file.edges.iter().any(|e| e.kind == EdgeKind::ParentOf && e.participants == vec!["Up", "Me"]));
    assert!(file.edges.iter().any(|e| e.kind == EdgeKind::ParentOf && e.participants == vec!["Me", "Down"]));
}

#[test]
fn migrate_substitutes_dev_root_token() {
    let text = "## Siblings\n- {{DEV_ROOT}}/Peer — via token\n";
    let substituted = substitute_path_tokens(text, "/work/projects/Me", "/work/projects/Me/LLM_STATE/core", "/work/projects");
    assert_eq!(substituted, "## Siblings\n- /work/projects/Peer — via token\n");
    let mut file = RelatedProjectsFile::default();
    migrate(&mut file, "Me", &substituted, false);
    assert_eq!(file.edges.len(), 1);
    assert_eq!(file.edges[0].kind, EdgeKind::Sibling);
}

#[test]
fn substitute_path_tokens_replaces_every_token() {
    let out = substitute_path_tokens("{{PROJECT}}|{{PLAN}}|{{PROJECT}}", "P", "Q", "D");
    assert_eq!(out, "P|Q|P");
}

#[test]
fn related_projects_migrate_is_idempotent_on_second_run() {
    let mut file = RelatedProjectsFile::default();
    let body = "## Siblings\n- /dev/Peer — peer\n";
    let first = migrate(&mut file, "Me", body, false);
    assert_eq!(first.added.len(), 1);
    let second = migrate(&mut file, "Me", body, false);
    assert!(second.added.is_empty());
    assert_eq!(second.skipped_existing.len(), 1);
    assert_eq!(file.edges.len(), 1);
}

#[test]
fn related_projects_migrate_dry_run_writes_nothing() {
    let mut file = RelatedProjectsFile::default();
    let report = migrate(&mut file, "Me", "## Siblings\n- /dev/Peer — peer\n", true);
    assert_eq!(report.added.len(), 1);
    assert!(file.edges.is_empty());
}

#[test]
fn migrate_merges_into_existing_related_projects_yaml() {
    let mut file = RelatedProjectsFile::default();
    file.add_edge(Edge::sibling("Me", "Other")).unwrap();
    migrate(&mut file, "Me", "## Siblings\n- /dev/Peer — peer\n", false);
    assert_eq!(file.edges.len(), 2);
    assert!(file.edges.iter().any(|e| e.kind == EdgeKind::Sibling && e.involves("Peer")));
    assert!(file.edges.iter().any(|e| e.kind == EdgeKind::Sibling && e.involves("Other")));
}

#[test]
fn migrate_skips_the_plans_own_project() {
    let mut file = RelatedProjectsFile::default();
    let report = migrate(&mut file, "Me", "## Children\n- /dev/Me — self\n- /dev/Kid — kid\n", false);
    assert_eq!(report.added.len(), 1);
    assert_eq!(file.edges[0].participants, vec!["Me", "Kid"]);
}

#[test]
fn related_projects_load_rejects_unknown_schema_version() {
    let file = RelatedProjectsFile { schema_version: 99, edges: vec![] };
    let err = check_loaded("/cfg/related-projects.yaml", &file).unwrap_err();
    assert!(err.message.contains("schema_version"));
    assert!(err.message.contains("99"));
    assert_eq!(err.code, ErrorCode::Conflict);
}

#[test]
fn loaded_file_with_a_self_loop_is_refused() {
    let mut file = RelatedProjectsFile::default();
    file.edges.push(Edge::sibling("A", "A"));
    let err = check_loaded("/cfg/related-projects.yaml", &file).unwrap_err();
    assert!(err.message.starts_with("invalid edge in /cfg/related-projects.yaml: "), "{}", err.message);
    assert_eq!(err.code, ErrorCode::InvalidInput);
    assert!(check_loaded("f", &RelatedProjectsFile::default()).is_ok());
}

#[test]
fn unknown_project_message_names_the_project_twice() {
    let mut file = RelatedProjectsFile::default();
    let err = run_add_edge(&mut file, &names(&["Known"]), EdgeKind::Sibling, "Ghost", "Known").unwrap_err();
    assert_eq!(
        err.message,
        "project 'Ghost' is not in the catalog; add it with `ravel-lite state projects add --name Ghost --path <abs-path>`"
    );
}

#[test]
fn edge_refusal_messages_are_exact() {
    let e = Edge { kind: EdgeKind::Sibling, participants: vec!["solo".into()] };
    assert_eq!(e.validate().unwrap_err().message, "edge must have exactly 2 participants, got 1 ([\"solo\"])");
    assert_eq!(
        Edge::sibling("A", "A").validate().unwrap_err().message,
        "edge participants must be distinct; 'A' appears twice"
    );
    let mut file = RelatedProjectsFile::default();
    assert_eq!(
        run_remove_edge(&mut file, EdgeKind::ParentOf, "A", "B").unwrap_err().message,
        "no matching edge to remove (kind=parent-of, A / B)"
    );
    assert_eq!(
        run_remove_edge(&mut file, EdgeKind::Sibling, "A", "A").unwrap_err().message,
        "edge participants must be distinct; 'A' appears twice"
    );
}
