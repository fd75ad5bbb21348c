use ravel_lite::error::ErrorCode;
use ravel_lite::state::targets::closure::{expand_build_closure, BuildEdge};
use ravel_lite::state::targets::mount::{plan_branch, record_mount, worktree_root};
use ravel_lite::state::targets::mount_with_closure::{validate_initial_refs, CatalogComponent, CatalogRepo};
use ravel_lite::state::targets::schema::{Target, TargetsFile};

fn catalog(repos: &[(&str, &[&str])]) -> Vec<(String, String)> {
    let mut out = Vec::new();
    for (slug, comps) in repos {
        for c in comps.iter() {
            out.push((slug.to_string(), c.to_string()));
        }
    }
    out
}

fn directed_edge(kind: &str, from: &str, to: &str) -> BuildEdge {
    BuildEdge { kind: kind.into(), directed: true, from: from.into(), to: to.into() }
}

fn r(repo: &str, comp: &str) -> (String, String) {
    (repo.into(), comp.into())
}

#[test]
fn empty_initial_set_returns_empty() {
    let out = expand_build_closure(&vec![], &vec![], &catalog(&[])).unwrap();
    assert!(out.is_empty());
}

#[test]
fn single_ref_no_outgoing_edges_returns_just_initial() {
    let cat = catalog(&[("solo", &["a"])]);
    let out = expand_build_closure(&vec![r("solo", "a")], &vec![], &cat).unwrap();
    assert_eq!(out, vec![r("solo", "a")]);
}

#[test]
fn linear_chain_in_same_repo_collects_full_chain() {
    let cat = catalog(&[("r1", &["a", "b", "c"])]);
    let g = vec![directed_edge("depends-on", "a", "b"), directed_edge("depends-on", "b", "c")];
    let out = expand_build_closure(&vec![r("r1", "a")], &g, &cat).unwrap();
    assert_eq!(out, vec![r("r1", "a"), r("r1", "b"), r("r1", "c")]);
}

#[test]
fn diamond_dedups_shared_target() {
    let cat = catalog(&[("r1", &["a", "b", "c", "d"])]);
    let g = vec![
        directed_edge("depends-on", "a", "b"),
        directed_edge("depends-on", "a", "c"),
        directed_edge("depends-on", "b", "d"),
        directed_edge("depends-on", "c", "d"),
    ];
    let out = expand_build_closure(&vec![r("r1", "a")], &g, &cat).unwrap();
    let mut sorted = out.clone();
    sorted.sort();
    assert_eq!(sorted, vec![r("r1", "a"), r("r1", "b"), r("r1", "c"), r("r1", "d")]);
    assert_eq!(out.len(), 4, "no duplicates");
}

#[test]
fn cross_repo_dependency_pulls_in_sibling() {
    let cat = catalog(&[("r1", &["a"]), ("r2", &["b"])]);
    let g = vec![directed_edge("depends-on", "a", "b")];
    let out = expand_build_closure(&vec![r("r1", "a")], &g, &cat).unwrap();
    assert_eq!(out, vec![r("r1", "a"), r("r2", "b")]);
}

#[test]
fn non_build_edge_kinds_are_ignored() {
    let cat = catalog(&[("r1", &["a", "b"])]);
    let g = vec![directed_edge("calls", "a", "b")];
    let out = expand_build_closure(&vec![r("r1", "a")], &g, &cat).unwrap();
    assert_eq!(out, vec![r("r1", "a")]);
}

#[test]
fn undirected_edges_are_ignored() {
    let cat = catalog(&[("r1", &["a", "b"])]);
    let g = vec![BuildEdge { kind: "depends-on".into(), directed: false, from: "a".into(), to: "b".into() }];
    let out = expand_build_closure(&vec![r("r1", "a")], &g, &cat).unwrap();
    assert_eq!(out, vec![r("r1", "a")]);
}

#[test]
fn all_four_build_kinds_are_followed() {
    let cat = catalog(&[("r1", &["root", "dep", "stat", "dyn", "opt"])]);
    let g = vec![
        directed_edge("depends-on", "root", "dep"),
        directed_edge("links-statically", "root", "stat"),
        directed_edge("links-dynamically", "root", "dyn"),
        directed_edge("has-optional-dependency", "root", "opt"),
    ];
    let mut out = expand_build_closure(&vec![r("r1", "root")], &g, &cat).unwrap();
    out.sort();
    assert_eq!(out, vec![r("r1", "dep"), r("r1", "dyn"), r("r1", "opt"), r("r1", "root"), r("r1", "stat")]);
}

#[test]
fn cycle_terminates_without_duplicates() {
    let cat = catalog(&[("r1", &["a", "b"])]);
    let g = vec![directed_edge("depends-on", "a", "b"), directed_edge("depends-on", "b", "a")];
    let out = expand_build_closure(&vec![r("r1", "a")], &g, &cat).unwrap();
    assert_eq!(out.len(), 2);
    assert!(out.contains(&r("r1", "a")));
    assert!(out.contains(&r("r1", "b")));
}

#[test]
fn closure_of_closure_is_idempotent() {
    let cat = catalog(&[("r1", &["a", "b", "c"])]);
    let g = vec![directed_edge("depends-on", "a", "b"), directed_edge("depends-on", "b", "c")];
    let first = expand_build_closure(&vec![r("r1", "a")], &g, &cat).unwrap();
    let second = expand_build_closure(&first, &g, &cat).unwrap();
    assert_eq!(first, second);
}

#[test]
fn unknown_target_component_errors_with_actionable_message() {
    let cat = catalog(&[("r1", &["a"])]);
    let g = vec![directed_edge("depends-on", "a", "x")];
    let err = expand_build_closure(&vec![r("r1", "a")], &g, &cat).unwrap_err();
    assert_eq!(err.code, ErrorCode::NotFound);
    let msg = err.message;
    assert!(msg.contains("\"x\""), "must name the missing target: {msg}");
    assert!(msg.contains("atlas index"), "must suggest atlas re-index: {msg}");
}

#[test]
fn ambiguous_target_component_errors_with_repo_list() {
    let cat = catalog(&[("r1", &["a"]), ("r2", &["b"]), ("r3", &["b"])]);
    let g = vec![directed_edge("depends-on", "a", "b")];
    let err = expand_build_closure(&vec![r("r1", "a")], &g, &cat).unwrap_err();
    assert_eq!(err.code, ErrorCode::Conflict);
    let msg = err.message;
    assert!(msg.contains("ambiguous"), "must say ambiguous: {msg}");
    assert!(msg.contains("[r2, r3]"), "must list candidates: {msg}");
}

#[test]
fn initial_set_with_both_endpoints_does_not_duplicate() {
    let cat = catalog(&[("r1", &["a", "b"])]);
    let g = vec![directed_edge("depends-on", "a", "b")];
    let out = expand_build_closure(&vec![r("r1", "a"), r("r1", "b")], &g, &cat).unwrap();
    assert_eq!(out, vec![r("r1", "a"), r("r1", "b")]);
}

#[test]
fn discovery_is_breadth_first() {
    let cat = catalog(&[("r1", &["a", "b", "c", "d"])]);
    let g = vec![
        directed_edge("depends-on", "b", "d"),
        directed_edge("depends-on", "a", "b"),
        directed_edge("depends-on", "a", "c"),
    ];
    let out = expand_build_closure(&vec![r("r1", "a"), r("r1", "a")], &g, &cat).unwrap();
    assert_eq!(out, vec![r("r1", "a"), r("r1", "b"), r("r1", "c"), r("r1", "d")]);
}

fn repo(slug: &str, comps: &[(&str, bool)]) -> CatalogRepo {
    CatalogRepo {
        slug: slug.into(),
        components: comps.iter().map(|(id, deleted)| CatalogComponent { id: id.to_string(), deleted: *deleted }).collect(),
    }
}

#[test]
fn seed_refs_of_fresh_repos_pass() {
    let cat = vec![repo("r1", &[("app", false), ("shared", false)]), repo("r2", &[("util", false)])];
    assert!(validate_initial_refs(&cat, &vec![r("r1", "app"), r("r2", "util")]).is_ok());
}

#[test]
fn seed_refs_must_name_fresh_repos_and_live_components() {
    let cat = vec![repo("r1", &[("app", false), ("gone", true)]), repo("r2", &[])];
    let err = validate_initial_refs(&cat, &vec![r("r3", "x")]).unwrap_err();
    assert_eq!(err.code, ErrorCode::NotFound);
    assert!(err.message.starts_with("ref \"r3\":\"x\": repo \"r3\" is not a fresh entry"));
    assert!(err.message.ends_with("Fresh repos: [r1, r2]"));
    let err = validate_initial_refs(&cat, &vec![r("r1", "app"), r("r1", "gone")]).unwrap_err();
    assert!(err.message.contains("no component with id \"gone\" in repo \"r1\""));
    assert!(err.message.contains("--repo r1 --format yaml"));
}

// ----- closure mounts, over the plan's targets in memory ---------------------------


fn two_repo_catalog() -> (Vec<CatalogRepo>, Vec<(String, String)>) {
    let repos = vec![repo("r1", &[("app", false), ("shared", false)]), repo("r2", &[("util", false)])];
    (repos, catalog(&[("r1", &["app", "shared"]), ("r2", &["util"])]))
}

/// Validate the seed refs, expand them and record a mount for every ref of
/// the closure; the rows recorded for this call are returned.
fn mount_closure(
    targets: &mut TargetsFile,
    repos: &Vec<CatalogRepo>,
    cat: &Vec<(String, String)>,
    edges: &Vec<BuildEdge>,
    initial: Vec<(String, String)>,
) -> Result<Vec<Target>, ravel_lite::error::PlanError> {
    validate_initial_refs(repos, &initial)?;
    let closure = expand_build_closure(&initial, edges, cat)?;
    let mut mounted = Vec::new();
    for (slug, comp) in closure {
        let row = Target {
            repo_slug: slug.clone(),
            component_id: comp.clone(),
            working_root: worktree_root(&slug),
            branch: plan_branch("test-plan"),
            path_segments: vec![format!("crates/{comp}")],
        };
        mounted.push(record_mount(targets, row));
    }
    Ok(mounted)
}

#[test]
fn mounts_only_initial_when_no_edges() {
    let (repos, cat) = two_repo_catalog();
    let mut targets = TargetsFile::default();
    let mounted = mount_closure(&mut targets, &repos, &cat, &vec![], vec![r("r1", "app")]).unwrap();
    assert_eq!(mounted.len(), 1);
    assert_eq!(mounted[0].repo_slug, "r1");
    assert_eq!(mounted[0].component_id, "app");
    assert!(targets.targets.iter().all(|t| t.repo_slug != "r2"), "r2 must not be mounted");
}

#[test]
fn mounts_cross_repo_dependency_eagerly() {
    let (repos, cat) = two_repo_catalog();
    let mut targets = TargetsFile::default();
    let edges = vec![directed_edge("depends-on", "app", "util")];
    let mounted = mount_closure(&mut targets, &repos, &cat, &edges, vec![r("r1", "app")]).unwrap();
    let slugs: Vec<&str> = mounted.iter().map(|t| t.repo_slug.as_str()).collect();
    assert!(slugs.contains(&"r1") && slugs.contains(&"r2"));
    assert_eq!(targets.targets.len(), 2);
    assert_eq!(targets.targets[1].working_root, ".worktrees/r2");
}

#[test]
fn second_call_with_same_input_is_a_noop() {
    let (repos, cat) = two_repo_catalog();
    let mut targets = TargetsFile::default();
    let edges = vec![directed_edge("depends-on", "app", "util")];
    mount_closure(&mut targets, &repos, &cat, &edges, vec![r("r1", "app")]).unwrap();
    let after_first = targets.targets.len();
    mount_closure(&mut targets, &repos, &cat, &edges, vec![r("r1", "app")]).unwrap();
    assert_eq!(after_first, targets.targets.len());
}

#[test]
fn third_call_with_extra_ref_appends_only_new_rows() {
    let (repos, cat) = two_repo_catalog();
    let mut targets = TargetsFile::default();
    mount_closure(&mut targets, &repos, &cat, &vec![], vec![r("r1", "app")]).unwrap();
    assert_eq!(targets.targets.len(), 1);
    mount_closure(&mut targets, &repos, &cat, &vec![], vec![r("r1", "shared")]).unwrap();
    assert_eq!(targets.targets.len(), 2);
    assert!(targets.targets.iter().any(|t| t.component_id == "shared"));
    assert!(targets.targets.iter().all(|t| t.working_root == ".worktrees/r1"));
}

#[test]
fn unknown_initial_repo_errors_with_fresh_repo_list() {
    let (repos, cat) = two_repo_catalog();
    let mut targets = TargetsFile::default();
    let err = mount_closure(&mut targets, &repos, &cat, &vec![], vec![r("nope", "app")]).unwrap_err();
    assert!(err.message.contains("\"nope\""), "must cite the bad slug: {}", err.message);
    assert!(err.message.contains("Fresh repos"), "must list fresh repos: {}", err.message);
    assert!(targets.targets.is_empty());
}

#[test]
fn unknown_initial_component_errors_with_repo_qualified_message() {
    let (repos, cat) = two_repo_catalog();
    let mut targets = TargetsFile::default();
    let err = mount_closure(&mut targets, &repos, &cat, &vec![], vec![r("r1", "ghost")]).unwrap_err();
    assert!(err.message.contains("\"ghost\""), "must cite the missing component: {}", err.message);
    assert!(err.message.contains("atlas list-components"), "must suggest the diagnostic command: {}", err.message);
}

#[test]
fn expanding_an_expansion_again_gives_it_back() {
    let cat = catalog(&[("r1", &["a", "b"]), ("r2", &["c"])]);
    let g = vec![directed_edge("depends-on", "a", "b"), directed_edge("depends-on", "b", "c")];
    let out = expand_build_closure(&vec![r("r1", "a")], &g, &cat).unwrap();
    assert_eq!(out, vec![r("r1", "a"), r("r1", "b"), r("r2", "c")]);
    assert_eq!(expand_build_closure(&out, &g, &cat).unwrap(), out);
}
