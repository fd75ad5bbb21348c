use ravel_lite::error::ErrorCode;
use ravel_lite::repos::{registry_from_entries, registry_path, run_remove, try_add, ReposRegistry, SCHEMA_VERSION};

fn slugs(r: &ReposRegistry) -> Vec<String> {
    r.entries().into_iter().map(|(s, _, _)| s).collect()
}

#[test]
fn try_add_rejects_duplicate_slug() {
    let mut registry = ReposRegistry::default();
    try_add(&mut registry, "atlas", "u1", None).unwrap();
    let err = try_add(&mut registry, "atlas", "u2", None).unwrap_err();
    assert!(err.message.contains("already registered"));
    assert_eq!(err.code, ErrorCode::Conflict);
    assert_eq!(registry.get("atlas").unwrap().url, "u1");
}

#[test]
fn repos_load_or_empty_returns_empty_when_file_missing() {
    let registry = ReposRegistry::default();
    assert_eq!(registry.schema_version, SCHEMA_VERSION);
    assert!(registry.entries().is_empty());
}

#[test]
fn insertion_order_is_preserved() {
    let mut registry = ReposRegistry::default();
    try_add(&mut registry, "zeta", "u1", None).unwrap();
    try_add(&mut registry, "alpha", "u2", None).unwrap();
    try_add(&mut registry, "mu", "u3", None).unwrap();
    assert_eq!(slugs(&registry), vec!["zeta", "alpha", "mu"]);
}

#[test]
fn local_path_is_stored_absolute() {
    let mut registry = ReposRegistry::default();
    try_add(&mut registry, "atlas", "u", Some("checkout/./sub")).unwrap();
    let stored = registry.get("atlas").unwrap().local_path.clone().unwrap();
    assert!(stored.starts_with('/'), "local_path should be absolute, was {stored:?}");
    assert!(stored.ends_with("checkout/sub"), "local_path should be cleaned, was {stored:?}");
}

#[test]
fn local_path_absolute_input_is_cleaned() {
    let mut registry = ReposRegistry::default();
    try_add(&mut registry, "atlas", "u", Some("/src//atlas/../atlas2")).unwrap();
    assert_eq!(registry.get("atlas").unwrap().local_path.as_deref(), Some("/src/atlas2"));
}

#[test]
fn run_remove_errors_when_slug_missing() {
    let mut registry = ReposRegistry::default();
    let err = run_remove(&mut registry, "nope", "/ctx/repos.yaml").unwrap_err();
    assert!(err.message.contains("no repo named 'nope'"));
    assert_eq!(err.message, "no repo named 'nope' in registry at /ctx/repos.yaml");
    assert_eq!(err.code, ErrorCode::NotFound);
}

#[test]
fn run_add_then_remove_round_trips() {
    let mut registry = ReposRegistry::default();
    try_add(&mut registry, "atlas", "git@example/atlas.git", None).unwrap();
    assert!(registry.get("atlas").is_some());
    run_remove(&mut registry, "atlas", "/ctx/repos.yaml").unwrap();
    assert!(registry.get("atlas").is_none());
}

#[test]
fn remove_keeps_the_order_of_the_others() {
    let mut registry = ReposRegistry::default();
    for (s, u) in [("a", "1"), ("b", "2"), ("c", "3")] {
        try_add(&mut registry, s, u, None).unwrap();
    }
    run_remove(&mut registry, "b", "f").unwrap();
    assert_eq!(slugs(&registry), vec!["a", "c"]);
}

#[test]
fn repos_load_rejects_unknown_schema_version() {
    let err = registry_from_entries("/ctx/repos.yaml", 99, vec![]).unwrap_err();
    assert!(err.message.contains("schema_version"));
    assert!(err.message.contains("99"));
    assert_eq!(err.code, ErrorCode::Conflict);
    assert_eq!(
        err.message,
        "/ctx/repos.yaml has schema_version 99 but this ravel-lite expects 1; aborting to avoid data loss"
    );
}

#[test]
fn registry_from_entries_keeps_order_and_cleans_paths() {
    let reg = registry_from_entries(
        "f",
        SCHEMA_VERSION,
        vec![
            ("zeta".into(), "u1".into(), Some("/a/./b/".into())),
            ("alpha".into(), "u2".into(), None),
        ],
    )
    .unwrap();
    assert_eq!(slugs(&reg), vec!["zeta", "alpha"]);
    assert_eq!(reg.get("zeta").unwrap().local_path.as_deref(), Some("/a/b"));
    assert!(reg.get("alpha").unwrap().local_path.is_none());
}

#[test]
fn registry_path_joins_file_name() {
    assert_eq!(registry_path("/ctx"), "/ctx/repos.yaml");
}
