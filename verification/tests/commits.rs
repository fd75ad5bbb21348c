use ravel_lite::component_ref::ComponentRef;
use ravel_lite::error::ErrorCode;
use ravel_lite::state::commits::schema::{CommitSpec, CommitsSpec, COMMITS_SCHEMA_VERSION};
use ravel_lite::state::commits::verbs::{run_list, run_show};
use ravel_lite::state::commits::yaml_io::commits_path;

fn populated_spec() -> CommitsSpec {
    CommitsSpec {
        schema_version: COMMITS_SCHEMA_VERSION,
        commits: vec![
            CommitSpec {
                paths: vec!["src/**".into()],
                message: "first".into(),
                target: Some(ComponentRef::new("ravel-lite", "phase-loop")),
            },
            CommitSpec { paths: vec!["docs/**".into()], message: "second".into(), target: None },
        ],
    }
}

#[test]
fn run_list_emits_empty_default_when_file_missing() {
    let listed = run_list(&CommitsSpec::default());
    assert_eq!(listed.schema_version, COMMITS_SCHEMA_VERSION);
    assert!(listed.commits.is_empty());
}

#[test]
fn run_show_rejects_zero_index() {
    let err = run_show(&populated_spec(), 0).unwrap_err();
    assert!(err.message.contains("1-based"), "error must explain indexing convention: {}", err.message);
    assert_eq!(err.code, ErrorCode::InvalidInput);
}

#[test]
fn run_show_rejects_out_of_range_index() {
    let err = run_show(&populated_spec(), 99).unwrap_err();
    assert!(err.message.contains("no commit at index 99"));
    assert!(err.message.contains("2 entries"), "error must show file size: {}", err.message);
}

#[test]
fn run_show_succeeds_within_range() {
    let spec = populated_spec();
    let first = run_show(&spec, 1).unwrap();
    assert_eq!(first.commits.len(), 1);
    assert_eq!(first.commits[0].message, "first");
    let target = first.commits[0].target.as_ref().unwrap();
    assert_eq!(target.component_id, "phase-loop");
    let second = run_show(&spec, 2).unwrap();
    assert_eq!(second.commits[0].message, "second");
    assert!(second.commits[0].target.is_none());
}

#[test]
fn run_show_names_one_entry_in_the_singular() {
    let mut spec = populated_spec();
    spec.commits.truncate(1);
    let err = run_show(&spec, 3).unwrap_err();
    assert!(err.message.ends_with("file holds 1 entry"), "{}", err.message);
}

#[test]
fn run_list_copies_every_commit() {
    let listed = run_list(&populated_spec());
    assert_eq!(listed.commits.len(), 2);
    assert_eq!(listed.commits[1].paths, vec!["docs/**".to_string()]);
}

#[test]
fn commits_path_joins_file_name() {
    assert_eq!(commits_path("/p/plan"), "/p/plan/commits.yaml");
}

#[test]
fn run_show_refusal_messages_are_exact() {
    let spec = populated_spec();
    assert_eq!(run_show(&spec, 0).unwrap_err().message, "commit index must be 1-based; got 0");
    assert_eq!(run_show(&spec, 3).unwrap_err().message, "no commit at index 3; file holds 2 entries");
    let one = CommitsSpec {
        schema_version: COMMITS_SCHEMA_VERSION,
        commits: vec![CommitSpec { paths: vec!["docs/**".into()], message: "second".into(), target: None }],
    };
    assert_eq!(run_show(&one, 2).unwrap_err().message, "no commit at index 2; file holds 1 entry");
}
