use ravel_lite::error::ErrorCode;
use ravel_lite::phase_loop::{
    after_agent, agent_run, dirty_lines_to_report, dirty_warning_lines, header_scope, mount_notice, parse_phase_marker,
    parse_porcelain_path, plan_name, project_name, script_step, work_tree_status_text, AfterAgent, LlmPhase, Phase,
    ScriptPhase,
};

#[test]
fn project_name_strips_to_basename() {
    assert_eq!(project_name("/Users/x/Development/ravel-lite"), "ravel-lite");
    assert_eq!(project_name("ravel-lite"), "ravel-lite");
}

#[test]
fn project_name_handles_trailing_slash() {
    assert_eq!(project_name("/Users/x/ravel-lite/"), "ravel-lite");
}

#[test]
fn project_name_empty_when_unparseable() {
    assert_eq!(project_name(""), "");
    assert_eq!(project_name("/"), "");
}

#[test]
fn header_scope_combines_project_and_plan() {
    assert_eq!(header_scope("ravel-lite", "core"), "ravel-lite / core");
}

#[test]
fn header_scope_falls_back_to_plan_when_project_empty() {
    assert_eq!(header_scope("", "core"), "core");
}

#[test]
fn parse_porcelain_path_handles_modified_file() {
    assert_eq!(parse_porcelain_path(" M src/foo.rs").as_deref(), Some("src/foo.rs"));
    assert_eq!(parse_porcelain_path("M  src/foo.rs").as_deref(), Some("src/foo.rs"));
}

#[test]
fn parse_porcelain_path_handles_untracked() {
    assert_eq!(parse_porcelain_path("?? new.rs").as_deref(), Some("new.rs"));
}

#[test]
fn parse_porcelain_path_returns_new_name_for_rename() {
    assert_eq!(
        parse_porcelain_path("R  old/path.rs -> new/path.rs").as_deref(),
        Some("new/path.rs")
    );
}

#[test]
fn parse_porcelain_path_returns_none_on_too_short_input() {
    assert_eq!(parse_porcelain_path(""), None);
    assert_eq!(parse_porcelain_path("ab"), None);
}

#[test]
fn parse_porcelain_path_counts_bytes_not_characters() {
    // "é" is two bytes: the third byte falls inside the next character's
    // encoding only when the boundary is not at byte 3.
    assert_eq!(parse_porcelain_path("éa b").as_deref(), Some("b"));
    assert_eq!(parse_porcelain_path("aé b").as_deref(), Some("b"));
    assert_eq!(parse_porcelain_path("€xyz"), Some("xyz".to_string()));
    assert_eq!(parse_porcelain_path("a€b"), None);
}

#[test]
fn plan_name_is_the_directory_basename() {
    assert_eq!(plan_name("/ctx/plans/core"), "core");
    assert_eq!(plan_name("/"), "");
}

#[test]
fn phase_marker_parses_trimmed_words_and_rejects_others() {
    assert_eq!(parse_phase_marker("  work\n").unwrap(), Phase::Llm(LlmPhase::Work));
    assert_eq!(
        parse_phase_marker("git-commit-analyse-work").unwrap(),
        Phase::Script(ScriptPhase::GitCommitAnalyseWork)
    );
    let err = parse_phase_marker(" dreaming \n").unwrap_err();
    assert_eq!(err.code, ErrorCode::InvalidInput);
    assert_eq!(err.message, "Unknown phase: dreaming");
}

#[test]
fn phase_words_round_trip() {
    let all = [
        Phase::Llm(LlmPhase::Triage),
        Phase::Llm(LlmPhase::Work),
        Phase::Llm(LlmPhase::AnalyseWork),
        Phase::Llm(LlmPhase::Reflect),
        Phase::Script(ScriptPhase::GitCommitTriage),
        Phase::Script(ScriptPhase::GitCommitWork),
        Phase::Script(ScriptPhase::GitCommitAnalyseWork),
        Phase::Script(ScriptPhase::GitCommitReflect),
    ];
    for p in all {
        assert_eq!(Phase::parse(p.as_str()), Some(p));
    }
    assert_eq!(Phase::Llm(LlmPhase::Reflect).as_str(), "reflect");
}

#[test]
fn script_steps_follow_the_triage_first_cycle() {
    let t = script_step(ScriptPhase::GitCommitTriage);
    assert_eq!(t.next, LlmPhase::Work);
    assert_eq!(t.commit_label, "triage");
    assert_eq!(t.baseline, "work-baseline");
    assert_eq!(t.baseline_label, "save-work-baseline");
    assert!(t.drain_objections && t.run_cascade && t.continue_cycle);
    let w = script_step(ScriptPhase::GitCommitWork);
    assert_eq!(w.next, LlmPhase::AnalyseWork);
    assert_eq!(w.baseline, "analyse-work-baseline");
    let a = script_step(ScriptPhase::GitCommitAnalyseWork);
    assert_eq!(a.next, LlmPhase::Reflect);
    assert!(a.append_session_log && a.apply_commit_spec && a.warn_dirty_tree);
    assert_eq!(a.baseline_label, "save-reflect-baseline");
    let r = script_step(ScriptPhase::GitCommitReflect);
    assert_eq!(r.next, LlmPhase::Triage);
    assert_eq!(r.baseline, "triage-baseline");
    assert!(!r.continue_cycle);
}

#[test]
fn dirty_lines_narrow_to_touched_paths_but_keep_untracked_and_unreadable() {
    let dirty = vec![
        " M src/a.rs".to_string(),
        " M src/sibling.rs".to_string(),
        "?? new.rs".to_string(),
        "R  old.rs -> src/b.rs".to_string(),
        "x".to_string(),
    ];
    let touched = Some(vec!["src/a.rs".to_string(), "src/b.rs".to_string()]);
    assert_eq!(
        dirty_lines_to_report(&dirty, &touched),
        vec![" M src/a.rs", "?? new.rs", "R  old.rs -> src/b.rs", "x"]
    );
    assert_eq!(dirty_lines_to_report(&dirty, &None), dirty);
}

#[test]
fn dirty_warning_lists_twenty_lines_and_counts_the_rest() {
    assert!(dirty_warning_lines(&vec![]).is_empty());
    let listed: Vec<String> = (0..23).map(|i| format!(" M f{i}.rs")).collect();
    let lines = dirty_warning_lines(&listed);
    assert_eq!(lines.len(), 3 + 20 + 1);
    assert_eq!(lines[0], "\n  ⚠  WARNING: uncommitted changes remain in the project tree");
    assert_eq!(lines[3], "        M f0.rs");
    assert_eq!(lines[23], "       ... and 3 more (run `git status` for the full list)");
    let short = dirty_warning_lines(&vec!["?? a".to_string()]);
    assert_eq!(short.len(), 4);
    assert_eq!(short[3], "       ?? a");
}

#[test]
fn work_runs_interactively_and_seeds_a_missing_baseline() {
    let run = agent_run(LlmPhase::Work, false);
    assert!(run.seed_work_baseline && run.interactive && !run.snapshot_work_tree);
    assert!(!agent_run(LlmPhase::Work, true).seed_work_baseline);
    let analyse = agent_run(LlmPhase::AnalyseWork, false);
    assert!(!analyse.seed_work_baseline && !analyse.interactive && analyse.snapshot_work_tree);
    assert!(!agent_run(LlmPhase::Reflect, false).interactive);
}

#[test]
fn work_tree_status_needs_a_baseline() {
    assert_eq!(work_tree_status_text("  \n", None), "(work-baseline missing; no snapshot available)");
    assert_eq!(work_tree_status_text("abc123", Some(" M src/lib.rs\n".into())), " M src/lib.rs\n");
}

#[test]
fn loop_stops_when_the_agent_leaves_the_phase_unchanged() {
    let same = after_agent(Phase::Llm(LlmPhase::Reflect), Phase::Llm(LlmPhase::Reflect));
    match same {
        AfterAgent::Stop { notice } => assert_eq!(notice, "\n  ✗  Phase did not advance from reflect. Stopping."),
        AfterAgent::Continue => panic!("expected a stop"),
    }
    assert!(matches!(
        after_agent(Phase::Llm(LlmPhase::Reflect), Phase::Script(ScriptPhase::GitCommitReflect)),
        AfterAgent::Continue
    ));
}

#[test]
fn mount_notice_only_when_something_was_mounted() {
    assert!(mount_notice(0, "p / q").is_none());
    assert_eq!(
        mount_notice(2, "proj / plan").unwrap(),
        "\n  ⚙  MOUNT  ·  proj / plan  ·  drained 2 request(s) from target-requests.yaml"
    );
}

#[test]
fn migration_phase_words_round_trip() {
    for phase in [LlmPhase::MigrateIntent, LlmPhase::MigrateTargets, LlmPhase::MigrateMemoryBackfill] {
        let p = Phase::Llm(phase);
        assert_eq!(parse_phase_marker(p.as_str()).unwrap(), p);
    }
    assert_eq!(Phase::Llm(LlmPhase::MigrateMemoryBackfill).as_str(), "migrate-memory-backfill");
}
