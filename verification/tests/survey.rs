use ravel_lite::survey::{
    full_survey_prompt, plan_dir_name, render_survey_input, resolve_model, root_project_name, snapshot, sort_by_plan,
    AgentConfig, PlanSnapshot,
};

const DEFAULT_SURVEY_MODEL: &str = "haiku-4-5";

fn empty_agent_config(models: &[(&str, &str)]) -> AgentConfig {
    AgentConfig {
        models: models.iter().map(|(k, v)| (k.to_string(), v.to_string())).collect(),
        thinking: Vec::new(),
        provider: None,
    }
}

fn plan(project: &str, name: &str, phase: &str) -> PlanSnapshot {
    PlanSnapshot { project: project.into(), plan: name.into(), phase: phase.into(), backlog: None, memory: None }
}

#[test]
fn render_survey_input_includes_project_and_plan_names() {
    let plans = vec![PlanSnapshot {
        project: "Mnemosyne".into(),
        plan: "sub-A".into(),
        phase: "work".into(),
        backlog: Some("# backlog".into()),
        memory: Some("# memory".into()),
    }];
    let out = render_survey_input(&plans);
    assert!(out.contains("## Plan: Mnemosyne/sub-A"));
    assert!(out.contains("### phase\nwork"));
    assert!(out.contains("### backlog.md\n# backlog"));
    assert!(out.contains("### memory.md\n# memory"));
}

#[test]
fn render_survey_input_marks_missing_files_explicitly() {
    let plans = vec![plan("P", "x", "work")];
    let out = render_survey_input(&plans);
    assert!(out.contains("### backlog.md\n(missing)"));
    assert!(out.contains("### memory.md\n(missing)"));
}

#[test]
fn render_survey_input_separates_plans_with_horizontal_rule() {
    let plans = vec![plan("P", "a", "work"), plan("P", "b", "triage")];
    let out = render_survey_input(&plans);
    assert_eq!(out.matches("\n---\n").count(), 2);
}

#[test]
fn resolve_model_prefers_cli_flag() {
    let cfg = empty_agent_config(&[("survey", "configured-model")]);
    let resolved = resolve_model(&cfg, Some("flag-model".into()), DEFAULT_SURVEY_MODEL);
    assert_eq!(resolved, "flag-model");
}

#[test]
fn resolve_model_falls_back_to_agent_config_survey_key() {
    let cfg = empty_agent_config(&[("survey", "configured-model")]);
    let resolved = resolve_model(&cfg, None, DEFAULT_SURVEY_MODEL);
    assert_eq!(resolved, "configured-model");
}

#[test]
fn resolve_model_uses_default_when_nothing_configured() {
    let cfg = empty_agent_config(&[]);
    let resolved = resolve_model(&cfg, None, DEFAULT_SURVEY_MODEL);
    assert_eq!(resolved, DEFAULT_SURVEY_MODEL);
}

#[test]
fn discover_plans_trims_phase_whitespace() {
    let p = snapshot("root", "plan-a", "  \n work \n\n", None, None);
    assert_eq!(p.phase, "work");
}

#[test]
fn discover_plans_records_missing_backlog_and_memory_as_none() {
    let p = snapshot("root", "plan-a", "work\n", None, None);
    assert!(p.backlog.is_none());
    assert!(p.memory.is_none());
}

#[test]
fn discover_plans_returns_sorted_by_plan_name() {
    let plans = vec![plan("r", "zeta", "work"), plan("r", "alpha", "work"), plan("r", "mu", "work")];
    let sorted = sort_by_plan(&plans);
    let names: Vec<_> = sorted.iter().map(|p| p.plan.as_str()).collect();
    assert_eq!(names, vec!["alpha", "mu", "zeta"]);
}

#[test]
fn sort_by_plan_keeps_ties_in_input_order() {
    let plans = vec![plan("first", "b", "w"), plan("x", "a", "w"), plan("second", "b", "w")];
    let sorted = sort_by_plan(&plans);
    let projects: Vec<_> = sorted.iter().map(|p| p.project.as_str()).collect();
    assert_eq!(projects, vec!["x", "first", "second"]);
}

#[test]
fn discover_plans_uses_root_basename_as_project() {
    assert_eq!(root_project_name("/tmp/x/Mnemosyne-LLM_STATE"), "Mnemosyne-LLM_STATE");
    assert_eq!(root_project_name("/"), "(unknown)");
    assert_eq!(plan_dir_name("/"), "(unnamed)");
    assert_eq!(plan_dir_name("/r/plan-x"), "plan-x");
}

#[test]
fn survey_block_and_prompt_are_exact() {
    let plans = vec![PlanSnapshot {
        project: "P".into(),
        plan: "x".into(),
        phase: "work".into(),
        backlog: Some("B".into()),
        memory: None,
    }];
    let input = render_survey_input(&plans);
    assert_eq!(input, "\n## Plan: P/x\n\n### phase\nwork\n\n### backlog.md\nB\n\n### memory.md\n(missing)\n\n---\n");
    assert_eq!(full_survey_prompt("T", "I"), "T\n\n---\nI");
}
