use ravel_lite::error::ErrorCode;
use ravel_lite::phase_loop::LlmPhase;
use ravel_lite::prompt::{check_unresolved, compose_prompt, load_phase_file, phase_file_path, substitute_tokens, PlanContext};

fn test_ctx() -> PlanContext {
    PlanContext {
        plan_dir: "/plans/my-plan".to_string(),
        project_dir: "/project".to_string(),
        dev_root: "/dev".to_string(),
        related_plans: "related stuff".to_string(),
        config_root: "/config".to_string(),
    }
}

fn no_tokens() -> Vec<(String, String)> {
    Vec::new()
}

#[test]
fn substitutes_built_in_tokens() {
    let ctx = test_ctx();
    let result = substitute_tokens("plan={{PLAN}} project={{PROJECT}}", &ctx, &no_tokens()).unwrap();
    assert_eq!(result, "plan=/plans/my-plan project=/project");
}

#[test]
fn substitutes_custom_tokens() {
    let ctx = test_ctx();
    let tokens = vec![("TOOL_READ".to_string(), "Read".to_string())];
    let result = substitute_tokens("Use {{TOOL_READ}}", &ctx, &tokens).unwrap();
    assert_eq!(result, "Use Read");
}

#[test]
fn fails_on_unresolved_token() {
    let ctx = test_ctx();
    let err = substitute_tokens("needs {{MEMORY_DIR}} here", &ctx, &no_tokens())
        .expect_err("unresolved token should fail");
    let msg = err.message;
    assert!(msg.contains("{{MEMORY_DIR}}"), "message was: {msg}");
}

#[test]
fn lists_all_unresolved_tokens_sorted_and_deduped() {
    let ctx = test_ctx();
    let err = substitute_tokens(
        "{{UNKNOWN_B}} and {{UNKNOWN_A}} and {{UNKNOWN_A}} again",
        &ctx,
        &no_tokens(),
    )
    .expect_err("unresolved tokens should fail");
    let msg = err.message;
    let a = msg.find("{{UNKNOWN_A}}").expect("missing UNKNOWN_A");
    let b = msg.find("{{UNKNOWN_B}}").expect("missing UNKNOWN_B");
    assert!(a < b, "names should be sorted: {msg}");
    assert_eq!(msg.matches("{{UNKNOWN_A}}").count(), 1, "dedup failed: {msg}");
}

#[test]
fn substitutes_path_tokens_inside_related_plans() {
    let ctx = PlanContext {
        plan_dir: "/plans/my-plan".to_string(),
        project_dir: "/project".to_string(),
        dev_root: "/dev".to_string(),
        related_plans: "- {{DEV_ROOT}}/Peer — sibling project".to_string(),
        config_root: "/config".to_string(),
    };
    let result = substitute_tokens("Related plans:\n{{RELATED_PLANS}}", &ctx, &no_tokens())
        .expect("path tokens inside related_plans should resolve");
    assert_eq!(result, "Related plans:\n- /dev/Peer — sibling project");
}

#[test]
fn accepts_single_brace_sequences() {
    let ctx = test_ctx();
    let result = substitute_tokens("keep {x} and {{not-a-token}}", &ctx, &no_tokens()).unwrap();
    assert_eq!(result, "keep {x} and {{not-a-token}}");
}

#[test]
fn compose_prompt_appends_lua_registered_text_in_order() {
    let ctx = PlanContext {
        plan_dir: "/tmp/plan-xyz".to_string(),
        project_dir: "/project".to_string(),
        dev_root: "/dev".to_string(),
        related_plans: "".to_string(),
        config_root: "/config".to_string(),
    };
    let appends = vec!["First append for {{PLAN}}".to_string(), "Second append".to_string()];
    let result = compose_prompt("Base triage prompt", &None, &appends, &ctx, &no_tokens()).unwrap();
    let first_pos = result.find("First append for").expect("first append present");
    let second_pos = result.find("Second append").expect("second append present");
    assert!(first_pos < second_pos);
    assert!(result.contains("/tmp/plan-xyz"));
    assert!(result.matches("\n\n---\n\n").count() >= appends.len());
}

#[test]
fn compose_prompt_places_override_before_appends() {
    let ctx = test_ctx();
    let result = compose_prompt(
        "base",
        &Some("Local override for {{PLAN}}".to_string()),
        &vec!["tail".to_string()],
        &ctx,
        &no_tokens(),
    )
    .unwrap();
    assert_eq!(result, "base\n\n---\n\nLocal override for /plans/my-plan\n\n---\n\ntail");
}

#[test]
fn custom_tokens_apply_in_the_given_order() {
    let ctx = test_ctx();
    let tokens = vec![("A".to_string(), "{{B}}".to_string()), ("B".to_string(), "done".to_string())];
    assert_eq!(substitute_tokens("{{A}}", &ctx, &tokens).unwrap(), "done");
    let reversed = vec![("B".to_string(), "done".to_string()), ("A".to_string(), "{{B}}".to_string())];
    let err = substitute_tokens("{{A}}", &ctx, &reversed).unwrap_err();
    assert_eq!(err.code, ErrorCode::InvalidInput);
}

#[test]
fn unresolved_message_is_exact() {
    let names = vec!["Z".to_string(), "A".to_string(), "Z".to_string()];
    let err = check_unresolved(&names).unwrap_err();
    assert_eq!(
        err.message,
        "Prompt contains unresolved token(s) after substitution: {{A}}, {{Z}}. This usually indicates a typo in a phase prompt or a missing agent-provided token."
    );
    assert!(check_unresolved(&vec![]).is_ok());
}

#[test]
fn phase_file_lookup() {
    assert_eq!(phase_file_path(LlmPhase::AnalyseWork), "phases/analyse-work.md");
    assert_eq!(load_phase_file(LlmPhase::Triage, Some("x".to_string())).unwrap(), "x");
    let err = load_phase_file(LlmPhase::Work, None).unwrap_err();
    assert_eq!(err.code, ErrorCode::NotFound);
    assert!(err.message.contains("phases/work.md"));
}

#[test]
fn compose_prompt_uses_embedded_phase_and_applies_override() {
    let ctx = PlanContext {
        plan_dir: "/tmp/plan-abc".to_string(),
        project_dir: "/project".to_string(),
        dev_root: "/dev".to_string(),
        related_plans: "".to_string(),
        config_root: "/config".to_string(),
    };
    let result = compose_prompt(
        "Embedded triage base",
        &Some("Local override for {{PLAN}}".to_string()),
        &vec![],
        &ctx,
        &no_tokens(),
    )
    .unwrap();
    assert!(result.starts_with("Embedded triage base"));
    assert!(result.contains("Local override for"), "override must be appended");
    assert!(result.contains("/tmp/plan-abc"), "{{{{PLAN}}}} token must be substituted in the override");
}

#[test]
fn migration_phases_have_an_empty_prompt() {
    for phase in [LlmPhase::MigrateIntent, LlmPhase::MigrateTargets, LlmPhase::MigrateMemoryBackfill] {
        assert_eq!(load_phase_file(phase, None).unwrap(), "");
        assert_eq!(load_phase_file(phase, Some("ignored".to_string())).unwrap(), "");
    }
}
