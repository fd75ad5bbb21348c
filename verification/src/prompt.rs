//! Prompt composition: the layers of a phase prompt joined by horizontal
//! rules, then token substitution over the whole, refusing any `{{NAME}}`
//! placeholder left behind.

use vstd::prelude::*;

use crate::error::{ErrorCode, PlanError};
use crate::phase_loop::{is_migration, phase_word, LlmPhase, Phase};
use crate::sorted::{insert_sorted_exec, lemma_sorted_set, sorted_set, strictly_sorted};
use crate::text::{concat2, owned, push_str, replace_all, replace_str, seq_starts_with, views};

verus! {

broadcast use vstd::string::group_string_axioms;

/// The paths and inlined content a prompt's tokens resolve to.
#[derive(Debug)]
pub struct PlanContext {
    pub plan_dir: String,
    pub project_dir: String,
    pub dev_root: String,
    pub related_plans: String,
    pub config_root: String,
}

/// The pattern of a placeholder: `{{`, a name of ASCII letters, digits and
/// `_`, `}}`; the name is the first group.
pub const TOKEN_PATTERN: &'static str = r"\{\{([A-Za-z0-9_]+)\}\}";

/// What `regex` finds in `text` for `pattern`: the text of the first group
/// of each match, scanning left to right (empty where the group took no
/// part in a match).
pub uninterp spec fn regex_first_groups(pattern: Seq<char>, text: Seq<char>) -> Seq<Seq<char>>;

/// `Regex::new(pattern)` and then `Regex::captures_iter(text)`, each
/// capture taken by its first group. `None` when the pattern does not
/// compile; otherwise the groups are what `regex_first_groups` names.
/// `Regex::new` refuses only a pattern with a syntax error or one whose
/// compiled form exceeds the size limit; the placeholder pattern has
/// neither, so for it the result is `Some`.
#[verifier::external_body]
fn first_groups(pattern: &str, text: &str) -> (r: Option<Vec<String>>)
    ensures
        r matches Some(v) ==> views(v@) == regex_first_groups(pattern@, text@),
        pattern@ == TOKEN_PATTERN@ ==> r is Some,
{
    let re = regex::Regex::new(pattern).ok()?;
    Some(re.captures_iter(text).map(|c| c.get(1).map_or("", |m| m.as_str()).to_string()).collect())
}

/// `{{name}}`.
pub open spec fn placeholder(name: Seq<char>) -> Seq<char> {
    "{{"@ + name + "}}"@
}

/// `text` with each `(name, value)` pair substituted in order.
pub open spec fn apply_tokens(text: Seq<char>, tokens: Seq<(Seq<char>, Seq<char>)>) -> Seq<char>
    decreases tokens.len(),
{
    if tokens.len() == 0 {
        text
    } else {
        replace_all(apply_tokens(text, tokens.drop_last()), placeholder(tokens.last().0), tokens.last().1)
    }
}

/// The views of a token list.
pub open spec fn token_views(v: Seq<(String, String)>) -> Seq<(Seq<char>, Seq<char>)> {
    v.map_values(|t: (String, String)| (t.0@, t.1@))
}

/// The substituted prompt: `{{RELATED_PLANS}}` first (its content may
/// hold path tokens), then the caller's tokens in order, then the path
/// tokens `{{DEV_ROOT}}`, `{{PROJECT}}`, `{{PLAN}}`, `{{ORCHESTRATOR}}`.
pub open spec fn substituted(content: Seq<char>, ctx: PlanContext, tokens: Seq<(Seq<char>, Seq<char>)>) -> Seq<char> {
    let a = replace_all(content, "{{RELATED_PLANS}}"@, ctx.related_plans@);
    let b = apply_tokens(a, tokens);
    let c = replace_all(b, "{{DEV_ROOT}}"@, ctx.dev_root@);
    let d = replace_all(c, "{{PROJECT}}"@, ctx.project_dir@);
    let e = replace_all(d, "{{PLAN}}"@, ctx.plan_dir@);
    replace_all(e, "{{ORCHESTRATOR}}"@, ctx.config_root@)
}

/// The placeholders joined by `, `.
pub open spec fn placeholder_list(names: Seq<Seq<char>>) -> Seq<char>
    decreases names.len(),
{
    if names.len() == 0 {
        seq![]
    } else if names.len() == 1 {
        placeholder(names[0])
    } else {
        placeholder_list(names.drop_last()) + ", "@ + placeholder(names.last())
    }
}

/// The refusal message for leftover placeholders.
pub open spec fn unresolved_message(names: Seq<Seq<char>>) -> Seq<char> {
    "Prompt contains unresolved token(s) after substitution: "@ + placeholder_list(names)
        + ". This usually indicates a typo in a phase prompt or a missing agent-provided token."@
}

/// Refuses leftover placeholders: given the names found, `Ok` when there
/// are none, else an `InvalidInput` error listing each distinct name once,
/// sorted.
pub fn check_unresolved(names: &Vec<String>) -> (r: Result<(), PlanError>)
    ensures
        r is Ok <==> names@.len() == 0,
        r matches Err(e) ==> e.code == ErrorCode::InvalidInput && e.message@ == unresolved_message(
            sorted_set(views(names@)),
        ),
{
    if names.len() == 0 {
        return Ok(());
    }
    let mut set: Vec<String> = Vec::new();
    let mut i: usize = 0;
    while i < names.len()
        invariant
            i <= names@.len(),
            views(set@) == sorted_set(views(names@).take(i as int)),
        decreases names.len() - i,
    {
        proof {
            lemma_sorted_set(views(names@).take(i as int));
            assert(views(names@).take(i + 1).drop_last() =~= views(names@).take(i as int));
            assert(views(names@).take(i + 1).last() == names@[i as int]@);
        }
        insert_sorted_exec(&mut set, owned(names[i].as_str()));
        i += 1;
    }
    assert(views(names@).take(names@.len() as int) =~= views(names@));
    let mut list = String::new();
    let mut k: usize = 0;
    while k < set.len()
        invariant
            k <= set@.len(),
            list@ == placeholder_list(views(set@).take(k as int)),
        decreases set.len() - k,
    {
        let ghost t = views(set@).take(k + 1);
        assert(t.drop_last() =~= views(set@).take(k as int));
        assert(t.last() == set@[k as int]@);
        if k > 0 {
            push_str(&mut list, ", ");
        }
        push_str(&mut list, "{{");
        push_str(&mut list, set[k].as_str());
        push_str(&mut list, "}}");
        proof {
            if k == 0 {
                assert(list@ =~= placeholder_list(t));
            } else {
                assert(list@ =~= placeholder_list(t));
            }
        }
        k += 1;
    }
    assert(views(set@).take(set@.len() as int) =~= views(set@));
    let mut m = owned("Prompt contains unresolved token(s) after substitution: ");
    push_str(&mut m, list.as_str());
    push_str(
        &mut m,
        ". This usually indicates a typo in a phase prompt or a missing agent-provided token.",
    );
    Err(PlanError { code: ErrorCode::InvalidInput, message: m })
}

/// Substitute the tokens of `ctx` and `tokens` into `content` (see
/// `substituted`), then refuse the result if any `{{NAME}}` placeholder is
/// left: the error lists every such name once, sorted.
pub fn substitute_tokens(content: &str, ctx: &PlanContext, tokens: &Vec<(String, String)>) -> (r: Result<
    String,
    PlanError,
>)
    ensures
        r matches Ok(s) ==> s@ == substituted(content@, *ctx, token_views(tokens@)) && regex_first_groups(
            TOKEN_PATTERN@,
            s@,
        ).len() == 0,
        r matches Err(e) ==> e.code == ErrorCode::InvalidInput && e.message@ == unresolved_message(
            sorted_set(regex_first_groups(TOKEN_PATTERN@, substituted(content@, *ctx, token_views(tokens@)))),
        ),
        r is Ok <==> regex_first_groups(TOKEN_PATTERN@, substituted(content@, *ctx, token_views(tokens@))).len() == 0,
{
    proof {
        reveal_strlit("{{RELATED_PLANS}}");
        reveal_strlit("{{DEV_ROOT}}");
        reveal_strlit("{{PROJECT}}");
        reveal_strlit("{{PLAN}}");
        reveal_strlit("{{ORCHESTRATOR}}");
        reveal_strlit("{{");
        reveal_strlit("}}");
    }
    let mut result = replace_str(content, "{{RELATED_PLANS}}", ctx.related_plans.as_str());
    let mut i: usize = 0;
    while i < tokens.len()
        invariant
            i <= tokens@.len(),
            "{{"@.len() == 2,
            result@ == apply_tokens(replace_all(content@, "{{RELATED_PLANS}}"@, ctx.related_plans@), token_views(tokens@).take(i as int)),
        decreases tokens.len() - i,
    {
        let ghost t = token_views(tokens@).take(i + 1);
        assert(t.drop_last() =~= token_views(tokens@).take(i as int));
        assert(t.last() == (tokens@[i as int].0@, tokens@[i as int].1@));
        let head = concat2("{{", tokens[i].0.as_str());
        let pat = concat2(head.as_str(), "}}");
        assert(pat@ == placeholder(tokens@[i as int].0@));
        result = replace_str(result.as_str(), pat.as_str(), tokens[i].1.as_str());
        i += 1;
    }
    assert(token_views(tokens@).take(tokens@.len() as int) =~= token_views(tokens@));
    result = replace_str(result.as_str(), "{{DEV_ROOT}}", ctx.dev_root.as_str());
    result = replace_str(result.as_str(), "{{PROJECT}}", ctx.project_dir.as_str());
    result = replace_str(result.as_str(), "{{PLAN}}", ctx.plan_dir.as_str());
    result = replace_str(result.as_str(), "{{ORCHESTRATOR}}", ctx.config_root.as_str());
    let names = match first_groups(TOKEN_PATTERN, result.as_str()) {
        Some(names) => names,
        None => Vec::new(),
    };
    assert(views(names@) == regex_first_groups(TOKEN_PATTERN@, result@));
    assert(names@.len() == views(names@).len());
    match check_unresolved(&names) {
        Ok(()) => Ok(result),
        Err(e) => Err(e),
    }
}

/// The layers of a prompt: the phase prompt, then the plan's override if
/// any, then each appended text, each later layer after a horizontal rule.
pub open spec fn layered(base: Seq<char>, override_text: Option<Seq<char>>, appends: Seq<Seq<char>>) -> Seq<char>
    decreases appends.len(),
{
    if appends.len() == 0 {
        match override_text {
            Some(ov) => base + "\n\n---\n\n"@ + ov,
            None => base,
        }
    } else {
        layered(base, override_text, appends.drop_last()) + "\n\n---\n\n"@ + appends.last()
    }
}

/// Compose the prompt of a phase from its layers (see `layered`) and
/// substitute tokens over the whole, as `substitute_tokens` does.
pub fn compose_prompt(
    base: &str,
    override_text: &Option<String>,
    appends: &Vec<String>,
    ctx: &PlanContext,
    tokens: &Vec<(String, String)>,
) -> (r: Result<String, PlanError>)
    ensures
        ({
            let whole = layered(base@, crate::plan_kg::opt_view(*override_text), views(appends@));
            &&& r matches Ok(s) ==> s@ == substituted(whole, *ctx, token_views(tokens@))
            &&& r matches Err(e) ==> e.code == ErrorCode::InvalidInput && e.message@ == unresolved_message(
                sorted_set(regex_first_groups(TOKEN_PATTERN@, substituted(whole, *ctx, token_views(tokens@)))),
            )
            &&& r is Ok <==> regex_first_groups(TOKEN_PATTERN@, substituted(whole, *ctx, token_views(tokens@))).len() == 0
        }),
{
    let mut prompt = owned(base);
    match override_text {
        Some(ov) => {
            push_str(&mut prompt, "\n\n---\n\n");
            push_str(&mut prompt, ov.as_str());
        },
        None => {},
    }
    let mut i: usize = 0;
    while i < appends.len()
        invariant
            i <= appends@.len(),
            prompt@ == layered(base@, crate::plan_kg::opt_view(*override_text), views(appends@).take(i as int)),
        decreases appends.len() - i,
    {
        let ghost t = views(appends@).take(i + 1);
        assert(t.drop_last() =~= views(appends@).take(i as int));
        push_str(&mut prompt, "\n\n---\n\n");
        push_str(&mut prompt, appends[i].as_str());
        i += 1;
    }
    assert(views(appends@).take(appends@.len() as int) =~= views(appends@));
    substitute_tokens(prompt.as_str(), ctx, tokens)
}

/// Where the embedded prompt of an agent phase lives: `phases/<phase>.md`.
pub fn phase_file_path(phase: LlmPhase) -> (r: String)
    ensures
        r@ == "phases/"@ + phase_word(Phase::Llm(phase)) + ".md"@,
{
    let mut r = owned("phases/");
    push_str(&mut r, Phase::Llm(phase).as_str());
    push_str(&mut r, ".md");
    r
}

/// The prompt of an agent phase, given what the embedded set holds at its
/// path: that text, or `NotFound` naming the path when the set lacks it.
/// A migration phase has no embedded prompt yet: its prompt is empty,
/// whatever `embedded` holds.
pub fn load_phase_file(phase: LlmPhase, embedded: Option<String>) -> (r: Result<String, PlanError>)
    ensures
        is_migration(phase) ==> (r matches Ok(s) && s@.len() == 0),
        !is_migration(phase) ==> match embedded {
            Some(t) => r matches Ok(s) && s@ == t@,
            None => r matches Err(e) && e.code == ErrorCode::NotFound && e.message@ == "embedded file "@ + "phases/"@
                + phase_word(Phase::Llm(phase)) + ".md"@ + " not found"@,
        },
{
    match phase {
        LlmPhase::MigrateIntent | LlmPhase::MigrateTargets | LlmPhase::MigrateMemoryBackfill => {
            return Ok(String::new());
        },
        _ => {},
    }
    match embedded {
        Some(t) => Ok(t),
        None => {
            let path = phase_file_path(phase);
            let head = concat2("embedded file ", path.as_str());
            Err(PlanError { code: ErrorCode::NotFound, message: concat2(head.as_str(), " not found") })
        },
    }
}


// ----- what substitution does to a placeholder ------------------------------------

/// No `{` anywhere in `s`.
pub open spec fn brace_free(s: Seq<char>) -> bool {
    forall|i: int| 0 <= i < s.len() ==> s[i] != '{'
}

/// A placeholder name: non-empty, with no brace in it.
pub open spec fn plain_name(n: Seq<char>) -> bool {
    n.len() > 0 && forall|i: int| 0 <= i < n.len() ==> n[i] != '{' && n[i] != '}'
}

/// Replacing `pat` over `x + z`, where `pat` starts at no position of `x`,
/// keeps `x` and works on `z`.
proof fn lemma_replace_skips(x: Seq<char>, z: Seq<char>, pat: Seq<char>, rep: Seq<char>)
    requires
        pat.len() > 0,
        forall|i: int| 0 <= i < x.len() ==> !seq_starts_with(#[trigger] (x + z).skip(i), pat),
    ensures
        replace_all(x + z, pat, rep) == x + replace_all(z, pat, rep),
    decreases x.len(),
{
    if x.len() == 0 {
        assert(x + z =~= z);
        assert(x + replace_all(z, pat, rep) =~= replace_all(z, pat, rep));
    } else {
        let s = x + z;
        assert(s.skip(0) =~= s);
        let x1 = x.drop_first();
        assert(s.drop_first() =~= x1 + z);
        assert forall|i: int| 0 <= i < x1.len() implies !seq_starts_with(#[trigger] (x1 + z).skip(i), pat) by {
            assert((x1 + z).skip(i) =~= s.skip(i + 1));
        }
        lemma_replace_skips(x1, z, pat, rep);
        assert(x =~= seq![x[0]] + x1);
    }
}

/// A pattern that starts with `{` occurs nowhere in brace-free text.
proof fn lemma_replace_brace_free(s: Seq<char>, pat: Seq<char>, rep: Seq<char>)
    requires
        pat.len() > 0,
        pat[0] == '{',
        brace_free(s),
    ensures
        replace_all(s, pat, rep) == s,
{
    assert forall|i: int| 0 <= i < s.len() implies !seq_starts_with(#[trigger] (s + seq![]).skip(i), pat) by {
        assert((s + seq![]).skip(i)[0] == s[i]);
    }
    lemma_replace_skips(s, seq![], pat, rep);
    assert(s + seq![] =~= s);
    assert(s + replace_all(seq![], pat, rep) =~= s);
}

/// Facts about the characters of a placeholder.
proof fn lemma_placeholder_chars(n: Seq<char>)
    requires
        plain_name(n),
    ensures
        placeholder(n).len() == n.len() + 4,
        placeholder(n)[0] == '{',
        placeholder(n)[1] == '{',
        forall|k: int| 0 <= k < n.len() ==> placeholder(n)[k + 2] == #[trigger] n[k],
        placeholder(n)[n.len() + 2int] == '}',
        placeholder(n)[n.len() + 3int] == '}',
{
    reveal_strlit("{{");
    reveal_strlit("}}");
}

/// The placeholder of one name occurs in no position of another's (nor
/// where the other runs into what follows it).
proof fn lemma_other_placeholder_absent(n1: Seq<char>, n2: Seq<char>, y: Seq<char>)
    requires
        plain_name(n1),
        plain_name(n2),
        n1 != n2,
    ensures
        forall|i: int| 0 <= i < placeholder(n1).len() ==> !seq_starts_with(
            #[trigger] (placeholder(n1) + y).skip(i),
            placeholder(n2),
        ),
{
    lemma_placeholder_chars(n1);
    lemma_placeholder_chars(n2);
    let p = placeholder(n1);
    let q = placeholder(n2);
    let m = p.len() as int;
    let l = q.len() as int;
    assert forall|i: int| 0 <= i < m implies !seq_starts_with(#[trigger] (p + y).skip(i), q) by {
        let t = (p + y).skip(i);
        if seq_starts_with(t, q) {
            assert(t.subrange(0, l) == q);
            assert forall|j: int| 0 <= j < l implies t[j] == q[j] by {
                assert(t.subrange(0, l)[j] == t[j]);
            }
            if i == 0 {
                assert forall|j: int| 0 <= j < m && j < l implies p[j] == q[j] by {
                    assert(t[j] == (p + y)[j]);
                }
                if l <= m {
                    assert(p[l - 1] == '}');
                    assert(p[l - 2] == '}');
                    if l < m {
                        let k = l - 4;
                        assert(0 <= k < n1.len());
                        assert(p[k + 2] == n1[k]);
                    }
                    assert(l == m);
                    assert forall|k: int| 0 <= k < n1.len() implies n1[k] == n2[k] by {
                        assert(p[k + 2] == n1[k]);
                        assert(q[k + 2] == n2[k]);
                    }
                    assert(n1 =~= n2);
                } else {
                    assert(q[m - 1] == '}');
                    let k = m - 3;
                    assert(0 <= k < n2.len());
                    assert(q[k + 2] == n2[k]);
                }
            } else if i == 1 {
                assert(t[1] == p[2]);
                assert(p[2] == n1[0]);
            } else {
                assert(t[0] == p[i]);
                if i < m - 2 {
                    assert(p[(i - 2) + 2] == n1[i - 2]);
                }
            }
        }
    }
}

/// One pass over text holding a single placeholder: its own pattern puts
/// the value in its place; another placeholder's pattern changes nothing.
proof fn lemma_pass(x: Seq<char>, n: Seq<char>, y: Seq<char>, pat_name: Seq<char>, rep: Seq<char>)
    requires
        brace_free(x),
        brace_free(y),
        plain_name(n),
        plain_name(pat_name),
    ensures
        replace_all(x + placeholder(n) + y, placeholder(pat_name), rep) == if n == pat_name {
            x + rep + y
        } else {
            x + placeholder(n) + y
        },
{
    lemma_placeholder_chars(n);
    lemma_placeholder_chars(pat_name);
    let p = placeholder(n);
    let q = placeholder(pat_name);
    let z = p + y;
    assert(x + p + y =~= x + z);
    assert forall|i: int| 0 <= i < x.len() implies !seq_starts_with(#[trigger] (x + z).skip(i), q) by {
        assert((x + z).skip(i)[0] == x[i]);
    }
    lemma_replace_skips(x, z, q, rep);
    lemma_replace_brace_free(y, q, rep);
    if n == pat_name {
        assert(seq_starts_with(z, q)) by {
            assert(z.subrange(0, q.len() as int) =~= q);
        }
        assert(z.skip(q.len() as int) =~= y);
        assert(x + (rep + y) =~= x + rep + y);
    } else {
        lemma_other_placeholder_absent(n, pat_name, y);
        lemma_replace_skips(p, y, q, rep);
        assert(x + (p + y) =~= x + p + y);
    }
}

/// Substitution puts each built-in placeholder's value in its place:
/// `{{RELATED_PLANS}}` the related plans, `{{DEV_ROOT}}` the dev root,
/// `{{PROJECT}}` the project directory, `{{PLAN}}` the plan directory and
/// `{{ORCHESTRATOR}}` the config root, whatever the other values are (for
/// brace-free surrounding text and values, and no custom tokens).
pub proof fn lemma_builtin_placeholders(ctx: PlanContext, x: Seq<char>, y: Seq<char>)
    requires
        brace_free(x),
        brace_free(y),
        brace_free(ctx.related_plans@),
        brace_free(ctx.dev_root@),
        brace_free(ctx.project_dir@),
        brace_free(ctx.plan_dir@),
        brace_free(ctx.config_root@),
    ensures
        substituted(x + "{{RELATED_PLANS}}"@ + y, ctx, seq![]) == x + ctx.related_plans@ + y,
        substituted(x + "{{DEV_ROOT}}"@ + y, ctx, seq![]) == x + ctx.dev_root@ + y,
        substituted(x + "{{PROJECT}}"@ + y, ctx, seq![]) == x + ctx.project_dir@ + y,
        substituted(x + "{{PLAN}}"@ + y, ctx, seq![]) == x + ctx.plan_dir@ + y,
        substituted(x + "{{ORCHESTRATOR}}"@ + y, ctx, seq![]) == x + ctx.config_root@ + y,
{
    reveal_strlit("{{");
    reveal_strlit("}}");
    reveal_strlit("RELATED_PLANS");
    reveal_strlit("DEV_ROOT");
    reveal_strlit("PROJECT");
    reveal_strlit("PLAN");
    reveal_strlit("ORCHESTRATOR");
    reveal_strlit("{{RELATED_PLANS}}");
    reveal_strlit("{{DEV_ROOT}}");
    reveal_strlit("{{PROJECT}}");
    reveal_strlit("{{PLAN}}");
    reveal_strlit("{{ORCHESTRATOR}}");
    let names = seq!["RELATED_PLANS"@, "DEV_ROOT"@, "PROJECT"@, "PLAN"@, "ORCHESTRATOR"@];
    let lits = seq!["{{RELATED_PLANS}}"@, "{{DEV_ROOT}}"@, "{{PROJECT}}"@, "{{PLAN}}"@, "{{ORCHESTRATOR}}"@];
    let vals = seq![ctx.related_plans@, ctx.dev_root@, ctx.project_dir@, ctx.plan_dir@, ctx.config_root@];
    assert forall|k: int| 0 <= k < 5 implies plain_name(#[trigger] names[k]) && lits[k] == placeholder(names[k]) by {
        assert(lits[k] =~= placeholder(names[k]));
    }
    assert forall|j: int, k: int| 0 <= j < 5 && 0 <= k < 5 && j != k implies #[trigger] names[j] != #[trigger] names[k] by {
        if names[j] == names[k] {
            assert(names[j].len() == names[k].len());
            assert(names[j][0] == names[k][0]);
        }
    }
    assert forall|k: int| 0 <= k < 5 implies substituted(x + #[trigger] lits[k] + y, ctx, seq![]) == x + vals[k] + y by {
        let n = names[k];
        let v = vals[k];
        assert(brace_free(v));
        assert(brace_free(x + v + y));
        let s0 = x + placeholder(n) + y;
        assert(x + lits[k] + y == s0);
        // The passes in order; the one for `n` puts `v` in, the others
        // leave the text alone before and after it.
        lemma_pass(x, n, y, names[0], ctx.related_plans@);
        let a = replace_all(s0, placeholder(names[0]), ctx.related_plans@);
        assert(apply_tokens(a, seq![]) == a);
        lemma_pass(x, n, y, names[1], ctx.dev_root@);
        lemma_pass(x, n, y, names[2], ctx.project_dir@);
        lemma_pass(x, n, y, names[3], ctx.plan_dir@);
        lemma_pass(x, n, y, names[4], ctx.config_root@);
        let done = x + v + y;
        lemma_replace_brace_free(done, placeholder(names[1]), ctx.dev_root@);
        lemma_replace_brace_free(done, placeholder(names[2]), ctx.project_dir@);
        lemma_replace_brace_free(done, placeholder(names[3]), ctx.plan_dir@);
        lemma_replace_brace_free(done, placeholder(names[4]), ctx.config_root@);
        lemma_placeholder_chars(names[1]);
        lemma_placeholder_chars(names[2]);
        lemma_placeholder_chars(names[3]);
        lemma_placeholder_chars(names[4]);
    }
    assert(lits[0] == "{{RELATED_PLANS}}"@);
    assert(lits[4] == "{{ORCHESTRATOR}}"@);
    assert(lits[1] == "{{DEV_ROOT}}"@);
    assert(lits[2] == "{{PROJECT}}"@);
    assert(lits[3] == "{{PLAN}}"@);
}

/// A custom token puts its value in place of its placeholder, for a name
/// that is none of the built-in ones (brace-free surrounding text and
/// values).
pub proof fn lemma_custom_placeholder(ctx: PlanContext, x: Seq<char>, y: Seq<char>, name: Seq<char>, value: Seq<char>)
    requires
        brace_free(x),
        brace_free(y),
        brace_free(value),
        plain_name(name),
        name != "RELATED_PLANS"@,
    ensures
        substituted(x + placeholder(name) + y, ctx, seq![(name, value)]) == x + value + y,
{
    reveal_strlit("RELATED_PLANS");
    reveal_strlit("{{RELATED_PLANS}}");
    reveal_strlit("{{");
    reveal_strlit("}}");
    assert("{{RELATED_PLANS}}"@ =~= placeholder("RELATED_PLANS"@));
    let rp = "RELATED_PLANS"@;
    assert(rp.len() == 13);
    assert forall|i: int| 0 <= i < rp.len() implies rp[i] != '{' && rp[i] != '}' by {
        assert(rp =~= seq!['R', 'E', 'L', 'A', 'T', 'E', 'D', '_', 'P', 'L', 'A', 'N', 'S']);
    }
    lemma_pass(x, name, y, rp, ctx.related_plans@);
    let a = x + placeholder(name) + y;
    let toks = seq![(name, value)];
    assert(toks.drop_last() =~= seq![]);
    lemma_pass(x, name, y, name, value);
    let done = x + value + y;
    assert(apply_tokens(a, toks.drop_last()) == a);
    assert(toks.last() == (name, value));
    assert(apply_tokens(a, toks) == done);
    assert(brace_free(done));
    reveal_strlit("{{DEV_ROOT}}");
    reveal_strlit("{{PROJECT}}");
    reveal_strlit("{{PLAN}}");
    reveal_strlit("{{ORCHESTRATOR}}");
    lemma_replace_brace_free(done, "{{DEV_ROOT}}"@, ctx.dev_root@);
    lemma_replace_brace_free(done, "{{PROJECT}}"@, ctx.project_dir@);
    lemma_replace_brace_free(done, "{{PLAN}}"@, ctx.plan_dir@);
    lemma_replace_brace_free(done, "{{ORCHESTRATOR}}"@, ctx.config_root@);
}

// ----- the layers of a prompt -----------------------------------------------------

/// The parts, first to last, with a horizontal rule (a `---` line set off
/// by blank lines) between each two.
pub open spec fn joined_by_rules(parts: Seq<Seq<char>>) -> Seq<char>
    decreases parts.len(),
{
    if parts.len() == 0 {
        seq![]
    } else if parts.len() == 1 {
        parts[0]
    } else {
        parts[0] + "\n\n---\n\n"@ + joined_by_rules(parts.drop_first())
    }
}

proof fn lemma_joined_push(parts: Seq<Seq<char>>, x: Seq<char>)
    requires
        parts.len() > 0,
    ensures
        joined_by_rules(parts.push(x)) == joined_by_rules(parts) + "\n\n---\n\n"@ + x,
    decreases parts.len(),
{
    let r = "\n\n---\n\n"@;
    if parts.len() == 1 {
        assert(parts.push(x).drop_first() =~= seq![x]);
        assert(joined_by_rules(seq![x]) == x);
        assert(parts.push(x)[0] == parts[0]);
    } else {
        assert(parts.push(x).drop_first() =~= parts.drop_first().push(x));
        assert(parts.push(x)[0] == parts[0]);
        lemma_joined_push(parts.drop_first(), x);
        let j = joined_by_rules(parts.drop_first());
        assert(parts[0] + r + (j + r + x) =~= (parts[0] + r + j) + r + x);
    }
}

/// A prompt's layers are the base prompt, the plan's override when there
/// is one, then the appended texts in order, joined by horizontal rules.
pub proof fn lemma_layers_joined(base: Seq<char>, override_text: Option<Seq<char>>, appends: Seq<Seq<char>>)
    ensures
        layered(base, override_text, appends) == joined_by_rules(
            seq![base] + (match override_text {
                Some(o) => seq![o],
                None => seq![],
            }) + appends,
        ),
    decreases appends.len(),
{
    let head = seq![base] + (match override_text {
        Some(o) => seq![o],
        None => seq![],
    });
    if appends.len() == 0 {
        assert(head + appends =~= head);
        match override_text {
            Some(o) => {
                assert(head =~= seq![base].push(o));
                lemma_joined_push(seq![base], o);
            },
            None => {},
        }
    } else {
        lemma_layers_joined(base, override_text, appends.drop_last());
        assert(head + appends =~= (head + appends.drop_last()).push(appends.last()));
        lemma_joined_push(head + appends.drop_last(), appends.last());
    }
}

} // verus!
