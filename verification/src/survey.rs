//! The multi-plan survey: each plan's phase, backlog and memory bundled
//! into one prompt for a summarising model, and the choice of that model.
//! Walking the plan roots and running the model is the caller's part.

use vstd::prelude::*;

use crate::error::{ErrorCode, PlanError};
use crate::paths::{file_name_of, path_file_name};
use crate::plan_kg::{clone_opt, opt_view};
use crate::text::{
    chars_of, concat2, lex_lt, owned, push_str, str_eq, str_lt, string_from_chars, trim, trim_chars, views,
};

verus! {

broadcast use vstd::string::group_string_axioms;

/// Where the survey prompt template lives inside a configuration root.
pub const SURVEY_PROMPT_PATH: &'static str = "survey.md";

/// One plan's state, as the survey prompt shows it.
#[derive(Debug)]
pub struct PlanSnapshot {
    pub project: String,
    pub plan: String,
    pub phase: String,
    pub backlog: Option<String>,
    pub memory: Option<String>,
}

/// A snapshot as the contracts see it.
pub ghost struct SnapshotView {
    pub project: Seq<char>,
    pub plan: Seq<char>,
    pub phase: Seq<char>,
    pub backlog: Option<Seq<char>>,
    pub memory: Option<Seq<char>>,
}

impl View for PlanSnapshot {
    type V = SnapshotView;

    open spec fn view(&self) -> SnapshotView {
        SnapshotView {
            project: self.project@,
            plan: self.plan@,
            phase: self.phase@,
            backlog: opt_view(self.backlog),
            memory: opt_view(self.memory),
        }
    }
}

/// The views of a list of snapshots.
pub open spec fn snapshot_views(v: Seq<PlanSnapshot>) -> Seq<SnapshotView> {
    v.map_values(|p: PlanSnapshot| p@)
}

/// An agent's configuration, as far as the survey reads it: the model
/// named for each phase (or for `survey`), each name once.
#[derive(Debug)]
pub struct AgentConfig {
    pub models: Vec<(String, String)>,
    pub thinking: Vec<(String, String)>,
    pub provider: Option<String>,
}

/// The model configured under `key`, if any (the first entry for it).
pub open spec fn configured(models: Seq<(String, String)>, key: Seq<char>) -> Option<Seq<char>>
    decreases models.len(),
{
    if models.len() == 0 {
        None
    } else if models[0].0@ == key {
        Some(models[0].1@)
    } else {
        configured(models.drop_first(), key)
    }
}

/// The survey model: the command-line choice, else the agent's `survey`
/// model, else the caller's fallback (a cheap, fast model suits a
/// summary).
pub fn resolve_model(agent_config: &AgentConfig, flag_override: Option<String>, default_model: &str) -> (r: String)
    ensures
        r@ == match flag_override {
            Some(f) => f@,
            None => match configured(agent_config.models@, "survey"@) {
                Some(m) => m,
                None => default_model@,
            },
        },
{
    match flag_override {
        Some(f) => {
            return f;
        },
        None => {},
    }
    let models = &agent_config.models;
    let mut i: usize = 0;
    assert(models@.skip(0) =~= models@);
    while i < models.len()
        invariant
            flag_override is None,
            models@ == agent_config.models@,
            i <= models@.len(),
            configured(models@, "survey"@) == configured(models@.skip(i as int), "survey"@),
        decreases models.len() - i,
    {
        assert(models@.skip(i as int)[0] == models@[i as int]);
        assert(models@.skip(i as int).drop_first() =~= models@.skip(i + 1));
        if str_eq(models[i].0.as_str(), "survey") {
            assert(configured(models@.skip(i as int), "survey"@) == Some(models@[i as int].1@));
            return owned(models[i].1.as_str());
        }
        i += 1;
    }
    assert(models@.skip(i as int).len() == 0);
    owned(default_model)
}

/// The project label of a plan root: its directory name, or `(unknown)`.
pub fn root_project_name(root: &str) -> (r: String)
    ensures
        r@ == match path_file_name(root@) {
            Some(n) => n,
            None => "(unknown)"@,
        },
{
    match file_name_of(root) {
        Some(n) => n,
        None => owned("(unknown)"),
    }
}

/// The plan label of a plan directory: its name, or `(unnamed)`.
pub fn plan_dir_name(dir: &str) -> (r: String)
    ensures
        r@ == match path_file_name(dir@) {
            Some(n) => n,
            None => "(unnamed)"@,
        },
{
    match file_name_of(dir) {
        Some(n) => n,
        None => owned("(unnamed)"),
    }
}

/// A snapshot of one plan, its `phase.md` text trimmed.
pub fn snapshot(project: &str, plan: &str, phase_text: &str, backlog: Option<String>, memory: Option<String>) -> (r:
    PlanSnapshot)
    ensures
        r@ == (SnapshotView {
            project: project@,
            plan: plan@,
            phase: trim(phase_text@),
            backlog: opt_view(backlog),
            memory: opt_view(memory),
        }),
{
    let cs = chars_of(phase_text);
    let t = trim_chars(cs.as_slice());
    PlanSnapshot { project: owned(project), plan: owned(plan), phase: string_from_chars(t.as_slice()), backlog, memory }
}

/// Snapshot `a` sorts before snapshot `b`: by plan name, ties in input
/// order.
pub open spec fn plan_before(v: Seq<SnapshotView>, a: int, b: int) -> bool {
    lex_lt(v[a].plan, v[b].plan) || (v[a].plan == v[b].plan && a < b)
}

proof fn lemma_plan_before_order(v: Seq<SnapshotView>, a: int, b: int, c: int)
    ensures
        a != b ==> plan_before(v, a, b) || plan_before(v, b, a),
        !(plan_before(v, a, b) && plan_before(v, b, a)),
        plan_before(v, a, b) && plan_before(v, b, c) ==> plan_before(v, a, c),
{
    crate::text::lemma_lex_total(v[a].plan, v[b].plan);
    if lex_lt(v[a].plan, v[b].plan) && lex_lt(v[b].plan, v[c].plan) {
        crate::text::lemma_lex_transitive(v[a].plan, v[b].plan, v[c].plan);
    }
    crate::text::lemma_lex_irreflexive(v[a].plan);
}

/// `out` holds the snapshots of `input` at the positions `order` lists:
/// each input position once, in `plan_before` order.
pub open spec fn sorted_by(input: Seq<SnapshotView>, out: Seq<SnapshotView>, order: Seq<int>) -> bool {
    &&& order.len() == input.len()
    &&& out.len() == input.len()
    &&& forall|p: int| 0 <= p < order.len() ==> 0 <= #[trigger] order[p] < input.len() && out[p] == input[order[p]]
    &&& forall|p: int, q: int| 0 <= p < q < order.len() ==> plan_before(input, #[trigger] order[p], #[trigger] order[q])
}

fn duplicate(p: &PlanSnapshot) -> (r: PlanSnapshot)
    ensures
        r@ == p@,
{
    PlanSnapshot {
        project: owned(p.project.as_str()),
        plan: owned(p.plan.as_str()),
        phase: owned(p.phase.as_str()),
        backlog: clone_opt(&p.backlog),
        memory: clone_opt(&p.memory),
    }
}

/// The snapshots sorted by plan name (a stable sort): position `p` of the
/// result holds input snapshot `order[p]`, and `order` lists every input
/// position once, in `plan_before` order.
pub fn sort_by_plan(plans: &Vec<PlanSnapshot>) -> (r: Vec<PlanSnapshot>)
    ensures
        r@.len() == plans@.len(),
        exists|order: Seq<int>| #[trigger] sorted_by(snapshot_views(plans@), snapshot_views(r@), order),
{
    let ghost v = snapshot_views(plans@);
    let n = plans.len();
    let mut order: Vec<usize> = Vec::new();
    let mut i: usize = 0;
    while i < n
        invariant
            n == plans@.len(),
            v == snapshot_views(plans@),
            i <= n,
            order@.len() == i,
            forall|p: int| 0 <= p < order@.len() ==> #[trigger] order@[p] < i,
            forall|p: int, q: int|
                0 <= p < q < order@.len() ==> plan_before(v, #[trigger] order@[p] as int, #[trigger] order@[q] as int),
        decreases n - i,
    {
        let mut p: usize = 0;
        while p < order.len() && !str_lt(plans[i].plan.as_str(), plans[order[p]].plan.as_str())
            invariant
                n == plans@.len(),
                v == snapshot_views(plans@),
                i < n,
                p <= order@.len(),
                forall|a: int| 0 <= a < order@.len() ==> #[trigger] order@[a] < i,
                forall|q: int| 0 <= q < p ==> plan_before(v, #[trigger] order@[q] as int, i as int),
            decreases order.len() - p,
        {
            proof {
                let o = order@[p as int] as int;
                assert(v[o] == plans@[o]@);
                assert(v[i as int] == plans@[i as int]@);
                lemma_plan_before_order(v, o, i as int, i as int);
            }
            p += 1;
        }
        let ghost o = order@;
        proof {
            if p < o.len() {
                let x = o[p as int] as int;
                assert(v[x] == plans@[x]@);
                assert(v[i as int] == plans@[i as int]@);
                assert(plan_before(v, i as int, x));
            }
        }
        order.insert(p, i);
        proof {
            assert forall|a: int, b: int| 0 <= a < b < order@.len() implies plan_before(
                v,
                #[trigger] order@[a] as int,
                #[trigger] order@[b] as int,
            ) by {
                if b < p {
                } else if b == p {
                } else if a < p {
                    assert(order@[b] == o[b - 1]);
                    lemma_plan_before_order(v, o[a] as int, i as int, o[p as int] as int);
                    if b - 1 > p {
                        lemma_plan_before_order(v, i as int, o[p as int] as int, o[b - 1] as int);
                    }
                    lemma_plan_before_order(v, o[a] as int, i as int, o[b - 1] as int);
                } else if a == p {
                    assert(order@[b] == o[b - 1]);
                    if b - 1 > p {
                        lemma_plan_before_order(v, i as int, o[p as int] as int, o[b - 1] as int);
                    }
                } else {
                    assert(order@[a] == o[a - 1]);
                    assert(order@[b] == o[b - 1]);
                }
            }
            assert forall|a: int| 0 <= a < order@.len() implies #[trigger] order@[a] < i + 1 by {
                if a < p {
                } else if a > p {
                    assert(order@[a] == o[a - 1]);
                }
            }
        }
        i += 1;
    }
    let mut out: Vec<PlanSnapshot> = Vec::new();
    let mut k: usize = 0;
    while k < n
        invariant
            n == plans@.len(),
            order@.len() == n,
            forall|p: int| 0 <= p < order@.len() ==> #[trigger] order@[p] < n,
            k <= n,
            out@.len() == k,
            forall|p: int| 0 <= p < k ==> out@[p]@ == plans@[order@[p] as int]@,
        decreases n - k,
    {
        assert(order@[k as int] < n);
        out.push(duplicate(&plans[order[k]]));
        k += 1;
    }
    let ghost oi = order@.map_values(|x: usize| x as int);
    assert(oi.len() == plans@.len());
    assert forall|p: int| 0 <= p < oi.len() implies 0 <= #[trigger] oi[p] < plans@.len() && snapshot_views(out@)[p] == v[oi[p]] by {
        assert(order@[p] < n);
    }
    assert forall|p: int, q: int| 0 <= p < q < oi.len() implies plan_before(v, #[trigger] oi[p], #[trigger] oi[q]) by {
        assert(plan_before(v, order@[p] as int, order@[q] as int));
    }
    assert(sorted_by(v, snapshot_views(out@), oi));
    out
}

/// The part of a block for an optional file: its text, or `(missing)`.
pub open spec fn file_part(heading: Seq<char>, text: Option<Seq<char>>) -> Seq<char> {
    match text {
        Some(t) => heading + t + "\n\n"@,
        None => heading + "(missing)\n\n"@,
    }
}

/// One plan's block in the survey input.
pub open spec fn plan_block(p: SnapshotView) -> Seq<char> {
    "\n## Plan: "@ + p.project + "/"@ + p.plan + "\n\n### phase\n"@ + p.phase + "\n\n"@
        + file_part("### backlog.md\n"@, p.backlog) + file_part("### memory.md\n"@, p.memory) + "---\n"@
}

/// The survey input: the blocks of the plans, in order.
pub open spec fn survey_input(plans: Seq<SnapshotView>) -> Seq<char>
    decreases plans.len(),
{
    if plans.len() == 0 {
        seq![]
    } else {
        survey_input(plans.drop_last()) + plan_block(plans.last())
    }
}

fn write_file_part(out: &mut String, heading: &str, text: &Option<String>)
    ensures
        final(out)@ == old(out)@ + file_part(heading@, opt_view(*text)),
{
    push_str(out, heading);
    match text {
        Some(t) => {
            push_str(out, t.as_str());
            push_str(out, "\n\n");
        },
        None => push_str(out, "(missing)\n\n"),
    }
}

fn write_plan_block(out: &mut String, p: &PlanSnapshot)
    ensures
        final(out)@ == old(out)@ + plan_block(p@),
{
    let ghost start = out@;
    push_str(out, "\n## Plan: ");
    push_str(out, p.project.as_str());
    push_str(out, "/");
    push_str(out, p.plan.as_str());
    push_str(out, "\n\n### phase\n");
    push_str(out, p.phase.as_str());
    push_str(out, "\n\n");
    write_file_part(out, "### backlog.md\n", &p.backlog);
    write_file_part(out, "### memory.md\n", &p.memory);
    push_str(out, "---\n");
    assert(out@ =~= start + plan_block(p@));
}

/// All plans as one markdown block for the survey prompt. A missing
/// backlog or memory file is marked `(missing)`, so an empty file and an
/// absent one read differently; each plan ends with a horizontal rule.
pub fn render_survey_input(plans: &Vec<PlanSnapshot>) -> (r: String)
    ensures
        r@ == survey_input(snapshot_views(plans@)),
{
    let mut out = String::new();
    let mut i: usize = 0;
    while i < plans.len()
        invariant
            i <= plans@.len(),
            out@ == survey_input(snapshot_views(plans@).take(i as int)),
        decreases plans.len() - i,
    {
        let ghost t = snapshot_views(plans@).take(i + 1);
        assert(t.drop_last() =~= snapshot_views(plans@).take(i as int));
        assert(t.last() == plans@[i as int]@);
        write_plan_block(&mut out, &plans[i]);
        i += 1;
    }
    assert(snapshot_views(plans@).take(plans@.len() as int) =~= snapshot_views(plans@));
    out
}

/// The prompt sent to the model: the template, a rule, the plans.
pub fn full_survey_prompt(template: &str, input: &str) -> (r: String)
    ensures
        r@ == template@ + "\n\n---\n"@ + input@,
{
    let mut r = owned(template);
    push_str(&mut r, "\n\n---\n");
    push_str(&mut r, input);
    r
}

} // verus!
