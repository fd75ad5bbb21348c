//! The decisions of the phase loop: which phase a marker names, what each
//! script phase does before handing over to the next phase, how a session
//! is labelled, and which dirty paths a post-commit warning lists. Running
//! agents, git and the terminal is the caller's part.

use vstd::prelude::*;

use crate::error::{ErrorCode, PlanError};
use crate::paths::{file_name_of, path_file_name};
use crate::plan_kg::opt_view;
use crate::text::{
    chars_of, concat2, concat3, decimal, decimal_string, find_from, occurs_at, owned, push_str,
    seq_starts_with, slice_chars, starts_with, str_eq, string_from_chars, trim, trim_chars, views,
};

verus! {

broadcast use vstd::string::group_string_axioms;

/// A phase run by an agent. The three migration phases stand outside the
/// cycle: they have no embedded prompt yet, and no commit phase follows
/// them.
#[derive(Debug, Clone, Copy, PartialEq, Eq, Structural)]
pub enum LlmPhase {
    Triage,
    Work,
    AnalyseWork,
    Reflect,
    MigrateIntent,
    MigrateTargets,
    MigrateMemoryBackfill,
}

/// One of the migration phases.
pub open spec fn is_migration(p: LlmPhase) -> bool {
    p == LlmPhase::MigrateIntent || p == LlmPhase::MigrateTargets || p == LlmPhase::MigrateMemoryBackfill
}

/// A phase run by the loop itself: commit and baseline bookkeeping.
#[derive(Debug, Clone, Copy, PartialEq, Eq, Structural)]
pub enum ScriptPhase {
    GitCommitTriage,
    GitCommitWork,
    GitCommitAnalyseWork,
    GitCommitReflect,
}

/// The position of the loop, as `phase.md` records it.
#[derive(Debug, Clone, Copy, PartialEq, Eq, Structural)]
pub enum Phase {
    Llm(LlmPhase),
    Script(ScriptPhase),
}

/// The marker word of a phase.
pub open spec fn phase_word(p: Phase) -> Seq<char> {
    match p {
        Phase::Llm(LlmPhase::Triage) => "triage"@,
        Phase::Llm(LlmPhase::Work) => "work"@,
        Phase::Llm(LlmPhase::AnalyseWork) => "analyse-work"@,
        Phase::Llm(LlmPhase::Reflect) => "reflect"@,
        Phase::Llm(LlmPhase::MigrateIntent) => "migrate-intent"@,
        Phase::Llm(LlmPhase::MigrateTargets) => "migrate-targets"@,
        Phase::Llm(LlmPhase::MigrateMemoryBackfill) => "migrate-memory-backfill"@,
        Phase::Script(ScriptPhase::GitCommitTriage) => "git-commit-triage"@,
        Phase::Script(ScriptPhase::GitCommitWork) => "git-commit-work"@,
        Phase::Script(ScriptPhase::GitCommitAnalyseWork) => "git-commit-analyse-work"@,
        Phase::Script(ScriptPhase::GitCommitReflect) => "git-commit-reflect"@,
    }
}

/// The phase whose marker word is `s`, if any.
pub open spec fn phase_named(s: Seq<char>) -> Option<Phase> {
    if s == "triage"@ {
        Some(Phase::Llm(LlmPhase::Triage))
    } else if s == "work"@ {
        Some(Phase::Llm(LlmPhase::Work))
    } else if s == "analyse-work"@ {
        Some(Phase::Llm(LlmPhase::AnalyseWork))
    } else if s == "reflect"@ {
        Some(Phase::Llm(LlmPhase::Reflect))
    } else if s == "git-commit-triage"@ {
        Some(Phase::Script(ScriptPhase::GitCommitTriage))
    } else if s == "git-commit-work"@ {
        Some(Phase::Script(ScriptPhase::GitCommitWork))
    } else if s == "git-commit-analyse-work"@ {
        Some(Phase::Script(ScriptPhase::GitCommitAnalyseWork))
    } else if s == "git-commit-reflect"@ {
        Some(Phase::Script(ScriptPhase::GitCommitReflect))
    } else if s == "migrate-intent"@ {
        Some(Phase::Llm(LlmPhase::MigrateIntent))
    } else if s == "migrate-targets"@ {
        Some(Phase::Llm(LlmPhase::MigrateTargets))
    } else if s == "migrate-memory-backfill"@ {
        Some(Phase::Llm(LlmPhase::MigrateMemoryBackfill))
    } else {
        None
    }
}

impl Phase {
    /// The marker word.
    pub fn as_str(self) -> (r: &'static str)
        ensures
            r@ == phase_word(self),
    {
        match self {
            Phase::Llm(LlmPhase::Triage) => "triage",
            Phase::Llm(LlmPhase::Work) => "work",
            Phase::Llm(LlmPhase::AnalyseWork) => "analyse-work",
            Phase::Llm(LlmPhase::Reflect) => "reflect",
            Phase::Llm(LlmPhase::MigrateIntent) => "migrate-intent",
            Phase::Llm(LlmPhase::MigrateTargets) => "migrate-targets",
            Phase::Llm(LlmPhase::MigrateMemoryBackfill) => "migrate-memory-backfill",
            Phase::Script(ScriptPhase::GitCommitTriage) => "git-commit-triage",
            Phase::Script(ScriptPhase::GitCommitWork) => "git-commit-work",
            Phase::Script(ScriptPhase::GitCommitAnalyseWork) => "git-commit-analyse-work",
            Phase::Script(ScriptPhase::GitCommitReflect) => "git-commit-reflect",
        }
    }

    /// The phase named by a marker word.
    pub fn parse(s: &str) -> (r: Option<Phase>)
        ensures
            r == phase_named(s@),
    {
        if str_eq(s, "triage") {
            Some(Phase::Llm(LlmPhase::Triage))
        } else if str_eq(s, "work") {
            Some(Phase::Llm(LlmPhase::Work))
        } else if str_eq(s, "analyse-work") {
            Some(Phase::Llm(LlmPhase::AnalyseWork))
        } else if str_eq(s, "reflect") {
            Some(Phase::Llm(LlmPhase::Reflect))
        } else if str_eq(s, "git-commit-triage") {
            Some(Phase::Script(ScriptPhase::GitCommitTriage))
        } else if str_eq(s, "git-commit-work") {
            Some(Phase::Script(ScriptPhase::GitCommitWork))
        } else if str_eq(s, "git-commit-analyse-work") {
            Some(Phase::Script(ScriptPhase::GitCommitAnalyseWork))
        } else if str_eq(s, "git-commit-reflect") {
            Some(Phase::Script(ScriptPhase::GitCommitReflect))
        } else if str_eq(s, "migrate-intent") {
            Some(Phase::Llm(LlmPhase::MigrateIntent))
        } else if str_eq(s, "migrate-targets") {
            Some(Phase::Llm(LlmPhase::MigrateTargets))
        } else if str_eq(s, "migrate-memory-backfill") {
            Some(Phase::Llm(LlmPhase::MigrateMemoryBackfill))
        } else {
            None
        }
    }
}

/// Every phase's marker word names that phase again.
pub proof fn lemma_phase_words_round_trip(p: Phase)
    ensures
        phase_named(phase_word(p)) == Some(p),
{
    reveal_strlit("triage");
    reveal_strlit("work");
    reveal_strlit("analyse-work");
    reveal_strlit("reflect");
    reveal_strlit("git-commit-triage");
    reveal_strlit("git-commit-work");
    reveal_strlit("git-commit-analyse-work");
    reveal_strlit("git-commit-reflect");
    reveal_strlit("migrate-intent");
    reveal_strlit("migrate-targets");
    reveal_strlit("migrate-memory-backfill");
    assert("triage"@.len() == 6);
    assert("work"@.len() == 4);
    assert("analyse-work"@.len() == 12);
    assert("reflect"@.len() == 7);
    assert("git-commit-triage"@.len() == 17);
    assert("git-commit-work"@.len() == 15);
    assert("git-commit-analyse-work"@.len() == 23);
    assert("git-commit-reflect"@.len() == 18);
    assert("migrate-intent"@.len() == 14);
    assert("migrate-targets"@.len() == 15);
    assert("migrate-memory-backfill"@.len() == 23);
    assert("migrate-targets"@[0] != "git-commit-work"@[0]);
    assert("migrate-memory-backfill"@[0] != "git-commit-analyse-work"@[0]);
}

/// The phase a `phase.md` text names (surrounding whitespace ignored);
/// an unknown word is `InvalidInput`, quoted in the message.
pub fn parse_phase_marker(content: &str) -> (r: Result<Phase, PlanError>)
    ensures
        match r {
            Ok(p) => phase_named(trim(content@)) == Some(p),
            Err(e) => phase_named(trim(content@)) is None && e.code == ErrorCode::InvalidInput
                && e.message@ == "Unknown phase: "@ + trim(content@),
        },
{
    let cs = chars_of(content);
    let t = trim_chars(cs.as_slice());
    let word = string_from_chars(t.as_slice());
    match Phase::parse(word.as_str()) {
        Some(p) => Ok(p),
        None => Err(PlanError { code: ErrorCode::InvalidInput, message: concat2("Unknown phase: ", word.as_str()) }),
    }
}

// ----- script phases ------------------------------------------------------------

/// What the loop does at a script phase, in order: drain the focus
/// objections (triage close only), run the defeat cascade (triage close
/// only), append the session log (analyse-work close only), write `next`
/// into `phase.md`, commit the plan under `commit_label` (for analyse-work
/// the commit spec is applied instead), save `baseline` and commit it under
/// `baseline_label`, warn about a dirty tree (analyse-work close only), and
/// go on to the next phase or end the cycle.
#[derive(Debug)]
pub struct ScriptStep {
    pub next: LlmPhase,
    pub commit_label: &'static str,
    pub baseline: &'static str,
    pub baseline_label: &'static str,
    pub drain_objections: bool,
    pub run_cascade: bool,
    pub append_session_log: bool,
    pub apply_commit_spec: bool,
    pub warn_dirty_tree: bool,
    pub continue_cycle: bool,
}

/// The step table of the script phases.
pub open spec fn script_step_spec(p: ScriptPhase) -> (LlmPhase, Seq<char>, Seq<char>, Seq<char>, bool, bool, bool, bool, bool, bool) {
    match p {
        ScriptPhase::GitCommitTriage => (LlmPhase::Work, "triage"@, "work-baseline"@, "save-work-baseline"@, true, true, false, false, false, true),
        ScriptPhase::GitCommitWork => (LlmPhase::AnalyseWork, "work"@, "analyse-work-baseline"@, "save-analyse-work-baseline"@, false, false, false, false, false, true),
        ScriptPhase::GitCommitAnalyseWork => (LlmPhase::Reflect, "analyse-work"@, "reflect-baseline"@, "save-reflect-baseline"@, false, false, true, true, true, true),
        ScriptPhase::GitCommitReflect => (LlmPhase::Triage, "reflect"@, "triage-baseline"@, "save-triage-baseline"@, false, false, false, false, false, false),
    }
}

/// The step of a script phase. The cycle is triage, work, analyse-work,
/// reflect; each baseline is named after the phase that reads it, and the
/// reflect close ends the cycle.
pub fn script_step(p: ScriptPhase) -> (r: ScriptStep)
    ensures
        script_step_spec(p) == (r.next, r.commit_label@, r.baseline@, r.baseline_label@, r.drain_objections, r.run_cascade, r.append_session_log, r.apply_commit_spec, r.warn_dirty_tree, r.continue_cycle),
{
    match p {
        ScriptPhase::GitCommitTriage => ScriptStep {
            next: LlmPhase::Work,
            commit_label: "triage",
            baseline: "work-baseline",
            baseline_label: "save-work-baseline",
            drain_objections: true,
            run_cascade: true,
            append_session_log: false,
            apply_commit_spec: false,
            warn_dirty_tree: false,
            continue_cycle: true,
        },
        ScriptPhase::GitCommitWork => ScriptStep {
            next: LlmPhase::AnalyseWork,
            commit_label: "work",
            baseline: "analyse-work-baseline",
            baseline_label: "save-analyse-work-baseline",
            drain_objections: false,
            run_cascade: false,
            append_session_log: false,
            apply_commit_spec: false,
            warn_dirty_tree: false,
            continue_cycle: true,
        },
        ScriptPhase::GitCommitAnalyseWork => ScriptStep {
            next: LlmPhase::Reflect,
            commit_label: "analyse-work",
            baseline: "reflect-baseline",
            baseline_label: "save-reflect-baseline",
            drain_objections: false,
            run_cascade: false,
            append_session_log: true,
            apply_commit_spec: true,
            warn_dirty_tree: true,
            continue_cycle: true,
        },
        ScriptPhase::GitCommitReflect => ScriptStep {
            next: LlmPhase::Triage,
            commit_label: "reflect",
            baseline: "triage-baseline",
            baseline_label: "save-triage-baseline",
            drain_objections: false,
            run_cascade: false,
            append_session_log: false,
            apply_commit_spec: false,
            warn_dirty_tree: false,
            continue_cycle: false,
        },
    }
}

/// The phase that follows each phase in the cycle: every agent phase hands
/// over to its commit phase, every commit phase to the next agent phase.
/// A migration phase is outside the cycle and is its own successor.
pub open spec fn successor(p: Phase) -> Phase {
    match p {
        Phase::Llm(LlmPhase::MigrateIntent) => p,
        Phase::Llm(LlmPhase::MigrateTargets) => p,
        Phase::Llm(LlmPhase::MigrateMemoryBackfill) => p,
        Phase::Llm(LlmPhase::Triage) => Phase::Script(ScriptPhase::GitCommitTriage),
        Phase::Llm(LlmPhase::Work) => Phase::Script(ScriptPhase::GitCommitWork),
        Phase::Llm(LlmPhase::AnalyseWork) => Phase::Script(ScriptPhase::GitCommitAnalyseWork),
        Phase::Llm(LlmPhase::Reflect) => Phase::Script(ScriptPhase::GitCommitReflect),
        Phase::Script(s) => Phase::Llm(script_step_spec(s).0),
    }
}

/// Eight steps of the cycle come back to where they started.
pub proof fn lemma_cycle_closes(p: Phase)
    ensures
        successor(successor(successor(successor(successor(successor(successor(successor(p)))))))) == p,
{
}

// ----- agent phases ---------------------------------------------------------------

/// What the loop does around an agent phase: seed `work-baseline` first
/// (a fresh plan that starts at work has none), run the agent
/// interactively (work) or headless (the others), and give analyse-work a
/// snapshot of the work tree and the backlog transitions since the
/// baseline.
#[derive(Debug, Clone, Copy)]
pub struct AgentRun {
    pub seed_work_baseline: bool,
    pub interactive: bool,
    pub snapshot_work_tree: bool,
}

/// The plan for running agent phase `lp`, given whether `work-baseline`
/// exists.
pub fn agent_run(lp: LlmPhase, work_baseline_exists: bool) -> (r: AgentRun)
    ensures
        r.seed_work_baseline == (lp == LlmPhase::Work && !work_baseline_exists),
        r.interactive == (lp == LlmPhase::Work),
        r.snapshot_work_tree == (lp == LlmPhase::AnalyseWork),
{
    AgentRun {
        seed_work_baseline: lp == LlmPhase::Work && !work_baseline_exists,
        interactive: lp == LlmPhase::Work,
        snapshot_work_tree: lp == LlmPhase::AnalyseWork,
    }
}

/// The work-tree text analyse-work is given: the snapshot against the
/// baseline commit, or a notice when the baseline is missing (blank).
pub fn work_tree_status_text(baseline_sha: &str, snapshot: Option<String>) -> (r: String)
    ensures
        trim(baseline_sha@).len() == 0 ==> r@ == "(work-baseline missing; no snapshot available)"@,
        trim(baseline_sha@).len() > 0 ==> match snapshot {
            Some(s) => r@ == s@,
            None => r@.len() == 0,
        },
{
    let t = trim_chars(chars_of(baseline_sha).as_slice());
    if t.len() == 0 {
        return owned("(work-baseline missing; no snapshot available)");
    }
    match snapshot {
        Some(s) => s,
        None => String::new(),
    }
}

/// The loop's next move once an agent phase returns.
#[derive(Debug)]
pub enum AfterAgent {
    /// `phase.md` names another phase: go on.
    Continue,
    /// The agent left `phase.md` where it was: stop, with this notice.
    Stop { notice: String },
}

/// Go on when the agent advanced `phase.md`; stop when it did not.
pub fn after_agent(before: Phase, after: Phase) -> (r: AfterAgent)
    ensures
        before != after <==> r is Continue,
        r matches AfterAgent::Stop { notice } ==> notice@ == "\n  ✗  Phase did not advance from "@ + phase_word(before)
            + ". Stopping."@,
{
    if before != after {
        return AfterAgent::Continue;
    }
    let w = before.as_str();
    AfterAgent::Stop { notice: concat3("\n  ✗  Phase did not advance from ", w, ". Stopping.") }
}

/// The log line for mount requests drained at a phase boundary; none
/// when nothing was mounted.
pub fn mount_notice(mounted: usize, scope: &str) -> (r: Option<String>)
    ensures
        mounted == 0 <==> r is None,
        r matches Some(t) ==> t@ == "\n  ⚙  MOUNT  ·  "@ + scope@ + "  ·  drained "@ + decimal(mounted as nat)
            + " request(s) from target-requests.yaml"@,
{
    if mounted == 0 {
        return None;
    }
    let n = decimal_string(mounted as u64);
    let mut t = concat3("\n  ⚙  MOUNT  ·  ", scope, "  ·  drained ");
    push_str(&mut t, n.as_str());
    push_str(&mut t, " request(s) from target-requests.yaml");
    Some(t)
}

// ----- labels -------------------------------------------------------------------

/// The last component of a path, or empty when it has none.
pub open spec fn base_name(p: Seq<char>) -> Seq<char> {
    match path_file_name(p) {
        Some(n) => n,
        None => seq![],
    }
}

/// The name of a plan: its directory's last component.
pub fn plan_name(plan_dir: &str) -> (r: String)
    ensures
        r@ == base_name(plan_dir@),
{
    match file_name_of(plan_dir) {
        Some(n) => n,
        None => String::new(),
    }
}

/// The project's directory name, which tells apart plans with the same
/// name in a banner.
pub fn project_name(project_dir: &str) -> (r: String)
    ensures
        r@ == base_name(project_dir@),
{
    match file_name_of(project_dir) {
        Some(n) => n,
        None => String::new(),
    }
}

/// `project / plan`, or the plan alone when the project is empty.
pub open spec fn scope_text(project: Seq<char>, plan: Seq<char>) -> Seq<char> {
    if project.len() == 0 {
        plan
    } else {
        project + " / "@ + plan
    }
}

/// The `project / plan` label of a banner.
pub fn header_scope(project: &str, plan: &str) -> (r: String)
    ensures
        r@ == scope_text(project@, plan@),
{
    let cp = chars_of(project);
    if cp.len() == 0 {
        owned(plan)
    } else {
        concat3(project, " / ", plan)
    }
}

// ----- porcelain lines ----------------------------------------------------------

/// The UTF-8 length of a character.
pub open spec fn utf8_len(c: char) -> nat {
    if (c as u32) < 0x80 {
        1
    } else if (c as u32) < 0x800 {
        2
    } else if (c as u32) < 0x10000 {
        3
    } else {
        4
    }
}

/// The UTF-8 length of a character sequence.
pub open spec fn utf8_size(s: Seq<char>) -> nat
    decreases s.len(),
{
    if s.len() == 0 {
        0
    } else {
        utf8_size(s.drop_last()) + utf8_len(s.last())
    }
}

/// `str::get(n..)`: the text after the first `n` bytes, when byte `n` is a
/// character boundary.
pub open spec fn after_bytes(s: Seq<char>, n: nat) -> Option<Seq<char>> {
    if exists|k: int| 0 <= k <= s.len() && utf8_size(#[trigger] s.take(k)) == n {
        Some(s.skip(choose|k: int| 0 <= k <= s.len() && utf8_size(#[trigger] s.take(k)) == n))
    } else {
        None
    }
}

/// The path of a `git status --porcelain` line: what follows the two
/// status characters and the space, trimmed; for a rename (`old -> new`)
/// the new name. `None` when the line is shorter than that.
pub open spec fn porcelain_path(line: Seq<char>) -> Option<Seq<char>> {
    match after_bytes(line, 3) {
        None => None,
        Some(rest) => if exists|i: int| occurs_at(rest, " -> "@, i) {
            let i = choose|i: int| occurs_at(rest, " -> "@, i) && forall|k: int| 0 <= k < i ==> !occurs_at(rest, " -> "@, k);
            Some(trim(rest.skip(i + 4)))
        } else {
            Some(trim(rest))
        },
    }
}

proof fn lemma_utf8_size_grows(s: Seq<char>, a: int, b: int)
    requires
        0 <= a < b <= s.len(),
    ensures
        utf8_size(s.take(a)) < utf8_size(s.take(b)),
    decreases b - a,
{
    assert(s.take(b).drop_last() =~= s.take(b - 1));
    if a < b - 1 {
        lemma_utf8_size_grows(s, a, b - 1);
    }
}

fn char_utf8_len(c: char) -> (r: usize)
    ensures
        r == utf8_len(c),
{
    let v = c as u32;
    if v < 0x80 {
        1
    } else if v < 0x800 {
        2
    } else if v < 0x10000 {
        3
    } else {
        4
    }
}

/// The path of a `git status --porcelain` line (see `porcelain_path`).
pub fn parse_porcelain_path(line: &str) -> (r: Option<String>)
    ensures
        opt_view(r) == porcelain_path(line@),
{
    let cs = chars_of(line);
    let mut k: usize = 0;
    let mut bytes: usize = 0;
    while k < cs.len() && bytes < 3
        invariant
            cs@ == line@,
            k <= cs@.len(),
            bytes == utf8_size(cs@.take(k as int)),
            bytes <= 6,
            forall|j: int| 0 <= j < k ==> utf8_size(#[trigger] cs@.take(j)) < 3,
        decreases cs.len() - k,
    {
        assert(cs@.take(k + 1).drop_last() =~= cs@.take(k as int));
        bytes = bytes + char_utf8_len(cs[k]);
        k += 1;
    }
    if bytes != 3 {
        proof {
            assert forall|j: int| 0 <= j <= cs@.len() implies utf8_size(#[trigger] cs@.take(j)) != 3 by {
                if j < k {
                } else if j > k {
                    lemma_utf8_size_grows(cs@, k as int, j);
                }
            }
        }
        return None;
    }
    proof {
        let w = choose|w: int| 0 <= w <= cs@.len() && utf8_size(#[trigger] cs@.take(w)) == 3;
        if w < k {
        } else if w > k {
            lemma_utf8_size_grows(cs@, k as int, w);
        }
        assert(w == k);
    }
    let rest = slice_chars(cs.as_slice(), k, cs.len());
    assert(rest@ =~= line@.skip(k as int));
    let arrow = chars_of(" -> ");
    match find_from(rest.as_slice(), arrow.as_slice(), 0) {
        Some(i) => {
            proof {
                reveal_strlit(" -> ");
                let c = choose|c: int| occurs_at(rest@, " -> "@, c) && forall|q: int| 0 <= q < c ==> !occurs_at(rest@, " -> "@, q);
                if c < i {
                } else if c > i {
                    assert(!occurs_at(rest@, " -> "@, i as int));
                }
            }
            let tail = slice_chars(rest.as_slice(), i + 4, rest.len());
            assert(tail@ =~= rest@.skip(i + 4));
            let t = trim_chars(tail.as_slice());
            Some(string_from_chars(t.as_slice()))
        },
        None => {
            let t = trim_chars(rest.as_slice());
            Some(string_from_chars(t.as_slice()))
        },
    }
}

// ----- the dirty-tree warning ---------------------------------------------------

/// How many dirty paths a warning lists before summarising the rest.
pub const DIRTY_PATH_DISPLAY_LIMIT: usize = 20;

/// A porcelain line is listed: always when nothing narrows the list, an
/// untracked (`??`) line always, a line whose path cannot be read always,
/// and otherwise when its path changed since the work baseline.
pub open spec fn listed(line: Seq<char>, touched: Option<Seq<Seq<char>>>) -> bool {
    match touched {
        None => true,
        Some(set) => seq_starts_with(line, "??"@) || match porcelain_path(line) {
            Some(p) => set.contains(p),
            None => true,
        },
    }
}

/// The lines of `dirty` that `listed` keeps, in order.
pub open spec fn listed_lines(dirty: Seq<Seq<char>>, touched: Option<Seq<Seq<char>>>) -> Seq<Seq<char>>
    decreases dirty.len(),
{
    if dirty.len() == 0 {
        seq![]
    } else {
        listed_lines(dirty.drop_last(), touched) + if listed(dirty.last(), touched) {
            seq![dirty.last()]
        } else {
            seq![]
        }
    }
}

fn contains_str(v: &Vec<String>, s: &str) -> (r: bool)
    ensures
        r == views(v@).contains(s@),
{
    let mut i: usize = 0;
    while i < v.len()
        invariant
            i <= v@.len(),
            forall|k: int| 0 <= k < i ==> views(v@)[k] != s@,
        decreases v.len() - i,
    {
        if str_eq(v[i].as_str(), s) {
            assert(views(v@)[i as int] == s@);
            return true;
        }
        i += 1;
    }
    false
}

/// The dirty porcelain lines worth a warning after the work commit, given
/// the paths changed since the work baseline when those are known.
pub fn dirty_lines_to_report(dirty: &Vec<String>, touched: &Option<Vec<String>>) -> (r: Vec<String>)
    ensures
        views(r@) == listed_lines(views(dirty@), match touched {
            Some(t) => Some(views(t@)),
            None => None,
        }),
{
    let ghost tv = match touched {
        Some(t) => Some(views(t@)),
        None => None,
    };
    let q = chars_of("??");
    let mut out: Vec<String> = Vec::new();
    let mut i: usize = 0;
    while i < dirty.len()
        invariant
            q@ == "??"@,
            tv == match touched {
                Some(t) => Some(views(t@)),
                None => None,
            },
            i <= dirty@.len(),
            views(out@) == listed_lines(views(dirty@).take(i as int), tv),
        decreases dirty.len() - i,
    {
        let ghost t = views(dirty@).take(i + 1);
        assert(t.drop_last() =~= views(dirty@).take(i as int));
        assert(t.last() == dirty@[i as int]@);
        let line = dirty[i].as_str();
        let keep = match touched {
            None => true,
            Some(set) => {
                let lc = chars_of(line);
                if starts_with(lc.as_slice(), q.as_slice()) {
                    true
                } else {
                    match parse_porcelain_path(line) {
                        Some(p) => contains_str(set, p.as_str()),
                        None => true,
                    }
                }
            },
        };
        if keep {
            let ghost before = views(out@);
            out.push(owned(line));
            assert(views(out@) =~= before.push(dirty@[i as int]@));
        }
        assert(views(out@) =~= listed_lines(t, tv));
        i += 1;
    }
    assert(views(dirty@).take(dirty@.len() as int) =~= views(dirty@));
    out
}

/// The warning printed for the listed lines: three header lines, the
/// first twenty lines indented, and a count of the rest.
pub open spec fn warning_lines(listed: Seq<Seq<char>>) -> Seq<Seq<char>> {
    let head = seq![
        "\n  ⚠  WARNING: uncommitted changes remain in the project tree"@,
        "     after the work commit. The work agent likely edited files"@,
        "     without committing them. Review and recover before continuing:"@,
    ];
    let shown = listed.take(if listed.len() < 20 { listed.len() as int } else { 20 }).map_values(
        |l: Seq<char>| "       "@ + l,
    );
    let more = if listed.len() > 20 {
        seq!["       ... and "@ + decimal((listed.len() - 20) as nat) + " more (run `git status` for the full list)"@]
    } else {
        seq![]
    };
    if listed.len() == 0 {
        seq![]
    } else {
        head + shown + more
    }
}

/// The lines of the dirty-tree warning; none when nothing is listed.
pub fn dirty_warning_lines(listed: &Vec<String>) -> (r: Vec<String>)
    ensures
        views(r@) == warning_lines(views(listed@)),
{
    let mut out: Vec<String> = Vec::new();
    if listed.len() == 0 {
        return out;
    }
    out.push(owned("\n  ⚠  WARNING: uncommitted changes remain in the project tree"));
    out.push(owned("     after the work commit. The work agent likely edited files"));
    out.push(owned("     without committing them. Review and recover before continuing:"));
    let ghost head = views(out@);
    let n = if listed.len() < DIRTY_PATH_DISPLAY_LIMIT { listed.len() } else { DIRTY_PATH_DISPLAY_LIMIT };
    let mut i: usize = 0;
    while i < n
        invariant
            n <= listed@.len(),
            n == (if listed@.len() < 20 { listed@.len() } else { 20 }),
            i <= n,
            views(out@) == head + views(listed@).take(i as int).map_values(|l: Seq<char>| "       "@ + l),
        decreases n - i,
    {
        let ghost before = views(out@);
        out.push(concat2("       ", listed[i].as_str()));
        proof {
            assert(views(out@) =~= before.push("       "@ + listed@[i as int]@));
            assert(views(listed@).take(i + 1).map_values(|l: Seq<char>| "       "@ + l) =~= views(listed@).take(
                i as int,
            ).map_values(|l: Seq<char>| "       "@ + l).push("       "@ + listed@[i as int]@));
        }
        i += 1;
    }
    if listed.len() > DIRTY_PATH_DISPLAY_LIMIT {
        let ghost before = views(out@);
        let count = decimal_string((listed.len() - DIRTY_PATH_DISPLAY_LIMIT) as u64);
        let mut line = concat2("       ... and ", count.as_str());
        push_str(&mut line, " more (run `git status` for the full list)");
        out.push(line);
        assert(views(out@) =~= before.push(line@));
    }
    assert(views(out@) =~= warning_lines(views(listed@)));
    out
}

} // verus!
