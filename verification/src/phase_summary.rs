//! The labelled-line summary of what the triage, reflect and dream
//! phases changed, computed from a structural diff of `backlog.yaml`
//! (triage) or `memory.yaml` (reflect, dream) between a baseline and the
//! current state. Only labels derivable from the diff itself are emitted.

use vstd::prelude::*;

use crate::lines::join_lines;
use crate::plan_kg::{justifications_same, opt_eq, opt_view, BacklogStatus, Justification};
use crate::state::backlog::schema::{BacklogEntry, BacklogFile};
use crate::state::memory::schema::{MemoryEntry, MemoryFile};
use crate::text::{chars_of, decimal, decimal_string, is_whitespace, is_ws, push_str, str_eq, owned};

verus! {

broadcast use vstd::string::group_string_axioms;

/// The phases with a summary.
#[derive(Debug, Clone, Copy, PartialEq, Eq, Structural)]
pub enum Phase {
    Triage,
    Reflect,
    Dream,
}

impl Phase {
    /// `triage`, `reflect` or `dream`.
    pub fn parse(input: &str) -> (r: Option<Phase>)
        ensures
            r == (if input@ == "triage"@ {
                Some(Phase::Triage)
            } else if input@ == "reflect"@ {
                Some(Phase::Reflect)
            } else if input@ == "dream"@ {
                Some(Phase::Dream)
            } else {
                None
            }),
    {
        if str_eq(input, "triage") {
            Some(Phase::Triage)
        } else if str_eq(input, "reflect") {
            Some(Phase::Reflect)
        } else if str_eq(input, "dream") {
            Some(Phase::Dream)
        } else {
            None
        }
    }
}

/// How the summary is rendered.
#[derive(Debug, Clone, Copy, PartialEq, Eq, Structural)]
pub enum RenderFormat {
    Text,
    Yaml,
}

impl RenderFormat {
    /// `text` or `yaml`.
    pub fn parse(input: &str) -> (r: Option<RenderFormat>)
        ensures
            r == (if input@ == "text"@ {
                Some(RenderFormat::Text)
            } else if input@ == "yaml"@ {
                Some(RenderFormat::Yaml)
            } else {
                None
            }),
    {
        if str_eq(input, "text") {
            Some(RenderFormat::Text)
        } else if str_eq(input, "yaml") {
            Some(RenderFormat::Yaml)
        } else {
            None
        }
    }
}

/// One labelled entry: its bracketed kind, its subject, and, for dream's
/// statistics, a second line.
#[derive(Debug)]
pub struct Label {
    pub kind: String,
    pub subject: String,
    pub continuation: Option<String>,
}

/// A label's content.
pub type LabelView = (Seq<char>, Seq<char>, Option<Seq<char>>);

/// A label's content: kind, subject and continuation.
pub open spec fn lv(l: Label) -> LabelView {
    (l.kind@, l.subject@, opt_view(l.continuation))
}

/// The contents of a list of labels.
pub open spec fn label_views(ls: Seq<Label>) -> Seq<LabelView> {
    ls.map_values(|l: Label| lv(l))
}

fn simple(kind: &str, subject: &String) -> (r: Label)
    ensures
        lv(r) == (kind@, subject@, None::<Seq<char>>),
{
    Label { kind: owned(kind), subject: owned(subject.as_str()), continuation: None }
}

fn push_label(out: &mut Vec<Label>, l: Label)
    ensures
        label_views(final(out)@) == label_views(old(out)@).push(lv(l)),
{
    let ghost before = out@;
    out.push(l);
    assert(label_views(out@) =~= label_views(before).push(lv(l)));
}

// ----- triage -----------------------------------------------------------------

/// Index of the last backlog item with id `id`, or -1.
pub open spec fn last_backlog(items: Seq<BacklogEntry>, id: Seq<char>) -> int
    decreases items.len(),
{
    if items.len() == 0 {
        -1
    } else if items.last().item.id@ == id {
        items.len() - 1
    } else {
        last_backlog(items.drop_last(), id)
    }
}

/// What the current item at `pos` contributes: 0 done, 1 new,
/// 2 reprioritised, 3 nothing.
pub open spec fn triage_class(baseline: Seq<BacklogEntry>, cur: BacklogEntry, pos: int) -> int {
    let k = last_backlog(baseline, cur.item.id@);
    if k < 0 {
        1
    } else if baseline[k].item.status != BacklogStatus::Done && cur.item.status == BacklogStatus::Done {
        0
    } else if k != pos {
        2
    } else {
        3
    }
}

/// The labels of one class over the first `n` current items, in order.
pub open spec fn triage_group(baseline: Seq<BacklogEntry>, current: Seq<BacklogEntry>, n: int, class: int, kind: Seq<char>) -> Seq<LabelView>
    decreases n,
{
    if n <= 0 || n > current.len() {
        seq![]
    } else {
        triage_group(baseline, current, n - 1, class, kind) + if triage_class(
            baseline,
            current[n - 1],
            n - 1,
        ) == class {
            seq![(kind, current[n - 1].item.claim@, None::<Seq<char>>)]
        } else {
            seq![]
        }
    }
}

/// `OBSOLETE` labels: baseline items whose id is missing from the current.
pub open spec fn obsolete_backlog(baseline: Seq<BacklogEntry>, current: Seq<BacklogEntry>, n: int) -> Seq<LabelView>
    decreases n,
{
    if n <= 0 || n > baseline.len() {
        seq![]
    } else {
        obsolete_backlog(baseline, current, n - 1) + if last_backlog(current, baseline[n - 1].item.id@)
            < 0 {
            seq![("OBSOLETE"@, baseline[n - 1].item.claim@, None::<Seq<char>>)]
        } else {
            seq![]
        }
    }
}

/// The triage summary: `DONE` for items that became done, `NEW` for ids
/// absent from the baseline, `REPRIORITISED` for items whose position
/// changed, then `OBSOLETE` for baseline ids now missing; each group in
/// file order. A baseline id that occurs twice is judged by its last
/// occurrence.
pub open spec fn triage_labels(baseline: Seq<BacklogEntry>, current: Seq<BacklogEntry>) -> Seq<LabelView> {
    let n = current.len() as int;
    triage_group(baseline, current, n, 0, "DONE"@) + triage_group(baseline, current, n, 1, "NEW"@)
        + triage_group(baseline, current, n, 2, "REPRIORITISED"@) + obsolete_backlog(
        baseline,
        current,
        baseline.len() as int,
    )
}

fn last_backlog_exec(items: &Vec<BacklogEntry>, id: &String) -> (r: Option<usize>)
    ensures
        match r {
            Some(k) => k as int == last_backlog(items@, id@),
            None => last_backlog(items@, id@) < 0,
        },
        last_backlog(items@, id@) < items@.len(),
{
    let mut j: usize = items.len();
    assert(items@.take(items@.len() as int) =~= items@);
    while j > 0
        invariant
            j <= items@.len(),
            last_backlog(items@, id@) == last_backlog(items@.take(j as int), id@),
        decreases j,
    {
        let ghost t = items@.take(j as int);
        assert(t.last() == items@[j - 1]);
        if items[j - 1].item.id == *id {
            return Some(j - 1);
        }
        assert(t.drop_last() =~= items@.take(j - 1));
        j -= 1;
    }
    None
}

proof fn lemma_last_backlog_bounds(items: Seq<BacklogEntry>, id: Seq<char>)
    ensures
        -1 <= last_backlog(items, id) < items.len(),
        last_backlog(items, id) >= 0 ==> items[last_backlog(items, id)].item.id@ == id,
    decreases items.len(),
{
    if items.len() > 0 && items.last().item.id@ != id {
        lemma_last_backlog_bounds(items.drop_last(), id);
    }
}

/// The triage labels of a backlog diff.
pub fn compute_triage_labels(baseline: &BacklogFile, current: &BacklogFile) -> (r: Vec<Label>)
    ensures
        label_views(r@) == triage_labels(baseline.items@, current.items@),
{
    let ghost b = baseline.items@;
    let ghost c = current.items@;
    let mut done: Vec<Label> = Vec::new();
    let mut fresh: Vec<Label> = Vec::new();
    let mut moved: Vec<Label> = Vec::new();
    let mut pos: usize = 0;
    while pos < current.items.len()
        invariant
            b == baseline.items@,
            c == current.items@,
            pos <= c.len(),
            label_views(done@) == triage_group(b, c, pos as int, 0, "DONE"@),
            label_views(fresh@) == triage_group(b, c, pos as int, 1, "NEW"@),
            label_views(moved@) == triage_group(b, c, pos as int, 2, "REPRIORITISED"@),
        decreases c.len() - pos,
    {
        let entry = &current.items[pos];
        proof {
            lemma_last_backlog_bounds(b, entry.item.id@);
        }
        let ghost d0 = label_views(done@);
        let ghost f0 = label_views(fresh@);
        let ghost m0 = label_views(moved@);
        match last_backlog_exec(&baseline.items, &entry.item.id) {
            Some(k) => {
                let prev = &baseline.items[k];
                let was_done = match prev.item.status {
                    BacklogStatus::Done => true,
                    _ => false,
                };
                let is_done = match entry.item.status {
                    BacklogStatus::Done => true,
                    _ => false,
                };
                if !was_done && is_done {
                    push_label(&mut done, simple("DONE", &entry.item.claim));
                } else if k != pos {
                    push_label(&mut moved, simple("REPRIORITISED", &entry.item.claim));
                }
            },
            None => {
                push_label(&mut fresh, simple("NEW", &entry.item.claim));
            },
        }
        proof {
            let cls = triage_class(b, c[pos as int], pos as int);
            assert(label_views(done@) == d0 + if cls == 0 {
                seq![("DONE"@, c[pos as int].item.claim@, None::<Seq<char>>)]
            } else {
                seq![]
            });
            assert(label_views(fresh@) == f0 + if cls == 1 {
                seq![("NEW"@, c[pos as int].item.claim@, None::<Seq<char>>)]
            } else {
                seq![]
            });
            assert(label_views(moved@) == m0 + if cls == 2 {
                seq![("REPRIORITISED"@, c[pos as int].item.claim@, None::<Seq<char>>)]
            } else {
                seq![]
            });
        }
        pos += 1;
    }
    let mut obsolete: Vec<Label> = Vec::new();
    let mut k: usize = 0;
    while k < baseline.items.len()
        invariant
            b == baseline.items@,
            c == current.items@,
            k <= b.len(),
            label_views(obsolete@) == obsolete_backlog(b, c, k as int),
        decreases b.len() - k,
    {
        let ghost o0 = label_views(obsolete@);
        if last_backlog_exec(&current.items, &baseline.items[k].item.id).is_none() {
            push_label(&mut obsolete, simple("OBSOLETE", &baseline.items[k].item.claim));
        } else {
            assert(o0 + seq![] =~= o0);
        }
        k += 1;
    }
    let mut out = done;
    append_labels(&mut out, fresh);
    append_labels(&mut out, moved);
    append_labels(&mut out, obsolete);
    out
}

fn append_labels(out: &mut Vec<Label>, more: Vec<Label>)
    ensures
        label_views(final(out)@) == label_views(old(out)@) + label_views(more@),
{
    let mut more = more;
    let ghost m = label_views(more@);
    let ghost base = label_views(out@);
    let mut rest: Vec<Label> = Vec::new();
    while more.len() > 0
        invariant
            label_views(rest@) + label_views(more@).reverse() == m.reverse(),
        decreases more.len(),
    {
        let ghost mv = label_views(more@);
        let l = more.pop().unwrap();
        let ghost rv = label_views(rest@);
        rest.push(l);
        assert(label_views(rest@) =~= rv.push(lv(l)));
        assert(mv =~= label_views(more@).push(lv(l)));
        assert(mv.reverse() =~= seq![lv(l)] + label_views(more@).reverse());
    }
    assert(label_views(more@).reverse() =~= Seq::<LabelView>::empty());
    assert(label_views(rest@) =~= m.reverse());
    while rest.len() > 0
        invariant
            label_views(out@) + label_views(rest@).reverse() == base + m,
        decreases rest.len(),
    {
        let ghost rv = label_views(rest@);
        let l = rest.pop().unwrap();
        let ghost ov = label_views(out@);
        out.push(l);
        assert(label_views(out@) =~= ov.push(lv(l)));
        assert(rv =~= label_views(rest@).push(lv(l)));
        assert(rv.reverse() =~= seq![lv(l)] + label_views(rest@).reverse());
        assert(ov + rv.reverse() =~= label_views(out@) + label_views(rest@).reverse());
    }
    assert(label_views(rest@).reverse() =~= Seq::<LabelView>::empty());
    assert(label_views(out@) + Seq::<LabelView>::empty() =~= label_views(out@));
    proof {
        assert(m.reverse().reverse() =~= m);
    }
}

// ----- reflect and dream ----------------------------------------------------------

/// Index of the last memory entry with id `id`, or -1.
pub open spec fn last_memory(items: Seq<MemoryEntry>, id: Seq<char>) -> int
    decreases items.len(),
{
    if items.len() == 0 {
        -1
    } else if items.last().item.id@ == id {
        items.len() - 1
    } else {
        last_memory(items.drop_last(), id)
    }
}

proof fn lemma_last_memory_bounds(items: Seq<MemoryEntry>, id: Seq<char>)
    ensures
        -1 <= last_memory(items, id) < items.len(),
    decreases items.len(),
{
    if items.len() > 0 && items.last().item.id@ != id {
        lemma_last_memory_bounds(items.drop_last(), id);
    }
}

fn last_memory_exec(items: &Vec<MemoryEntry>, id: &String) -> (r: Option<usize>)
    ensures
        match r {
            Some(k) => k as int == last_memory(items@, id@),
            None => last_memory(items@, id@) < 0,
        },
{
    let mut j: usize = items.len();
    assert(items@.take(items@.len() as int) =~= items@);
    while j > 0
        invariant
            j <= items@.len(),
            last_memory(items@, id@) == last_memory(items@.take(j as int), id@),
        decreases j,
    {
        let ghost t = items@.take(j as int);
        assert(t.last() == items@[j - 1]);
        if items[j - 1].item.id == *id {
            return Some(j - 1);
        }
        assert(t.drop_last() =~= items@.take(j - 1));
        j -= 1;
    }
    None
}

/// The entry's claim, justifications, status or attribution changed.
pub open spec fn drifted(prev: MemoryEntry, cur: MemoryEntry) -> bool {
    ||| prev.item.claim@ != cur.item.claim@
    ||| prev.item.justifications@.map_values(|j: Justification| j@) != cur.item.justifications@.map_values(
        |j: Justification| j@,
    )
    ||| prev.item.status != cur.item.status
    ||| opt_view(prev.attribution) != opt_view(cur.attribution)
}

/// What the current entry contributes: 1 new, 2 stale, 3 nothing.
pub open spec fn reflect_class(baseline: Seq<MemoryEntry>, cur: MemoryEntry) -> int {
    let k = last_memory(baseline, cur.item.id@);
    if k < 0 {
        1
    } else if drifted(baseline[k], cur) {
        2
    } else {
        3
    }
}

/// The labels `kind` of the first `n` current entries whose reflect class
/// is `class`, in order.
pub open spec fn reflect_group(baseline: Seq<MemoryEntry>, current: Seq<MemoryEntry>, n: int, class: int, kind: Seq<char>) -> Seq<LabelView>
    decreases n,
{
    if n <= 0 || n > current.len() {
        seq![]
    } else {
        reflect_group(baseline, current, n - 1, class, kind) + if reflect_class(baseline, current[n - 1])
            == class {
            seq![(kind, current[n - 1].item.claim@, None::<Seq<char>>)]
        } else {
            seq![]
        }
    }
}

/// `OBSOLETE` labels for the first `n` baseline entries whose id the
/// current memory no longer has.
pub open spec fn obsolete_memory(baseline: Seq<MemoryEntry>, current: Seq<MemoryEntry>, n: int) -> Seq<LabelView>
    decreases n,
{
    if n <= 0 || n > baseline.len() {
        seq![]
    } else {
        obsolete_memory(baseline, current, n - 1) + if last_memory(current, baseline[n - 1].item.id@) < 0 {
            seq![("OBSOLETE"@, baseline[n - 1].item.claim@, None::<Seq<char>>)]
        } else {
            seq![]
        }
    }
}

/// The reflect summary: `NEW` for ids absent from the baseline, `STALE`
/// for entries that drifted, then `OBSOLETE` for baseline ids now missing.
pub open spec fn reflect_labels(baseline: Seq<MemoryEntry>, current: Seq<MemoryEntry>) -> Seq<LabelView> {
    let n = current.len() as int;
    reflect_group(baseline, current, n, 1, "NEW"@) + reflect_group(baseline, current, n, 2, "STALE"@)
        + obsolete_memory(baseline, current, baseline.len() as int)
}

fn drifted_exec(prev: &MemoryEntry, cur: &MemoryEntry) -> (r: bool)
    ensures
        r == drifted(*prev, *cur),
{
    !str_eq(prev.item.claim.as_str(), cur.item.claim.as_str()) || !justifications_same(
        &prev.item.justifications,
        &cur.item.justifications,
    ) || prev.item.status != cur.item.status || !opt_eq(&prev.attribution, &cur.attribution)
}

/// The reflect labels of a memory diff.
pub fn compute_reflect_labels(baseline: &MemoryFile, current: &MemoryFile) -> (r: Vec<Label>)
    ensures
        label_views(r@) == reflect_labels(baseline.items@, current.items@),
{
    let ghost b = baseline.items@;
    let ghost c = current.items@;
    let mut fresh: Vec<Label> = Vec::new();
    let mut stale: Vec<Label> = Vec::new();
    let mut pos: usize = 0;
    while pos < current.items.len()
        invariant
            b == baseline.items@,
            c == current.items@,
            pos <= c.len(),
            label_views(fresh@) == reflect_group(b, c, pos as int, 1, "NEW"@),
            label_views(stale@) == reflect_group(b, c, pos as int, 2, "STALE"@),
        decreases c.len() - pos,
    {
        let entry = &current.items[pos];
        proof {
            lemma_last_memory_bounds(b, entry.item.id@);
        }
        let ghost f0 = label_views(fresh@);
        let ghost s0 = label_views(stale@);
        match last_memory_exec(&baseline.items, &entry.item.id) {
            Some(k) => {
                if drifted_exec(&baseline.items[k], entry) {
                    push_label(&mut stale, simple("STALE", &entry.item.claim));
                }
            },
            None => {
                push_label(&mut fresh, simple("NEW", &entry.item.claim));
            },
        }
        proof {
            let cls = reflect_class(b, c[pos as int]);
            assert(label_views(fresh@) == f0 + if cls == 1 {
                seq![("NEW"@, c[pos as int].item.claim@, None::<Seq<char>>)]
            } else {
                seq![]
            });
            assert(label_views(stale@) == s0 + if cls == 2 {
                seq![("STALE"@, c[pos as int].item.claim@, None::<Seq<char>>)]
            } else {
                seq![]
            });
        }
        pos += 1;
    }
    let mut obsolete: Vec<Label> = Vec::new();
    let mut k: usize = 0;
    while k < baseline.items.len()
        invariant
            b == baseline.items@,
            c == current.items@,
            k <= b.len(),
            label_views(obsolete@) == obsolete_memory(b, c, k as int),
        decreases b.len() - k,
    {
        let ghost o0 = label_views(obsolete@);
        if last_memory_exec(&current.items, &baseline.items[k].item.id).is_none() {
            push_label(&mut obsolete, simple("OBSOLETE", &baseline.items[k].item.claim));
        } else {
            assert(o0 + seq![] =~= o0);
        }
        k += 1;
    }
    let mut out = fresh;
    append_labels(&mut out, stale);
    append_labels(&mut out, obsolete);
    out
}

/// Number of whitespace-separated words (`str::split_whitespace`).
pub open spec fn words(s: Seq<char>) -> nat
    decreases s.len(),
{
    if s.len() == 0 {
        0
    } else {
        words(s.drop_last()) + if !is_ws(s.last()) && (s.len() == 1 || is_ws(s[s.len() - 2])) {
            1nat
        } else {
            0nat
        }
    }
}

proof fn lemma_words_le_len(s: Seq<char>)
    ensures
        words(s) <= s.len(),
    decreases s.len(),
{
    if s.len() > 0 {
        lemma_words_le_len(s.drop_last());
    }
}

/// The number of words of `text`.
pub fn word_count(text: &str) -> (r: usize)
    ensures
        r == words(text@),
{
    let cs = chars_of(text);
    let mut n: usize = 0;
    let mut i: usize = 0;
    while i < cs.len()
        invariant
            cs@ == text@,
            i <= cs@.len(),
            n == words(cs@.take(i as int)),
        decreases cs.len() - i,
    {
        let ghost t = cs@.take(i + 1);
        assert(t.drop_last() =~= cs@.take(i as int));
        proof {
            lemma_words_le_len(cs@.take(i as int));
        }
        if !is_whitespace(cs[i]) && (i == 0 || is_whitespace(cs[i - 1])) {
            n += 1;
        }
        i += 1;
    }
    assert(cs@.take(cs@.len() as int) =~= cs@);
    n
}

/// Words a justification contributes: a rationale's text or an external
/// reference's uri; the other shapes none.
pub open spec fn justification_words(j: Justification) -> nat {
    match j {
        Justification::Rationale { text } => words(text@),
        Justification::External { uri } => words(uri@),
        _ => 0,
    }
}

/// The words of the prose justifications (rationales and external
/// references); the others count none.
pub open spec fn justifications_words(js: Seq<Justification>) -> nat
    decreases js.len(),
{
    if js.len() == 0 {
        0
    } else {
        justifications_words(js.drop_last()) + justification_words(js.last())
    }
}

/// The word count of a memory: every entry's claim and justification
/// prose.
pub open spec fn memory_words(items: Seq<MemoryEntry>) -> nat
    decreases items.len(),
{
    if items.len() == 0 {
        0
    } else {
        memory_words(items.drop_last()) + words(items.last().item.claim@) + justifications_words(
            items.last().item.justifications@,
        )
    }
}

proof fn lemma_memory_words_prefix(items: Seq<MemoryEntry>, k: int)
    requires
        0 <= k <= items.len(),
    ensures
        memory_words(items.take(k)) <= memory_words(items),
    decreases items.len() - k,
{
    if k < items.len() {
        lemma_memory_words_prefix(items.drop_last(), k);
        assert(items.drop_last().take(k) =~= items.take(k));
    } else {
        assert(items.take(k) =~= items);
    }
}

proof fn lemma_js_words_prefix(js: Seq<Justification>, k: int)
    requires
        0 <= k <= js.len(),
    ensures
        justifications_words(js.take(k)) <= justifications_words(js),
    decreases js.len() - k,
{
    if k < js.len() {
        lemma_js_words_prefix(js.drop_last(), k);
        assert(js.drop_last().take(k) =~= js.take(k));
    } else {
        assert(js.take(k) =~= js);
    }
}

fn memory_word_count(memory: &MemoryFile) -> (r: usize)
    requires
        memory_words(memory.items@) <= usize::MAX,
    ensures
        r == memory_words(memory.items@),
{
    let ghost items = memory.items@;
    let mut total: usize = 0;
    let mut i: usize = 0;
    while i < memory.items.len()
        invariant
            items == memory.items@,
            memory_words(items) <= usize::MAX,
            i <= items.len(),
            total == memory_words(items.take(i as int)),
        decreases items.len() - i,
    {
        let e = &memory.items[i];
        proof {
            assert(items.take(i + 1).drop_last() =~= items.take(i as int));
            lemma_memory_words_prefix(items, i + 1);
        }
        let mut sub: usize = word_count(e.item.claim.as_str());
        let ghost js = e.item.justifications@;
        let mut k: usize = 0;
        while k < e.item.justifications.len()
            invariant
                js == e.item.justifications@,
                k <= js.len(),
                total + sub <= usize::MAX,
                total + words(e.item.claim@) + justifications_words(js) <= usize::MAX,
                sub == words(e.item.claim@) + justifications_words(js.take(k as int)),
            decreases js.len() - k,
        {
            proof {
                assert(js.take(k + 1).drop_last() =~= js.take(k as int));
                lemma_js_words_prefix(js, k + 1);
            }
            let w = match &e.item.justifications[k] {
                Justification::Rationale { text } => word_count(text.as_str()),
                Justification::External { uri } => word_count(uri.as_str()),
                _ => 0,
            };
            sub = sub + w;
            k += 1;
        }
        assert(js.take(js.len() as int) =~= js);
        total = total + sub;
        i += 1;
    }
    assert(items.take(items.len() as int) =~= items);
    total
}

/// The number of words the memory holds, or `None` when it does not fit
/// a `usize` (the dream summary is only computed for memories whose
/// count fits).
pub fn memory_word_total(memory: &MemoryFile) -> (r: Option<usize>)
    ensures
        r == (if memory_words(memory.items@) <= usize::MAX {
            Some(memory_words(memory.items@) as usize)
        } else {
            None::<usize>
        }),
{
    let ghost items = memory.items@;
    let mut total: usize = 0;
    let mut i: usize = 0;
    while i < memory.items.len()
        invariant
            items == memory.items@,
            i <= items.len(),
            total == memory_words(items.take(i as int)),
        decreases items.len() - i,
    {
        let e = &memory.items[i];
        proof {
            assert(items.take(i + 1).drop_last() =~= items.take(i as int));
            lemma_memory_words_prefix(items, i + 1);
        }
        let ghost js = e.item.justifications@;
        let mut sub: usize = word_count(e.item.claim.as_str());
        let mut k: usize = 0;
        while k < e.item.justifications.len()
            invariant
                js == e.item.justifications@,
                items == memory.items@,
                i < items.len(),
                e == items[i as int],
                k <= js.len(),
                total == memory_words(items.take(i as int)),
                memory_words(items.take(i + 1)) <= memory_words(items),
                sub == words(e.item.claim@) + justifications_words(js.take(k as int)),
            decreases js.len() - k,
        {
            proof {
                assert(js.take(k + 1).drop_last() =~= js.take(k as int));
                lemma_js_words_prefix(js, k + 1);
            }
            let w = match &e.item.justifications[k] {
                Justification::Rationale { text } => word_count(text.as_str()),
                Justification::External { uri } => word_count(uri.as_str()),
                _ => 0,
            };
            match sub.checked_add(w) {
                Some(v) => sub = v,
                None => {
                    proof {
                        lemma_js_words_prefix(js, k + 1);
                    }
                    return None;
                },
            }
            k += 1;
        }
        assert(js.take(js.len() as int) =~= js);
        match total.checked_add(sub) {
            Some(v) => total = v,
            None => return None,
        }
        i += 1;
    }
    assert(items.take(items.len() as int) =~= items);
    Some(total)
}

/// The dream summary: the reflect labels, then a `STATS` label with the
/// word counts before and after.
pub open spec fn dream_labels(baseline: Seq<MemoryEntry>, current: Seq<MemoryEntry>) -> Seq<LabelView> {
    reflect_labels(baseline, current).push(
        ("STATS"@, decimal(memory_words(baseline)), Some(decimal(memory_words(current)))),
    )
}

/// The dream labels of a memory diff.
pub fn compute_dream_labels(baseline: &MemoryFile, current: &MemoryFile) -> (r: Vec<Label>)
    requires
        memory_words(baseline.items@) <= usize::MAX,
        memory_words(current.items@) <= usize::MAX,
    ensures
        label_views(r@) == dream_labels(baseline.items@, current.items@),
{
    let mut labels = compute_reflect_labels(baseline, current);
    let before = memory_word_count(baseline);
    let after = memory_word_count(current);
    let stats = Label {
        kind: owned("STATS"),
        subject: decimal_string(before as u64),
        continuation: Some(decimal_string(after as u64)),
    };
    push_label(&mut labels, stats);
    labels
}

/// The labels of one phase: triage diffs the backlog, reflect and dream
/// the memory.
pub fn compute_labels(
    phase: Phase,
    baseline_backlog: &BacklogFile,
    current_backlog: &BacklogFile,
    baseline_memory: &MemoryFile,
    current_memory: &MemoryFile,
) -> (r: Vec<Label>)
    requires
        phase == Phase::Dream ==> memory_words(baseline_memory.items@) <= usize::MAX && memory_words(
            current_memory.items@,
        ) <= usize::MAX,
    ensures
        label_views(r@) == match phase {
            Phase::Triage => triage_labels(baseline_backlog.items@, current_backlog.items@),
            Phase::Reflect => reflect_labels(baseline_memory.items@, current_memory.items@),
            Phase::Dream => dream_labels(baseline_memory.items@, current_memory.items@),
        },
{
    match phase {
        Phase::Triage => compute_triage_labels(baseline_backlog, current_backlog),
        Phase::Reflect => compute_reflect_labels(baseline_memory, current_memory),
        Phase::Dream => compute_dream_labels(baseline_memory, current_memory),
    }
}

/// The text rendering of one label: `[KIND] subject`, and for a second
/// line `       → continuation`.
pub open spec fn label_text(l: LabelView) -> Seq<char> {
    seq!['['] + l.0 + "] "@ + l.1 + seq!['\n'] + match l.2 {
        Some(c) => "       → "@ + c + seq!['\n'],
        None => seq![],
    }
}

/// The text rendering of a list of labels.
pub open spec fn labels_text(ls: Seq<LabelView>) -> Seq<char>
    decreases ls.len(),
{
    if ls.len() == 0 {
        seq![]
    } else {
        labels_text(ls.drop_last()) + label_text(ls.last())
    }
}

/// The summary as text, one line per label (two for a label with a
/// continuation).
pub fn format_labels_text(labels: &Vec<Label>) -> (r: String)
    ensures
        r@ == labels_text(label_views(labels@)),
{
    let mut out = String::new();
    let mut i: usize = 0;
    proof {
        reveal_strlit("[");
        reveal_strlit("\n");
    }
    assert("["@ =~= seq!['[']);
    assert("\n"@ =~= seq!['\n']);
    while i < labels.len()
        invariant
            i <= labels@.len(),
            "["@ == seq!['['],
            "\n"@ == seq!['\n'],
            out@ == labels_text(label_views(labels@.take(i as int))),
        decreases labels.len() - i,
    {
        let l = &labels[i];
        let ghost before = out@;
        push_str(&mut out, "[");
        push_str(&mut out, l.kind.as_str());
        push_str(&mut out, "] ");
        push_str(&mut out, l.subject.as_str());
        push_str(&mut out, "\n");
        match &l.continuation {
            Some(c) => {
                push_str(&mut out, "       → ");
                push_str(&mut out, c.as_str());
                push_str(&mut out, "\n");
            },
            None => {},
        }
        proof {
            let lvs = label_views(labels@.take(i + 1));
            assert(lvs.drop_last() =~= label_views(labels@.take(i as int)));
            assert(lvs.last() == lv(labels@[i as int]));
            assert(out@ =~= before + label_text(lv(labels@[i as int])));
        }
        i += 1;
    }
    assert(labels@.take(labels@.len() as int) =~= labels@);
    out
}


// ----- what the reflect and dream summaries report ---------------------------------

proof fn lemma_last_memory_is(items: Seq<MemoryEntry>, id: Seq<char>, k: int)
    requires
        0 <= k < items.len(),
        items[k].item.id@ == id,
        forall|k2: int| k < k2 < items.len() ==> (#[trigger] items[k2]).item.id@ != id,
    ensures
        last_memory(items, id) == k,
    decreases items.len(),
{
    if k < items.len() - 1 {
        assert(items.last() == items[items.len() - 1]);
        assert forall|k2: int| k < k2 < items.drop_last().len() implies (#[trigger] items.drop_last()[k2]).item.id@
            != id by {
            assert(items.drop_last()[k2] == items[k2]);
        }
        lemma_last_memory_is(items.drop_last(), id, k);
    }
}

proof fn lemma_last_memory_absent(items: Seq<MemoryEntry>, id: Seq<char>)
    requires
        forall|k: int| 0 <= k < items.len() ==> (#[trigger] items[k]).item.id@ != id,
    ensures
        last_memory(items, id) < 0,
    decreases items.len(),
{
    if items.len() > 0 {
        assert(items.last() == items[items.len() - 1]);
        assert forall|k: int| 0 <= k < items.drop_last().len() implies (#[trigger] items.drop_last()[k]).item.id@ != id by {
            assert(items.drop_last()[k] == items[k]);
        }
        lemma_last_memory_absent(items.drop_last(), id);
    }
}

proof fn lemma_group_has(b: Seq<MemoryEntry>, c: Seq<MemoryEntry>, n: int, class: int, kind: Seq<char>, i: int)
    requires
        0 <= i < n <= c.len(),
        reflect_class(b, c[i]) == class,
    ensures
        reflect_group(b, c, n, class, kind).contains((kind, c[i].item.claim@, None::<Seq<char>>)),
    decreases n,
{
    let g = reflect_group(b, c, n - 1, class, kind);
    let tail = if reflect_class(b, c[n - 1]) == class {
        seq![(kind, c[n - 1].item.claim@, None::<Seq<char>>)]
    } else {
        seq![]
    };
    assert(reflect_group(b, c, n, class, kind) == g + tail);
    if i < n - 1 {
        lemma_group_has(b, c, n - 1, class, kind, i);
        let w = choose|w: int| 0 <= w < g.len() && g[w] == (kind, c[i].item.claim@, None::<Seq<char>>);
        assert((g + tail)[w] == g[w]);
    } else {
        assert((g + tail)[g.len() as int] == tail[0]);
    }
}

/// The reflect (and dream) summary marks every current memory entry that
/// changed since the baseline as `STALE`: one whose id the baseline has
/// (`k` the last baseline entry with it) and whose claim,
/// justifications, status or attribution differ from that entry's, the
/// status alone included.
pub proof fn lemma_changed_entries_are_stale(b: Seq<MemoryEntry>, c: Seq<MemoryEntry>, i: int, k: int)
    requires
        0 <= i < c.len(),
        0 <= k < b.len(),
        b[k].item.id@ == c[i].item.id@,
        forall|k2: int| k < k2 < b.len() ==> (#[trigger] b[k2]).item.id@ != c[i].item.id@,
        ({
            ||| b[k].item.claim@ != c[i].item.claim@
            ||| b[k].item.justifications@.map_values(|j: Justification| j@) != c[i].item.justifications@.map_values(
                |j: Justification| j@,
            )
            ||| b[k].item.status != c[i].item.status
            ||| opt_view(b[k].attribution) != opt_view(c[i].attribution)
        }),
    ensures
        reflect_labels(b, c).contains(("STALE"@, c[i].item.claim@, None::<Seq<char>>)),
        dream_labels(b, c).contains(("STALE"@, c[i].item.claim@, None::<Seq<char>>)),
{
    lemma_last_memory_is(b, c[i].item.id@, k);
    let n = c.len() as int;
    lemma_group_has(b, c, n, 2, "STALE"@, i);
    let g1 = reflect_group(b, c, n, 1, "NEW"@);
    let g2 = reflect_group(b, c, n, 2, "STALE"@);
    let o = obsolete_memory(b, c, b.len() as int);
    let w = choose|w: int| 0 <= w < g2.len() && g2[w] == ("STALE"@, c[i].item.claim@, None::<Seq<char>>);
    assert((g1 + g2 + o)[g1.len() + w] == g2[w]);
    assert(reflect_labels(b, c) == g1 + g2 + o);
    let r = reflect_labels(b, c);
    assert(dream_labels(b, c)[g1.len() + w] == r[g1.len() + w]);
}

/// The reflect (and dream) summary marks every current memory entry whose
/// id the baseline lacks as `NEW`.
pub proof fn lemma_added_entries_are_new(b: Seq<MemoryEntry>, c: Seq<MemoryEntry>, i: int)
    requires
        0 <= i < c.len(),
        forall|k: int| 0 <= k < b.len() ==> (#[trigger] b[k]).item.id@ != c[i].item.id@,
    ensures
        reflect_labels(b, c).contains(("NEW"@, c[i].item.claim@, None::<Seq<char>>)),
        dream_labels(b, c).contains(("NEW"@, c[i].item.claim@, None::<Seq<char>>)),
{
    lemma_last_memory_absent(b, c[i].item.id@);
    let n = c.len() as int;
    lemma_group_has(b, c, n, 1, "NEW"@, i);
    let g1 = reflect_group(b, c, n, 1, "NEW"@);
    let g2 = reflect_group(b, c, n, 2, "STALE"@);
    let o = obsolete_memory(b, c, b.len() as int);
    let w = choose|w: int| 0 <= w < g1.len() && g1[w] == ("NEW"@, c[i].item.claim@, None::<Seq<char>>);
    assert((g1 + g2 + o)[w] == g1[w]);
    let r = reflect_labels(b, c);
    assert(dream_labels(b, c)[w] == r[w]);
}


// ----- what the triage summary reports ---------------------------------------------

proof fn lemma_concat_contains<A>(a: Seq<A>, b: Seq<A>, x: A)
    ensures
        (a.contains(x) || b.contains(x)) ==> (a + b).contains(x),
{
    if a.contains(x) {
        let w = choose|w: int| 0 <= w < a.len() && a[w] == x;
        assert((a + b)[w] == a[w]);
    } else if b.contains(x) {
        let w = choose|w: int| 0 <= w < b.len() && b[w] == x;
        assert((a + b)[a.len() + w] == b[w]);
    }
}

proof fn lemma_last_backlog_is(items: Seq<BacklogEntry>, id: Seq<char>, k: int)
    requires
        0 <= k < items.len(),
        items[k].item.id@ == id,
        forall|k2: int| k < k2 < items.len() ==> (#[trigger] items[k2]).item.id@ != id,
    ensures
        last_backlog(items, id) == k,
    decreases items.len(),
{
    if k < items.len() - 1 {
        assert(items.last() == items[items.len() - 1]);
        assert forall|k2: int| k < k2 < items.drop_last().len() implies (#[trigger] items.drop_last()[k2]).item.id@
            != id by {
            assert(items.drop_last()[k2] == items[k2]);
        }
        lemma_last_backlog_is(items.drop_last(), id, k);
    }
}

proof fn lemma_last_backlog_absent(items: Seq<BacklogEntry>, id: Seq<char>)
    requires
        forall|k: int| 0 <= k < items.len() ==> (#[trigger] items[k]).item.id@ != id,
    ensures
        last_backlog(items, id) < 0,
    decreases items.len(),
{
    if items.len() > 0 {
        assert(items.last() == items[items.len() - 1]);
        assert forall|k: int| 0 <= k < items.drop_last().len() implies (#[trigger] items.drop_last()[k]).item.id@ != id by {
            assert(items.drop_last()[k] == items[k]);
        }
        lemma_last_backlog_absent(items.drop_last(), id);
    }
}

proof fn lemma_triage_group_has(b: Seq<BacklogEntry>, c: Seq<BacklogEntry>, n: int, class: int, kind: Seq<char>, i: int)
    requires
        0 <= i < n <= c.len(),
        triage_class(b, c[i], i) == class,
    ensures
        triage_group(b, c, n, class, kind).contains((kind, c[i].item.claim@, None::<Seq<char>>)),
    decreases n,
{
    let g = triage_group(b, c, n - 1, class, kind);
    let tail = if triage_class(b, c[n - 1], n - 1) == class {
        seq![(kind, c[n - 1].item.claim@, None::<Seq<char>>)]
    } else {
        seq![]
    };
    assert(triage_group(b, c, n, class, kind) == g + tail);
    if i < n - 1 {
        lemma_triage_group_has(b, c, n - 1, class, kind, i);
    } else {
        assert(tail[0] == (kind, c[i].item.claim@, None::<Seq<char>>));
    }
    lemma_concat_contains(g, tail, (kind, c[i].item.claim@, None::<Seq<char>>));
}

proof fn lemma_obsolete_backlog_has(b: Seq<BacklogEntry>, c: Seq<BacklogEntry>, n: int, k: int)
    requires
        0 <= k < n <= b.len(),
        last_backlog(c, b[k].item.id@) < 0,
    ensures
        obsolete_backlog(b, c, n).contains(("OBSOLETE"@, b[k].item.claim@, None::<Seq<char>>)),
    decreases n,
{
    let g = obsolete_backlog(b, c, n - 1);
    let tail = if last_backlog(c, b[n - 1].item.id@) < 0 {
        seq![("OBSOLETE"@, b[n - 1].item.claim@, None::<Seq<char>>)]
    } else {
        seq![]
    };
    assert(obsolete_backlog(b, c, n) == g + tail);
    if k < n - 1 {
        lemma_obsolete_backlog_has(b, c, n - 1, k);
    } else {
        assert(tail[0] == ("OBSOLETE"@, b[k].item.claim@, None::<Seq<char>>));
    }
    lemma_concat_contains(g, tail, ("OBSOLETE"@, b[k].item.claim@, None::<Seq<char>>));
}

proof fn lemma_obsolete_memory_has(b: Seq<MemoryEntry>, c: Seq<MemoryEntry>, n: int, k: int)
    requires
        0 <= k < n <= b.len(),
        last_memory(c, b[k].item.id@) < 0,
    ensures
        obsolete_memory(b, c, n).contains(("OBSOLETE"@, b[k].item.claim@, None::<Seq<char>>)),
    decreases n,
{
    let g = obsolete_memory(b, c, n - 1);
    let tail = if last_memory(c, b[n - 1].item.id@) < 0 {
        seq![("OBSOLETE"@, b[n - 1].item.claim@, None::<Seq<char>>)]
    } else {
        seq![]
    };
    assert(obsolete_memory(b, c, n) == g + tail);
    if k < n - 1 {
        lemma_obsolete_memory_has(b, c, n - 1, k);
    } else {
        assert(tail[0] == ("OBSOLETE"@, b[k].item.claim@, None::<Seq<char>>));
    }
    lemma_concat_contains(g, tail, ("OBSOLETE"@, b[k].item.claim@, None::<Seq<char>>));
}

/// What the triage summary reports of the current item at position `i`,
/// judged against the last baseline item with its id (`k`, when there is
/// one): `DONE` when it became done, otherwise `REPRIORITISED` when it
/// moved; `NEW` when the baseline has no item with its id.
pub proof fn lemma_triage_reports_items(b: Seq<BacklogEntry>, c: Seq<BacklogEntry>, i: int, k: int)
    requires
        0 <= i < c.len(),
    ensures
        (forall|k2: int| 0 <= k2 < b.len() ==> (#[trigger] b[k2]).item.id@ != c[i].item.id@) ==> triage_labels(
            b,
            c,
        ).contains(("NEW"@, c[i].item.claim@, None::<Seq<char>>)),
        0 <= k < b.len() && b[k].item.id@ == c[i].item.id@ && (forall|k2: int|
            k < k2 < b.len() ==> (#[trigger] b[k2]).item.id@ != c[i].item.id@) ==> {
            &&& b[k].item.status != BacklogStatus::Done && c[i].item.status == BacklogStatus::Done ==> triage_labels(
                b,
                c,
            ).contains(("DONE"@, c[i].item.claim@, None::<Seq<char>>))
            &&& !(b[k].item.status != BacklogStatus::Done && c[i].item.status == BacklogStatus::Done) && k != i
                ==> triage_labels(b, c).contains(("REPRIORITISED"@, c[i].item.claim@, None::<Seq<char>>))
        },
{
    let n = c.len() as int;
    let g0 = triage_group(b, c, n, 0, "DONE"@);
    let g1 = triage_group(b, c, n, 1, "NEW"@);
    let g2 = triage_group(b, c, n, 2, "REPRIORITISED"@);
    let o = obsolete_backlog(b, c, b.len() as int);
    assert(triage_labels(b, c) == g0 + g1 + g2 + o);
    let claim = c[i].item.claim@;
    if forall|k2: int| 0 <= k2 < b.len() ==> (#[trigger] b[k2]).item.id@ != c[i].item.id@ {
        lemma_last_backlog_absent(b, c[i].item.id@);
        lemma_triage_group_has(b, c, n, 1, "NEW"@, i);
        lemma_concat_contains(g0, g1, ("NEW"@, claim, None::<Seq<char>>));
        lemma_concat_contains(g0 + g1, g2, ("NEW"@, claim, None::<Seq<char>>));
        lemma_concat_contains(g0 + g1 + g2, o, ("NEW"@, claim, None::<Seq<char>>));
    }
    if 0 <= k < b.len() && b[k].item.id@ == c[i].item.id@ && (forall|k2: int|
        k < k2 < b.len() ==> (#[trigger] b[k2]).item.id@ != c[i].item.id@) {
        lemma_last_backlog_is(b, c[i].item.id@, k);
        if b[k].item.status != BacklogStatus::Done && c[i].item.status == BacklogStatus::Done {
            lemma_triage_group_has(b, c, n, 0, "DONE"@, i);
            lemma_concat_contains(g0, g1, ("DONE"@, claim, None::<Seq<char>>));
            lemma_concat_contains(g0 + g1, g2, ("DONE"@, claim, None::<Seq<char>>));
            lemma_concat_contains(g0 + g1 + g2, o, ("DONE"@, claim, None::<Seq<char>>));
        } else if k != i {
            lemma_triage_group_has(b, c, n, 2, "REPRIORITISED"@, i);
            lemma_concat_contains(g0 + g1, g2, ("REPRIORITISED"@, claim, None::<Seq<char>>));
            lemma_concat_contains(g0 + g1 + g2, o, ("REPRIORITISED"@, claim, None::<Seq<char>>));
        }
    }
}

/// A baseline item (backlog or memory) whose id the current file no
/// longer has is reported `OBSOLETE` by the triage, reflect and dream
/// summaries.
pub proof fn lemma_removed_items_are_obsolete(
    bb: Seq<BacklogEntry>,
    cb: Seq<BacklogEntry>,
    k: int,
    bm: Seq<MemoryEntry>,
    cm: Seq<MemoryEntry>,
    j: int,
)
    ensures
        0 <= k < bb.len() && (forall|i: int| 0 <= i < cb.len() ==> (#[trigger] cb[i]).item.id@ != bb[k].item.id@)
            ==> triage_labels(bb, cb).contains(("OBSOLETE"@, bb[k].item.claim@, None::<Seq<char>>)),
        0 <= j < bm.len() && (forall|i: int| 0 <= i < cm.len() ==> (#[trigger] cm[i]).item.id@ != bm[j].item.id@)
            ==> reflect_labels(bm, cm).contains(("OBSOLETE"@, bm[j].item.claim@, None::<Seq<char>>))
            && dream_labels(bm, cm).contains(("OBSOLETE"@, bm[j].item.claim@, None::<Seq<char>>)),
{
    if 0 <= k < bb.len() && (forall|i: int| 0 <= i < cb.len() ==> (#[trigger] cb[i]).item.id@ != bb[k].item.id@) {
        lemma_last_backlog_absent(cb, bb[k].item.id@);
        lemma_obsolete_backlog_has(bb, cb, bb.len() as int, k);
        let n = cb.len() as int;
        let pre = triage_group(bb, cb, n, 0, "DONE"@) + triage_group(bb, cb, n, 1, "NEW"@) + triage_group(
            bb,
            cb,
            n,
            2,
            "REPRIORITISED"@,
        );
        lemma_concat_contains(pre, obsolete_backlog(bb, cb, bb.len() as int), ("OBSOLETE"@, bb[k].item.claim@, None::<Seq<char>>));
    }
    if 0 <= j < bm.len() && (forall|i: int| 0 <= i < cm.len() ==> (#[trigger] cm[i]).item.id@ != bm[j].item.id@) {
        lemma_last_memory_absent(cm, bm[j].item.id@);
        lemma_obsolete_memory_has(bm, cm, bm.len() as int, j);
        let n = cm.len() as int;
        let pre = reflect_group(bm, cm, n, 1, "NEW"@) + reflect_group(bm, cm, n, 2, "STALE"@);
        let x = ("OBSOLETE"@, bm[j].item.claim@, None::<Seq<char>>);
        lemma_concat_contains(pre, obsolete_memory(bm, cm, bm.len() as int), x);
        let r = reflect_labels(bm, cm);
        lemma_concat_contains(r, seq![("STATS"@, decimal(memory_words(bm)), Some(decimal(memory_words(cm))))], x);
        assert(dream_labels(bm, cm) == r + seq![("STATS"@, decimal(memory_words(bm)), Some(decimal(memory_words(cm))))]);
    }
}


// ----- a file compared with itself --------------------------------------------------

proof fn lemma_reflect_group_empty(b: Seq<MemoryEntry>, c: Seq<MemoryEntry>, n: int, class: int, kind: Seq<char>)
    requires
        0 <= n <= c.len(),
        forall|i: int| 0 <= i < n ==> reflect_class(b, #[trigger] c[i]) != class,
    ensures
        reflect_group(b, c, n, class, kind) == Seq::<LabelView>::empty(),
    decreases n,
{
    if n > 0 {
        lemma_reflect_group_empty(b, c, n - 1, class, kind);
        assert(reflect_class(b, c[n - 1]) != class);
        assert(reflect_group(b, c, n, class, kind) =~= Seq::<LabelView>::empty());
    }
}

proof fn lemma_obsolete_memory_empty(b: Seq<MemoryEntry>, c: Seq<MemoryEntry>, n: int)
    requires
        0 <= n <= b.len(),
        forall|i: int| 0 <= i < n ==> last_memory(c, (#[trigger] b[i]).item.id@) >= 0,
    ensures
        obsolete_memory(b, c, n) == Seq::<LabelView>::empty(),
    decreases n,
{
    if n > 0 {
        lemma_obsolete_memory_empty(b, c, n - 1);
        assert(last_memory(c, b[n - 1].item.id@) >= 0);
        assert(obsolete_memory(b, c, n) =~= Seq::<LabelView>::empty());
    }
}

proof fn lemma_triage_group_empty(b: Seq<BacklogEntry>, c: Seq<BacklogEntry>, n: int, class: int, kind: Seq<char>)
    requires
        0 <= n <= c.len(),
        forall|i: int| 0 <= i < n ==> triage_class(b, #[trigger] c[i], i) != class,
    ensures
        triage_group(b, c, n, class, kind) == Seq::<LabelView>::empty(),
    decreases n,
{
    if n > 0 {
        lemma_triage_group_empty(b, c, n - 1, class, kind);
        assert(triage_class(b, c[n - 1], n - 1) != class);
        assert(triage_group(b, c, n, class, kind) =~= Seq::<LabelView>::empty());
    }
}

proof fn lemma_obsolete_backlog_empty(b: Seq<BacklogEntry>, c: Seq<BacklogEntry>, n: int)
    requires
        0 <= n <= b.len(),
        forall|i: int| 0 <= i < n ==> last_backlog(c, (#[trigger] b[i]).item.id@) >= 0,
    ensures
        obsolete_backlog(b, c, n) == Seq::<LabelView>::empty(),
    decreases n,
{
    if n > 0 {
        lemma_obsolete_backlog_empty(b, c, n - 1);
        assert(last_backlog(c, b[n - 1].item.id@) >= 0);
        assert(obsolete_backlog(b, c, n) =~= Seq::<LabelView>::empty());
    }
}

/// Nothing changed, nothing reported: a memory file or a backlog (ids
/// distinct) summarised against itself gives no label (the dream summary
/// only its word-count line).
pub proof fn lemma_unchanged_reports_nothing(m: Seq<MemoryEntry>, bl: Seq<BacklogEntry>)
    ensures
        (forall|i: int, j: int| 0 <= i < j < m.len() ==> (#[trigger] m[i]).item.id@ != (#[trigger] m[j]).item.id@)
            ==> reflect_labels(m, m) == Seq::<LabelView>::empty() && dream_labels(m, m) == seq![
            ("STATS"@, decimal(memory_words(m)), Some(decimal(memory_words(m)))),
        ],
        (forall|i: int, j: int| 0 <= i < j < bl.len() ==> (#[trigger] bl[i]).item.id@ != (#[trigger] bl[j]).item.id@)
            ==> triage_labels(bl, bl) == Seq::<LabelView>::empty(),
{
    if forall|i: int, j: int| 0 <= i < j < m.len() ==> (#[trigger] m[i]).item.id@ != (#[trigger] m[j]).item.id@ {
        assert forall|i: int| 0 <= i < m.len() implies last_memory(m, (#[trigger] m[i]).item.id@) == i by {
            assert forall|k2: int| i < k2 < m.len() implies (#[trigger] m[k2]).item.id@ != m[i].item.id@ by {
                assert(m[i].item.id@ != m[k2].item.id@);
            }
            lemma_last_memory_is(m, m[i].item.id@, i);
        }
        assert forall|i: int| 0 <= i < m.len() implies reflect_class(m, #[trigger] m[i]) == 3 by {
            assert(last_memory(m, m[i].item.id@) == i);
            assert(m[i].item.justifications@.map_values(|j: Justification| j@) =~= m[i].item.justifications@.map_values(
                |j: Justification| j@,
            ));
        }
        let n = m.len() as int;
        lemma_reflect_group_empty(m, m, n, 1, "NEW"@);
        lemma_reflect_group_empty(m, m, n, 2, "STALE"@);
        lemma_obsolete_memory_empty(m, m, n);
        assert(reflect_labels(m, m) =~= Seq::<LabelView>::empty());
        assert(dream_labels(m, m) =~= seq![("STATS"@, decimal(memory_words(m)), Some(decimal(memory_words(m))))]);
    }
    if forall|i: int, j: int| 0 <= i < j < bl.len() ==> (#[trigger] bl[i]).item.id@ != (#[trigger] bl[j]).item.id@ {
        assert forall|i: int| 0 <= i < bl.len() implies last_backlog(bl, (#[trigger] bl[i]).item.id@) == i by {
            assert forall|k2: int| i < k2 < bl.len() implies (#[trigger] bl[k2]).item.id@ != bl[i].item.id@ by {
                assert(bl[i].item.id@ != bl[k2].item.id@);
            }
            lemma_last_backlog_is(bl, bl[i].item.id@, i);
        }
        let n = bl.len() as int;
        assert forall|i: int| 0 <= i < n implies triage_class(bl, #[trigger] bl[i], i) == 3 by {
            assert(last_backlog(bl, bl[i].item.id@) == i);
        }
        lemma_triage_group_empty(bl, bl, n, 0, "DONE"@);
        lemma_triage_group_empty(bl, bl, n, 1, "NEW"@);
        lemma_triage_group_empty(bl, bl, n, 2, "REPRIORITISED"@);
        lemma_obsolete_backlog_empty(bl, bl, n);
        assert(triage_labels(bl, bl) =~= Seq::<LabelView>::empty());
    }
}

} // verus!
