//! Drift between the item ids an item's rationale mentions and its
//! structured `dependencies`: a read-only report of mentioned ids that
//! are not listed as dependencies. Whether a mention is a dependency
//! stays the operator's call.

use vstd::prelude::*;

use crate::plan_kg::{clone_strings, Justification};
use crate::sorted::{insert_sorted_exec, lemma_sorted_set, sorted_set, strictly_sorted};
use crate::text::{chars_of, contains as contains_chars, occurs_at, occurs_at_exec, owned, push, push_str, str_eq, views};

use super::schema::{contains_string, entry_ids, BacklogEntry, BacklogFile};

verus! {

broadcast use vstd::string::group_string_axioms;

/// One item whose rationale mentions ids missing from its dependencies.
#[derive(Debug)]
pub struct TaskDrift {
    pub task_id: String,
    pub prose_mentioned: Vec<String>,
    pub structured_deps: Vec<String>,
    pub missing: Vec<String>,
}

/// A drift's content.
pub type DriftView = (Seq<char>, Seq<Seq<char>>, Seq<Seq<char>>, Seq<Seq<char>>);

/// A drift's content.
pub open spec fn drift_view(d: TaskDrift) -> DriftView {
    (d.task_id@, views(d.prose_mentioned@), views(d.structured_deps@), views(d.missing@))
}

/// The contents of a list of drifts.
pub open spec fn drift_views(ds: Seq<TaskDrift>) -> Seq<DriftView> {
    ds.map_values(|d: TaskDrift| drift_view(d))
}

/// The whole lint output.
#[derive(Debug)]
pub struct LintReport {
    pub drifts: Vec<TaskDrift>,
}

impl Default for LintReport {
    fn default() -> (r: Self)
        ensures
            r.drifts@.len() == 0,
    {
        LintReport { drifts: Vec::new() }
    }
}

/// A character that can be part of an id: ASCII letters and digits, `-`
/// and `_`.
pub open spec fn is_slug_char(c: char) -> bool {
    ('a' <= c && c <= 'z') || ('A' <= c && c <= 'Z') || ('0' <= c && c <= '9') || c == '-' || c == '_'
}

/// `id` occurs in `h` at `i` with no id character on either side.
pub open spec fn word_at(h: Seq<char>, id: Seq<char>, i: int) -> bool {
    &&& occurs_at(h, id, i)
    &&& (i == 0 || !is_slug_char(h[i - 1]))
    &&& (i + id.len() == h.len() || !is_slug_char(h[i + id.len()]))
}

/// The non-empty `id` occurs in `h` as a whole word.
pub open spec fn contains_word(h: Seq<char>, id: Seq<char>) -> bool {
    id.len() > 0 && exists|i: int| word_at(h, id, i)
}

fn is_slug_char_exec(c: char) -> (r: bool)
    ensures
        r == is_slug_char(c),
{
    ('a' <= c && c <= 'z') || ('A' <= c && c <= 'Z') || ('0' <= c && c <= '9') || c == '-' || c == '_'
}

/// Whether `id` occurs in `hay` as a whole word.
pub fn contains_id_as_word(hay: &[char], id: &[char]) -> (r: bool)
    ensures
        r == contains_word(hay@, id@),
{
    if id.len() == 0 {
        return false;
    }
    let mut i: usize = 0;
    while i < hay.len() && id.len() <= hay.len() - i
        invariant
            i <= hay@.len(),
            id@.len() > 0,
            forall|k: int| 0 <= k < i ==> !word_at(hay@, id@, k),
        decreases hay.len() - i,
    {
        if occurs_at_exec(hay, id, i) {
            let before_ok = i == 0 || !is_slug_char_exec(hay[i - 1]);
            let after_ok = i + id.len() == hay.len() || !is_slug_char_exec(hay[i + id.len()]);
            if before_ok && after_ok {
                assert(word_at(hay@, id@, i as int));
                return true;
            }
        }
        i += 1;
    }
    assert forall|k: int| !word_at(hay@, id@, k) by {
        if 0 <= k < i {
        } else if k >= i {
            assert(!occurs_at(hay@, id@, k));
        }
    }
    false
}

/// The rationale texts of a justification list, joined by newlines (an
/// empty text adds no separator before it is non-empty).
pub open spec fn rationale_join(js: Seq<Justification>) -> Seq<char>
    decreases js.len(),
{
    if js.len() == 0 {
        seq![]
    } else {
        let p = rationale_join(js.drop_last());
        match js.last() {
            Justification::Rationale { text } => if p.len() > 0 {
                p + seq!['\n'] + text@
            } else {
                text@
            },
            _ => p,
        }
    }
}

/// All rationale text of an item.
pub fn rationale_text(entry: &BacklogEntry) -> (r: String)
    ensures
        r@ == rationale_join(entry.item.justifications@),
{
    let ghost js = entry.item.justifications@;
    let mut out = String::new();
    let mut k: usize = 0;
    while k < entry.item.justifications.len()
        invariant
            js == entry.item.justifications@,
            k <= js.len(),
            out@ == rationale_join(js.take(k as int)),
        decreases js.len() - k,
    {
        assert(js.take(k + 1).drop_last() =~= js.take(k as int));
        match &entry.item.justifications[k] {
            Justification::Rationale { text } => {
                if crate::text::char_count(out.as_str()) > 0 {
                    push(&mut out, '\n');
                }
                push_str(&mut out, text.as_str());
            },
            _ => {},
        }
        k += 1;
    }
    assert(js.take(js.len() as int) =~= js);
    out
}

/// The known ids, in order, that `prose` mentions as whole words, other
/// than `self_id`.
pub open spec fn mention_candidates(prose: Seq<char>, known: Seq<Seq<char>>, self_id: Seq<char>) -> Seq<Seq<char>>
    decreases known.len(),
{
    if known.len() == 0 {
        seq![]
    } else {
        let p = mention_candidates(prose, known.drop_last(), self_id);
        let id = known.last();
        if id != self_id && contains_word(prose, id) {
            p.push(id)
        } else {
            p
        }
    }
}

/// The mentioned ids, sorted, each once.
pub open spec fn mentions(prose: Seq<char>, known: Seq<Seq<char>>, self_id: Seq<char>) -> Seq<Seq<char>> {
    sorted_set(mention_candidates(prose, known, self_id))
}

/// The mentions of the known ids in `prose` other than `self_id`, sorted
/// and without duplicates.
pub fn scan_prose_mentions(prose: &str, known_ids: &Vec<String>, self_id: &str) -> (r: Vec<String>)
    ensures
        views(r@) == mentions(prose@, views(known_ids@), self_id@),
{
    let pc = chars_of(prose);
    let ghost known = views(known_ids@);
    let mut hits: Vec<String> = Vec::new();
    let mut i: usize = 0;
    while i < known_ids.len()
        invariant
            pc@ == prose@,
            known == views(known_ids@),
            i <= known.len(),
            views(hits@) == sorted_set(mention_candidates(prose@, known.take(i as int), self_id@)),
        decreases known.len() - i,
    {
        let ghost c0 = mention_candidates(prose@, known.take(i as int), self_id@);
        assert(known.take(i + 1).drop_last() =~= known.take(i as int));
        assert(known.take(i + 1).last() == known_ids@[i as int]@);
        let idc = chars_of(known_ids[i].as_str());
        if !str_eq(known_ids[i].as_str(), self_id) && contains_id_as_word(pc.as_slice(), idc.as_slice()) {
            proof {
                lemma_sorted_set(c0);
                assert(c0.push(known_ids@[i as int]@).drop_last() =~= c0);
            }
            insert_sorted_exec(&mut hits, owned(known_ids[i].as_str()));
        }
        i += 1;
    }
    assert(known.take(known.len() as int) =~= known);
    hits
}

/// The entries of `ms` that `deps` lacks, in order.
pub open spec fn not_listed(ms: Seq<Seq<char>>, deps: Seq<Seq<char>>) -> Seq<Seq<char>>
    decreases ms.len(),
{
    if ms.len() == 0 {
        seq![]
    } else {
        let p = not_listed(ms.drop_last(), deps);
        if deps.contains(ms.last()) {
            p
        } else {
            p.push(ms.last())
        }
    }
}

/// The drift of one item, if its rationale mentions ids its dependencies
/// lack.
pub open spec fn drift_of(items: Seq<BacklogEntry>, e: BacklogEntry) -> Option<DriftView> {
    let ms = mentions(rationale_join(e.item.justifications@), entry_ids(items), e.item.id@);
    let missing = not_listed(ms, views(e.dependencies@));
    if missing.len() == 0 {
        None
    } else {
        Some((e.item.id@, ms, views(e.dependencies@), missing))
    }
}

/// The drifts of the first `n` items, in order.
pub open spec fn drifts(items: Seq<BacklogEntry>, n: int) -> Seq<DriftView>
    decreases n,
{
    if n <= 0 || n > items.len() {
        seq![]
    } else {
        drifts(items, n - 1) + match drift_of(items, items[n - 1]) {
            Some(d) => seq![d],
            None => seq![],
        }
    }
}

fn id_list(items: &Vec<BacklogEntry>) -> (r: Vec<String>)
    ensures
        views(r@) == entry_ids(items@),
{
    let mut r: Vec<String> = Vec::new();
    let mut i: usize = 0;
    while i < items.len()
        invariant
            i <= items@.len(),
            views(r@) == entry_ids(items@.take(i as int)),
        decreases items.len() - i,
    {
        let ghost before = views(r@);
        let x = owned(items[i].item.id.as_str());
        r.push(x);
        assert(views(r@) =~= before.push(x@));
        assert(entry_ids(items@.take(i + 1)) =~= entry_ids(items@.take(i as int)).push(items@[i as int].item.id@));
        i += 1;
    }
    assert(items@.take(items@.len() as int) =~= items@);
    r
}

fn analyse_entry(entry: &BacklogEntry, known_ids: &Vec<String>, ghost_items: Ghost<Seq<BacklogEntry>>) -> (r: Option<TaskDrift>)
    requires
        views(known_ids@) == entry_ids(ghost_items@),
    ensures
        match r {
            Some(d) => drift_of(ghost_items@, *entry) == Some(drift_view(d)),
            None => drift_of(ghost_items@, *entry) is None,
        },
{
    let prose = rationale_text(entry);
    let ms = scan_prose_mentions(prose.as_str(), known_ids, entry.item.id.as_str());
    let ghost msv = views(ms@);
    let ghost deps = views(entry.dependencies@);
    let mut missing: Vec<String> = Vec::new();
    let mut i: usize = 0;
    while i < ms.len()
        invariant
            msv == views(ms@),
            deps == views(entry.dependencies@),
            i <= msv.len(),
            views(missing@) == not_listed(msv.take(i as int), deps),
        decreases msv.len() - i,
    {
        assert(msv.take(i + 1).drop_last() =~= msv.take(i as int));
        assert(msv.take(i + 1).last() == ms@[i as int]@);
        let ghost before = views(missing@);
        if !contains_string(&entry.dependencies, &ms[i]) {
            let x = owned(ms[i].as_str());
            missing.push(x);
            assert(views(missing@) =~= before.push(x@));
        }
        i += 1;
    }
    assert(msv.take(msv.len() as int) =~= msv);
    if missing.len() == 0 {
        return None;
    }
    Some(TaskDrift {
        task_id: owned(entry.item.id.as_str()),
        prose_mentioned: ms,
        structured_deps: clone_strings(&entry.dependencies),
        missing,
    })
}

/// The drift report of a backlog: one entry per item whose rationale
/// mentions other items' ids (as whole words) that its dependencies do
/// not list, in backlog order.
pub fn lint_dependencies(backlog: &BacklogFile) -> (r: LintReport)
    ensures
        drift_views(r.drifts@) == drifts(backlog.items@, backlog.items@.len() as int),
{
    let ghost items = backlog.items@;
    let known = id_list(&backlog.items);
    let mut out: Vec<TaskDrift> = Vec::new();
    let mut i: usize = 0;
    while i < backlog.items.len()
        invariant
            items == backlog.items@,
            views(known@) == entry_ids(items),
            i <= items.len(),
            drift_views(out@) == drifts(items, i as int),
        decreases items.len() - i,
    {
        let ghost before = drift_views(out@);
        match analyse_entry(&backlog.items[i], &known, Ghost(items)) {
            Some(d) => {
                let ghost dv = drift_view(d);
                out.push(d);
                assert(drift_views(out@) =~= before.push(dv));
            },
            None => {
                assert(before + seq![] =~= before);
            },
        }
        i += 1;
    }
    LintReport { drifts: out }
}

} // verus!
