//! Typed schema for `<plan>/backlog.yaml`.
//!
//! A backlog entry wraps a typed item with the backlog-specific fields
//! (`category`, `dependencies`, `results`, `handoff`, `blocked_reason`).
//! The description body is the item's `Rationale` justification.
//! Also here: the id slug derived from a title, collision-free id
//! allocation, and the per-status and readiness tallies.

use vstd::prelude::*;

use crate::plan_kg::{BacklogStatus, Item};
use crate::text::{
    chars_of, concat3, decimal, decimal_string, lemma_decimal_injective, string_from_chars,
};
pub use crate::text::views;

verus! {

/// The schema version `backlog.yaml` is written with.
pub const BACKLOG_SCHEMA_VERSION: u32 = 1;

/// One backlog entry.
#[derive(Debug)]
pub struct BacklogEntry {
    pub item: Item<BacklogStatus>,
    pub category: String,
    pub blocked_reason: Option<String>,
    pub dependencies: Vec<String>,
    pub results: Option<String>,
    pub handoff: Option<String>,
}

/// The full `backlog.yaml` document.
#[derive(Debug)]
pub struct BacklogFile {
    pub schema_version: u32,
    pub items: Vec<BacklogEntry>,
}

impl Default for BacklogFile {
    fn default() -> (r: Self)
        ensures
            r.schema_version == BACKLOG_SCHEMA_VERSION,
            r.items@.len() == 0,
    {
        BacklogFile { schema_version: BACKLOG_SCHEMA_VERSION, items: Vec::new() }
    }
}

/// Per-status tally of a backlog's items.
#[derive(Debug, Clone, Copy, Default, PartialEq, Eq, Structural)]
pub struct TaskCounts {
    pub total: usize,
    pub active: usize,
    pub done: usize,
    pub blocked: usize,
    pub defeated: usize,
    pub superseded: usize,
}

/// The readiness tallies of a backlog.
#[derive(Debug, Clone, Copy, Default, PartialEq, Eq, Structural)]
pub struct PlanRowCounts {
    /// Active items whose every dependency resolves to a done item.
    pub unblocked: usize,
    /// Blocked items, plus active items with at least one unmet dependency.
    pub blocked: usize,
    /// Items carrying a hand-off.
    pub received: usize,
}

// ----- id vocabulary ------------------------------------------------------

/// The ids of `items`, by view.
pub open spec fn entry_ids(items: Seq<BacklogEntry>) -> Seq<Seq<char>> {
    items.map_values(|e: BacklogEntry| e.item.id@)
}


/// Some item of `items` has id `id`.
pub open spec fn has_id(items: Seq<BacklogEntry>, id: Seq<char>) -> bool {
    exists|k: int| 0 <= k < items.len() && (#[trigger] items[k]).item.id@ == id
}

/// `i` is the first index whose item has id `id`.
pub open spec fn is_first_with_id(items: Seq<BacklogEntry>, id: Seq<char>, i: int) -> bool {
    &&& 0 <= i < items.len()
    &&& items[i].item.id@ == id
    &&& forall|k: int| 0 <= k < i ==> (#[trigger] items[k]).item.id@ != id
}

/// Index of the first entry with id `id`.
pub fn find_index(items: &Vec<BacklogEntry>, id: &str) -> (r: Option<usize>)
    ensures
        match r {
            Some(i) => is_first_with_id(items@, id@, i as int),
            None => !has_id(items@, id@),
        },
{
    let ids = id.to_owned();
    let mut i: usize = 0;
    while i < items.len()
        invariant
            ids@ == id@,
            i <= items@.len(),
            forall|k: int| 0 <= k < i ==> (#[trigger] items@[k]).item.id@ != id@,
        decreases items.len() - i,
    {
        if items[i].item.id == ids {
            return Some(i);
        }
        i += 1;
    }
    None
}

/// `v` holds a string equal to `s`.
pub fn contains_string(v: &Vec<String>, s: &String) -> (r: bool)
    ensures
        r == views(v@).contains(s@),
{
    let mut i: usize = 0;
    while i < v.len()
        invariant
            i <= v@.len(),
            forall|k: int| 0 <= k < i ==> v@[k]@ != s@,
        decreases v.len() - i,
    {
        if v[i] == *s {
            assert(views(v@)[i as int] == s@);
            return true;
        }
        i += 1;
    }
    assert(!views(v@).contains(s@)) by {
        if views(v@).contains(s@) {
            let k = choose|k: int| 0 <= k < views(v@).len() && views(v@)[k] == s@;
            assert(v@[k]@ == s@);
        }
    }
    false
}

// ----- slugs and id allocation --------------------------------------------

/// ASCII letter or digit.
pub open spec fn is_ascii_alnum(c: char) -> bool {
    ('a' <= c && c <= 'z') || ('A' <= c && c <= 'Z') || ('0' <= c && c <= '9')
}

/// ASCII lower-casing.
pub open spec fn ascii_lower(c: char) -> char {
    if 'A' <= c && c <= 'Z' {
        ((c as u32) + 32) as char
    } else {
        c
    }
}

/// The slug of `s` before trailing dashes are dropped: alphanumerics
/// lower-cased, every run of other characters collapsed to one `-`
/// (none at the start while `prev_dash` holds).
pub open spec fn slug_raw(s: Seq<char>, prev_dash: bool) -> Seq<char>
    decreases s.len(),
{
    if s.len() == 0 {
        seq![]
    } else if is_ascii_alnum(s[0]) {
        seq![ascii_lower(s[0])] + slug_raw(s.drop_first(), false)
    } else if !prev_dash {
        seq!['-'] + slug_raw(s.drop_first(), true)
    } else {
        slug_raw(s.drop_first(), true)
    }
}

/// `s` without its trailing dashes.
pub open spec fn strip_trailing_dashes(s: Seq<char>) -> Seq<char>
    decreases s.len(),
{
    if s.len() > 0 && s.last() == '-' {
        strip_trailing_dashes(s.drop_last())
    } else {
        s
    }
}

/// The id slug of a title.
pub open spec fn slug(title: Seq<char>) -> Seq<char> {
    strip_trailing_dashes(slug_raw(title, true))
}

fn is_ascii_alnum_exec(c: char) -> (r: bool)
    ensures
        r == is_ascii_alnum(c),
{
    ('a' <= c && c <= 'z') || ('A' <= c && c <= 'Z') || ('0' <= c && c <= '9')
}

fn ascii_lower_exec(c: char) -> (r: char)
    ensures
        r == ascii_lower(c),
{
    if 'A' <= c && c <= 'Z' {
        let v = (c as u32) + 32;
        assert(0x61 <= v <= 0x7a);
        // Lower-case ASCII letters are valid scalar values.
        lower_letter(v)
    } else {
        c
    }
}

fn lower_letter(v: u32) -> (r: char)
    requires
        0x61 <= v <= 0x7a,
    ensures
        r == v as char,
{
    match v {
        0x61 => 'a',
        0x62 => 'b',
        0x63 => 'c',
        0x64 => 'd',
        0x65 => 'e',
        0x66 => 'f',
        0x67 => 'g',
        0x68 => 'h',
        0x69 => 'i',
        0x6a => 'j',
        0x6b => 'k',
        0x6c => 'l',
        0x6d => 'm',
        0x6e => 'n',
        0x6f => 'o',
        0x70 => 'p',
        0x71 => 'q',
        0x72 => 'r',
        0x73 => 's',
        0x74 => 't',
        0x75 => 'u',
        0x76 => 'v',
        0x77 => 'w',
        0x78 => 'x',
        0x79 => 'y',
        _ => 'z',
    }
}

/// Derive a slug from an item title: ASCII alphanumerics lower-cased,
/// every run of other characters collapsed to `-`, no leading or trailing
/// `-`.
pub fn slug_from_title(title: &str) -> (r: String)
    ensures
        r@ == slug(title@),
{
    let cs = chars_of(title);
    let mut out: Vec<char> = Vec::new();
    let mut prev_dash = true;
    let mut i: usize = 0;
    assert(cs@.skip(0) =~= cs@);
    while i < cs.len()
        invariant
            cs@ == title@,
            i <= cs@.len(),
            out@ + slug_raw(cs@.skip(i as int), prev_dash) == slug_raw(title@, true),
        decreases cs.len() - i,
    {
        let c = cs[i];
        let ghost rest = cs@.skip(i as int);
        assert(rest[0] == c);
        assert(rest.drop_first() =~= cs@.skip(i + 1));
        if is_ascii_alnum_exec(c) {
            out.push(ascii_lower_exec(c));
            prev_dash = false;
        } else if !prev_dash {
            out.push('-');
            prev_dash = true;
        } else {
        }
        i += 1;
        proof {
            assert(out@ + slug_raw(cs@.skip(i as int), prev_dash) =~= slug_raw(title@, true));
        }
    }
    assert(cs@.skip(i as int) =~= Seq::<char>::empty());
    assert(out@ =~= slug_raw(title@, true));
    while out.len() > 0 && out[out.len() - 1] == '-'
        invariant
            strip_trailing_dashes(out@) == slug(title@),
        decreases out.len(),
    {
        let ghost before = out@;
        out.pop();
        assert(out@ =~= before.drop_last());
    }
    string_from_chars(out.as_slice())
}

/// The `n`-th id candidate for slug `base`: `base` itself first, then
/// `base-2`, `base-3`, and so on.
pub open spec fn candidate(base: Seq<char>, n: nat) -> Seq<char> {
    if n <= 1 {
        base
    } else {
        base + seq!['-'] + decimal(n)
    }
}

/// Candidate `n` is already used in `existing`.
pub open spec fn taken(existing: Seq<Seq<char>>, base: Seq<char>, n: nat) -> bool {
    existing.contains(candidate(base, n))
}

/// The id `allocate_id` picks: the first candidate not already taken.
pub open spec fn is_allocated(existing: Seq<Seq<char>>, base: Seq<char>, r: Seq<char>) -> bool {
    exists|n: nat|
        #![trigger candidate(base, n)]
        n >= 1 && r == candidate(base, n) && !taken(existing, base, n) && forall|m: nat|
            1 <= m < n ==> #[trigger] taken(existing, base, m)
}

proof fn lemma_candidate_injective(base: Seq<char>, a: nat, b: nat)
    requires
        a >= 1,
        b >= 1,
        candidate(base, a) == candidate(base, b),
    ensures
        a == b,
{
    crate::text::lemma_decimal_len_pub(a);
    crate::text::lemma_decimal_len_pub(b);
    if a >= 2 && b >= 2 {
        let p = base.len() + 1;
        assert(candidate(base, a).skip(p as int) =~= decimal(a));
        assert(candidate(base, b).skip(p as int) =~= decimal(b));
        lemma_decimal_injective(a, b);
    } else if a >= 2 || b >= 2 {
        assert(candidate(base, a).len() != candidate(base, b).len());
    }
}

/// How many entries of `existing` equal some candidate at index `k` or later.
pub open spec fn later_candidates(existing: Seq<Seq<char>>, base: Seq<char>, k: nat) -> nat
    decreases existing.len(),
{
    if existing.len() == 0 {
        0
    } else {
        later_candidates(existing.drop_last(), base, k) + if exists|j: nat|
            j >= k && #[trigger] candidate(base, j) == existing.last() {
            1nat
        } else {
            0nat
        }
    }
}

proof fn lemma_later_candidates_bound(existing: Seq<Seq<char>>, base: Seq<char>, k: nat)
    ensures
        later_candidates(existing, base, k) <= existing.len(),
    decreases existing.len(),
{
    if existing.len() > 0 {
        lemma_later_candidates_bound(existing.drop_last(), base, k);
    }
}

proof fn lemma_later_candidates_drop(existing: Seq<Seq<char>>, base: Seq<char>, k: nat)
    requires
        k >= 1,
    ensures
        later_candidates(existing, base, k + 1) <= later_candidates(existing, base, k),
        existing.contains(candidate(base, k)) ==> later_candidates(existing, base, k + 1)
            < later_candidates(existing, base, k),
    decreases existing.len(),
{
    if existing.len() > 0 {
        let e = existing.last();
        lemma_later_candidates_drop(existing.drop_last(), base, k);
        if exists|j: nat| j >= k + 1 && #[trigger] candidate(base, j) == e {
            let j = choose|j: nat| j >= k + 1 && #[trigger] candidate(base, j) == e;
            assert(j >= k && candidate(base, j) == e);
        }
        if e == candidate(base, k) {
            assert(exists|j: nat| j >= k && #[trigger] candidate(base, j) == e);
            if exists|j: nat| j >= k + 1 && #[trigger] candidate(base, j) == e {
                let j = choose|j: nat| j >= k + 1 && #[trigger] candidate(base, j) == e;
                lemma_candidate_injective(base, j, k);
            }
        }
        if existing.contains(candidate(base, k)) && e != candidate(base, k) {
            let i = choose|i: int| 0 <= i < existing.len() && existing[i] == candidate(base, k);
            assert(existing.drop_last()[i] == existing[i]);
            assert(existing.drop_last().contains(candidate(base, k)));
        }
    }
}

/// Assign `slug_from_title(title)`, suffixed `-2`, `-3`, … as needed to
/// avoid every id in `existing_ids`.
pub fn allocate_id(title: &str, existing_ids: &Vec<String>) -> (r: String)
    requires
        existing_ids@.len() < usize::MAX,
    ensures
        is_allocated(views(existing_ids@), slug(title@), r@),
{
    let ghost ex = views(existing_ids@);
    let base = slug_from_title(title);
    let mut n: usize = 1;
    let mut cand = base.clone();
    proof {
        lemma_later_candidates_bound(ex, base@, 1);
    }
    while contains_string(existing_ids, &cand)
        invariant
            ex == views(existing_ids@),
            existing_ids@.len() < usize::MAX,
            n >= 1,
            cand@ == candidate(base@, n as nat),
            n + later_candidates(ex, base@, n as nat) <= ex.len() + 1,
            forall|m: nat| 1 <= m < n ==> #[trigger] taken(ex, base@, m),
        decreases later_candidates(ex, base@, n as nat),
    {
        proof {
            lemma_later_candidates_drop(ex, base@, n as nat);
        }
        assert(taken(ex, base@, n as nat));
        n = n + 1;
        let digits = decimal_string(n as u64);
        cand = concat3(base.as_str(), "-", digits.as_str());
        proof {
            reveal_strlit("-");
            assert("-"@ =~= seq!['-']);
        }
    }
    cand
}

/// No id occurs twice.
pub open spec fn ids_unique(ids: Seq<Seq<char>>) -> bool {
    forall|i: int, j: int| 0 <= i < j < ids.len() ==> #[trigger] ids[i] != #[trigger] ids[j]
}

/// An allocated id is fresh: it is none of the existing ids, so adding an
/// item under it keeps the ids unique.
pub proof fn lemma_allocated_id_is_fresh(existing: Seq<Seq<char>>, base: Seq<char>, r: Seq<char>)
    requires
        is_allocated(existing, base, r),
    ensures
        !existing.contains(r),
        ids_unique(existing) ==> ids_unique(existing.push(r)),
{
    let n = choose|n: nat|
        #![trigger candidate(base, n)]
        n >= 1 && r == candidate(base, n) && !taken(existing, base, n) && forall|m: nat|
            1 <= m < n ==> #[trigger] taken(existing, base, m);
    assert(!existing.contains(r));
    if ids_unique(existing) {
        let e = existing.push(r);
        assert forall|i: int, j: int| 0 <= i < j < e.len() implies #[trigger] e[i] != #[trigger] e[j] by {
            if j == existing.len() {
                assert(e[i] == existing[i]);
            } else {
                assert(e[i] == existing[i] && e[j] == existing[j]);
            }
        }
    }
}

// ----- tallies ------------------------------------------------------------

/// Number of items with status `s`.
pub open spec fn count_status(items: Seq<BacklogEntry>, s: BacklogStatus) -> nat
    decreases items.len(),
{
    if items.len() == 0 {
        0
    } else {
        count_status(items.drop_last(), s) + if items.last().item.status == s {
            1nat
        } else {
            0nat
        }
    }
}

/// Whether dependency id `d` resolves to a done item. When several items
/// share the id, the last one decides.
pub open spec fn dep_resolves_done(items: Seq<BacklogEntry>, d: Seq<char>) -> bool
    decreases items.len(),
{
    if items.len() == 0 {
        false
    } else if items.last().item.id@ == d {
        items.last().item.status == BacklogStatus::Done
    } else {
        dep_resolves_done(items.drop_last(), d)
    }
}

/// Every dependency of `e` resolves to a done item of `items`.
pub open spec fn all_deps_resolve_done(items: Seq<BacklogEntry>, e: BacklogEntry) -> bool {
    forall|j: int|
        0 <= j < e.dependencies@.len() ==> dep_resolves_done(items, (#[trigger] e.dependencies@[j])@)
}

/// Number of entries of `part` that are ready: active with every
/// dependency resolving to a done item of `items`.
pub open spec fn count_unblocked(items: Seq<BacklogEntry>, part: Seq<BacklogEntry>) -> nat
    decreases part.len(),
{
    if part.len() == 0 {
        0
    } else {
        count_unblocked(items, part.drop_last()) + if part.last().item.status
            == BacklogStatus::Active && all_deps_resolve_done(items, part.last()) {
            1nat
        } else {
            0nat
        }
    }
}

/// Number of entries of `part` that are blocked (explicitly, or active
/// with an unmet dependency).
pub open spec fn count_blocked(items: Seq<BacklogEntry>, part: Seq<BacklogEntry>) -> nat
    decreases part.len(),
{
    if part.len() == 0 {
        0
    } else {
        count_blocked(items, part.drop_last()) + if part.last().item.status
            == BacklogStatus::Blocked || (part.last().item.status == BacklogStatus::Active
            && !all_deps_resolve_done(items, part.last())) {
            1nat
        } else {
            0nat
        }
    }
}

/// Number of entries carrying a hand-off.
pub open spec fn count_handoffs(part: Seq<BacklogEntry>) -> nat
    decreases part.len(),
{
    if part.len() == 0 {
        0
    } else {
        count_handoffs(part.drop_last()) + if part.last().handoff is Some {
            1nat
        } else {
            0nat
        }
    }
}

proof fn lemma_counts_bounded(items: Seq<BacklogEntry>, part: Seq<BacklogEntry>)
    ensures
        count_status(part, BacklogStatus::Active) + count_status(part, BacklogStatus::Done)
            + count_status(part, BacklogStatus::Blocked) + count_status(
            part,
            BacklogStatus::Defeated,
        ) + count_status(part, BacklogStatus::Superseded) == part.len(),
        count_unblocked(items, part) + count_blocked(items, part) <= part.len(),
        count_handoffs(part) <= part.len(),
    decreases part.len(),
{
    if part.len() > 0 {
        lemma_counts_bounded(items, part.drop_last());
    }
}

/// Every item contributes to exactly one per-status tally, so the tallies
/// add up to the number of items.
pub proof fn lemma_task_counts_partition(items: Seq<BacklogEntry>)
    ensures
        count_status(items, BacklogStatus::Active) + count_status(items, BacklogStatus::Done)
            + count_status(items, BacklogStatus::Blocked) + count_status(
            items,
            BacklogStatus::Defeated,
        ) + count_status(items, BacklogStatus::Superseded) == items.len(),
{
    lemma_counts_bounded(items, items);
}

/// Whether dependency id `d` resolves to a done item.
fn dep_resolves_done_exec(items: &Vec<BacklogEntry>, d: &String) -> (r: bool)
    ensures
        r == dep_resolves_done(items@, d@),
{
    let mut i: usize = items.len();
    assert(items@.subrange(0, i as int) =~= items@);
    while i > 0
        invariant
            i <= items@.len(),
            dep_resolves_done(items@, d@) == dep_resolves_done(items@.subrange(0, i as int), d@),
        decreases i,
    {
        let ghost pre = items@.subrange(0, i as int);
        assert(pre.drop_last() =~= items@.subrange(0, i - 1));
        if items[i - 1].item.id == *d {
            return items[i - 1].item.status == BacklogStatus::Done;
        }
        i -= 1;
    }
    false
}

/// Every dependency of `e` resolves to a done item.
fn all_deps_done_exec(items: &Vec<BacklogEntry>, e: &BacklogEntry) -> (r: bool)
    ensures
        r == all_deps_resolve_done(items@, *e),
{
    let mut j: usize = 0;
    while j < e.dependencies.len()
        invariant
            j <= e.dependencies@.len(),
            forall|k: int| 0 <= k < j ==> dep_resolves_done(items@, (#[trigger] e.dependencies@[k])@),
        decreases e.dependencies.len() - j,
    {
        if !dep_resolves_done_exec(items, &e.dependencies[j]) {
            return false;
        }
        j += 1;
    }
    true
}

impl BacklogFile {
    /// Tally items by status; `total` is the number of items.
    pub fn task_counts(&self) -> (r: TaskCounts)
        ensures
            r.total == self.items@.len(),
            r.active == count_status(self.items@, BacklogStatus::Active),
            r.done == count_status(self.items@, BacklogStatus::Done),
            r.blocked == count_status(self.items@, BacklogStatus::Blocked),
            r.defeated == count_status(self.items@, BacklogStatus::Defeated),
            r.superseded == count_status(self.items@, BacklogStatus::Superseded),
    {
        let mut c = TaskCounts {
            total: self.items.len(),
            active: 0,
            done: 0,
            blocked: 0,
            defeated: 0,
            superseded: 0,
        };
        let mut i: usize = 0;
        while i < self.items.len()
            invariant
                i <= self.items@.len(),
                c.total == self.items@.len(),
                c.active == count_status(self.items@.subrange(0, i as int), BacklogStatus::Active),
                c.done == count_status(self.items@.subrange(0, i as int), BacklogStatus::Done),
                c.blocked == count_status(
                    self.items@.subrange(0, i as int),
                    BacklogStatus::Blocked,
                ),
                c.defeated == count_status(
                    self.items@.subrange(0, i as int),
                    BacklogStatus::Defeated,
                ),
                c.superseded == count_status(
                    self.items@.subrange(0, i as int),
                    BacklogStatus::Superseded,
                ),
            decreases self.items.len() - i,
        {
            let ghost next = self.items@.subrange(0, i + 1);
            assert(next.drop_last() =~= self.items@.subrange(0, i as int));
            proof {
                lemma_counts_bounded(next, next);
            }
            match self.items[i].item.status {
                BacklogStatus::Active => c.active = c.active + 1,
                BacklogStatus::Done => c.done = c.done + 1,
                BacklogStatus::Blocked => c.blocked = c.blocked + 1,
                BacklogStatus::Defeated => c.defeated = c.defeated + 1,
                BacklogStatus::Superseded => c.superseded = c.superseded + 1,
            }
            i += 1;
        }
        assert(self.items@.subrange(0, self.items@.len() as int) =~= self.items@);
        c
    }

    /// The three readiness tallies, from one snapshot of the backlog.
    pub fn plan_row_counts(&self) -> (r: PlanRowCounts)
        ensures
            r.unblocked == count_unblocked(self.items@, self.items@),
            r.blocked == count_blocked(self.items@, self.items@),
            r.received == count_handoffs(self.items@),
    {
        let mut c = PlanRowCounts { unblocked: 0, blocked: 0, received: 0 };
        let mut i: usize = 0;
        while i < self.items.len()
            invariant
                i <= self.items@.len(),
                c.unblocked == count_unblocked(self.items@, self.items@.subrange(0, i as int)),
                c.blocked == count_blocked(self.items@, self.items@.subrange(0, i as int)),
                c.received == count_handoffs(self.items@.subrange(0, i as int)),
            decreases self.items.len() - i,
        {
            let ghost next = self.items@.subrange(0, i + 1);
            assert(next.drop_last() =~= self.items@.subrange(0, i as int));
            proof {
                lemma_counts_bounded(self.items@, next);
            }
            let e = &self.items[i];
            if e.handoff.is_some() {
                c.received = c.received + 1;
            }
            match e.item.status {
                BacklogStatus::Blocked => c.blocked = c.blocked + 1,
                BacklogStatus::Active => {
                    if all_deps_done_exec(&self.items, e) {
                        c.unblocked = c.unblocked + 1;
                    } else {
                        c.blocked = c.blocked + 1;
                    }
                },
                _ => {},
            }
            i += 1;
        }
        assert(self.items@.subrange(0, self.items@.len() as int) =~= self.items@);
        c
    }
}

} // verus!
