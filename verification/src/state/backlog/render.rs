//! The markdown table view of a backlog: one section per group (category
//! or status), three columns (`title | status | deps`), rows ordered by
//! status rank, then dependency depth, then backlog position.

use vstd::prelude::*;

use crate::plan_kg::{BacklogStatus, ItemStatus};
use crate::text::{
    chars_of, lemma_lex_irreflexive, lemma_lex_total, lemma_lex_transitive, lex_lt, lowercase, owned, push, push_str, str_eq, str_lt,
    to_lowercase, views,
};

use super::schema::{find_index, has_id, is_first_with_id, BacklogEntry, BacklogFile};
use super::verbs::{first_id_index, lemma_first_exists, lemma_first_index_unique};

verus! {

broadcast use vstd::string::group_string_axioms;

/// How rows are grouped into sections.
#[derive(Debug, Clone, Copy, PartialEq, Eq, Structural)]
pub enum GroupBy {
    Category,
    Status,
}

impl GroupBy {
    /// `category` or `status`.
    pub fn parse(input: &str) -> (r: Option<GroupBy>)
        ensures
            r == (if input@ == "category"@ {
                Some(GroupBy::Category)
            } else if input@ == "status"@ {
                Some(GroupBy::Status)
            } else {
                None
            }),
    {
        if str_eq(input, "category") {
            Some(GroupBy::Category)
        } else if str_eq(input, "status") {
            Some(GroupBy::Status)
        } else {
            None
        }
    }
}

/// Open work first: active, blocked, then done, defeated, superseded.
pub open spec fn status_rank(s: BacklogStatus) -> nat {
    match s {
        BacklogStatus::Active => 0,
        BacklogStatus::Blocked => 1,
        BacklogStatus::Done => 2,
        BacklogStatus::Defeated => 3,
        BacklogStatus::Superseded => 4,
    }
}

fn status_rank_exec(s: BacklogStatus) -> (r: u8)
    ensures
        r == status_rank(s),
{
    match s {
        BacklogStatus::Active => 0,
        BacklogStatus::Blocked => 1,
        BacklogStatus::Done => 2,
        BacklogStatus::Defeated => 3,
        BacklogStatus::Superseded => 4,
    }
}

/// A table cell: newlines become spaces, `|` is escaped.
pub open spec fn escape(s: Seq<char>) -> Seq<char>
    decreases s.len(),
{
    if s.len() == 0 {
        seq![]
    } else {
        escape(s.drop_last()) + if s.last() == '\n' {
            seq![' ']
        } else if s.last() == '|' {
            seq!['\\', '|']
        } else {
            seq![s.last()]
        }
    }
}

/// A cell's text escaped.
pub fn escape_cell(s: &str) -> (r: String)
    ensures
        r@ == escape(s@),
{
    let cs = chars_of(s);
    let mut out = String::new();
    let mut i: usize = 0;
    while i < cs.len()
        invariant
            cs@ == s@,
            i <= cs@.len(),
            out@ == escape(cs@.take(i as int)),
        decreases cs.len() - i,
    {
        assert(cs@.take(i + 1).drop_last() =~= cs@.take(i as int));
        let c = cs[i];
        if c == '\n' {
            push(&mut out, ' ');
        } else if c == '|' {
            push(&mut out, '\\');
            push(&mut out, '|');
        } else {
            push(&mut out, c);
        }
        assert(out@ =~= escape(cs@.take(i + 1)));
        i += 1;
    }
    assert(cs@.take(cs@.len() as int) =~= cs@);
    out
}

/// Escaped dependency ids joined by `, `.
pub open spec fn joined_deps(ds: Seq<Seq<char>>) -> Seq<char>
    decreases ds.len(),
{
    if ds.len() == 0 {
        seq![]
    } else if ds.len() == 1 {
        escape(ds[0])
    } else {
        joined_deps(ds.drop_last()) + seq![',', ' '] + escape(ds.last())
    }
}

/// The deps cell: an em dash when there are none.
pub open spec fn deps_cell(ds: Seq<Seq<char>>) -> Seq<char> {
    if ds.len() == 0 {
        seq!['—']
    } else {
        joined_deps(ds)
    }
}

/// The deps cell of a dependency list.
pub fn render_deps(deps: &Vec<String>) -> (r: String)
    ensures
        r@ == deps_cell(views(deps@)),
{
    let mut out = String::new();
    if deps.len() == 0 {
        push(&mut out, '—');
        return out;
    }
    let mut i: usize = 0;
    while i < deps.len()
        invariant
            i <= deps@.len(),
            out@ == joined_deps(views(deps@).take(i as int)),
        decreases deps.len() - i,
    {
        let ghost t = views(deps@).take(i + 1);
        assert(t.drop_last() =~= views(deps@).take(i as int));
        assert(t.last() == deps@[i as int]@);
        if i > 0 {
            push(&mut out, ',');
            push(&mut out, ' ');
        }
        let e = escape_cell(deps[i].as_str());
        push_str(&mut out, e.as_str());
        proof {
            if i == 0 {
                assert(t.len() == 1);
            }
        }
        assert(out@ =~= joined_deps(t));
        i += 1;
    }
    assert(views(deps@).take(deps@.len() as int) =~= views(deps@));
    out
}

// ----- dependency depth -----------------------------------------------------

/// The depths of the items: a finite depth is one more than the deepest
/// dependency that names an item (0 when none does), and every such
/// dependency has a finite depth; `usize::MAX` marks an item with a
/// dependency of depth `usize::MAX` (one that reaches a cycle). Within
/// the backlog an id names its first item.
pub open spec fn depth_ok(items: Seq<BacklogEntry>, d: Seq<usize>) -> bool {
    &&& d.len() == items.len()
    &&& forall|i: int| 0 <= i < items.len() && #[trigger] d[i] != usize::MAX ==> {
        &&& forall|k: int| 0 <= k < items[i].dependencies@.len() && has_id(items, (#[trigger] items[i].dependencies@[k])@)
            ==> d[first_id_index(items, items[i].dependencies@[k]@)] != usize::MAX
                && d[first_id_index(items, items[i].dependencies@[k]@)] + 1 <= d[i]
        &&& d[i] == 0 || exists|k: int| 0 <= k < items[i].dependencies@.len() && has_id(items, (#[trigger] items[i].dependencies@[k])@)
            && d[first_id_index(items, items[i].dependencies@[k]@)] + 1 == d[i]
    }
    &&& forall|i: int| 0 <= i < items.len() && #[trigger] d[i] == usize::MAX ==> exists|k: int|
        0 <= k < items[i].dependencies@.len() && has_id(items, (#[trigger] items[i].dependencies@[k])@)
            && d[first_id_index(items, items[i].dependencies@[k]@)] == usize::MAX
}

/// How many depths are finite.
pub open spec fn count_finite(d: Seq<usize>) -> nat
    decreases d.len(),
{
    if d.len() == 0 {
        0
    } else {
        count_finite(d.drop_last()) + if d.last() != usize::MAX {
            1nat
        } else {
            0nat
        }
    }
}

proof fn lemma_count_finite_bound(d: Seq<usize>, i: int)
    requires
        0 <= i < d.len(),
        d[i] == usize::MAX,
    ensures
        count_finite(d) < d.len(),
    decreases d.len(),
{
    if i < d.len() - 1 {
        lemma_count_finite_bound(d.drop_last(), i);
    } else {
        lemma_count_finite_le(d.drop_last());
    }
}

proof fn lemma_count_finite_le(d: Seq<usize>)
    ensures
        count_finite(d) <= d.len(),
    decreases d.len(),
{
    if d.len() > 0 {
        lemma_count_finite_le(d.drop_last());
    }
}

proof fn lemma_count_finite_set(d: Seq<usize>, i: int, v: usize)
    requires
        0 <= i < d.len(),
        d[i] == usize::MAX,
        v != usize::MAX,
    ensures
        count_finite(d.update(i, v)) == count_finite(d) + 1,
    decreases d.len(),
{
    let e = d.update(i, v);
    if i == d.len() - 1 {
        assert(e.drop_last() =~= d.drop_last());
    } else {
        assert(e.drop_last() =~= d.drop_last().update(i, v));
        lemma_count_finite_set(d.drop_last(), i, v);
    }
}

/// The dependency depth of every item (by position).
pub fn compute_depth_ranks(items: &Vec<BacklogEntry>) -> (r: Vec<usize>)
    ensures
        depth_ok(items@, r@),
{
    let ghost it = items@;
    let n = items.len();
    let mut d: Vec<usize> = Vec::new();
    while d.len() < n
        invariant
            d@.len() <= n,
            forall|k: int| 0 <= k < d@.len() ==> d@[k] == usize::MAX,
        decreases n - d.len(),
    {
        d.push(usize::MAX);
    }
    let mut assigned: usize = 0;
    proof {
        assert(count_finite(d@) == 0) by {
            lemma_count_all_max(d@);
        }
    }
    loop
        invariant
            it == items@,
            n == it.len(),
            d@.len() == n,
            assigned == count_finite(d@),
            forall|i: int| 0 <= i < n && #[trigger] d@[i] != usize::MAX ==> d@[i] < assigned,
            forall|i: int| 0 <= i < n && #[trigger] d@[i] != usize::MAX ==> {
                &&& forall|k: int| 0 <= k < it[i].dependencies@.len() && has_id(it, (#[trigger] it[i].dependencies@[k])@)
                    ==> d@[first_id_index(it, it[i].dependencies@[k]@)] != usize::MAX
                        && d@[first_id_index(it, it[i].dependencies@[k]@)] + 1 <= d@[i]
                &&& d@[i] == 0 || exists|k: int| 0 <= k < it[i].dependencies@.len() && has_id(it, (#[trigger] it[i].dependencies@[k])@)
                    && d@[first_id_index(it, it[i].dependencies@[k]@)] + 1 == d@[i]
            },
        ensures
            depth_ok(it, d@),
        decreases n - assigned,
    {
        proof {
            lemma_count_finite_le(d@);
        }
        let ghost start = d@;
        let ghost a0 = assigned;
        let mut progress = false;
        let mut i: usize = 0;
        while i < n
            invariant
                it == items@,
                n == it.len(),
                d@.len() == n,
                i <= n,
                assigned == count_finite(d@),
                a0 <= assigned,
                a0 == count_finite(start),
                !progress ==> d@ == start,
                progress ==> a0 < assigned,
                forall|j: int| 0 <= j < n && #[trigger] d@[j] != usize::MAX ==> d@[j] < assigned,
                forall|j: int| 0 <= j < n && #[trigger] d@[j] != usize::MAX ==> {
                    &&& forall|k: int| 0 <= k < it[j].dependencies@.len() && has_id(it, (#[trigger] it[j].dependencies@[k])@)
                        ==> d@[first_id_index(it, it[j].dependencies@[k]@)] != usize::MAX
                            && d@[first_id_index(it, it[j].dependencies@[k]@)] + 1 <= d@[j]
                    &&& d@[j] == 0 || exists|k: int| 0 <= k < it[j].dependencies@.len() && has_id(it, (#[trigger] it[j].dependencies@[k])@)
                        && d@[first_id_index(it, it[j].dependencies@[k]@)] + 1 == d@[j]
                },
                !progress ==> forall|j: int| 0 <= j < i && #[trigger] d@[j] == usize::MAX ==> exists|k: int|
                    0 <= k < it[j].dependencies@.len() && has_id(it, (#[trigger] it[j].dependencies@[k])@)
                        && d@[first_id_index(it, it[j].dependencies@[k]@)] == usize::MAX,
            decreases n - i,
        {
            if d[i] == usize::MAX {
                let deps = &items[i].dependencies;
                let mut ready = true;
                let mut m: usize = 0;
                let mut k: usize = 0;
                while k < deps.len() && ready
                    invariant
                        it == items@,
                        n == it.len(),
                        d@.len() == n,
                        i < n,
                        deps == it[i as int].dependencies,
                        k <= deps@.len(),
                        assigned == count_finite(d@),
                        forall|j: int| 0 <= j < n && #[trigger] d@[j] != usize::MAX ==> d@[j] < assigned,
                        m <= assigned,
                        ready ==> forall|q: int| 0 <= q < k && has_id(it, (#[trigger] deps@[q])@)
                            ==> d@[first_id_index(it, deps@[q]@)] != usize::MAX && d@[first_id_index(it, deps@[q]@)] + 1 <= m,
                        ready ==> (m == 0 || exists|q: int| 0 <= q < k && has_id(it, (#[trigger] deps@[q])@)
                            && d@[first_id_index(it, deps@[q]@)] + 1 == m),
                        !ready ==> exists|q: int| 0 <= q < deps@.len() && has_id(it, (#[trigger] deps@[q])@)
                            && d@[first_id_index(it, deps@[q]@)] == usize::MAX,
                    decreases deps.len() - k,
                {
                    match find_index(items, deps[k].as_str()) {
                        Some(t) => {
                            proof {
                                lemma_first_index_unique(it, deps@[k as int]@, t as int);
                            }
                            if d[t] == usize::MAX {
                                ready = false;
                            } else {
                                if d[t] + 1 > m {
                                    m = d[t] + 1;
                                }
                            }
                        },
                        None => {},
                    }
                    k += 1;
                }
                if ready {
                    proof {
                        lemma_count_finite_bound(d@, i as int);
                        lemma_count_finite_set(d@, i as int, m);
                    }
                    let ghost od = d@;
                    d.set(i, m);
                    assigned = assigned + 1;
                    progress = true;
                    proof {
                        assert forall|j: int| 0 <= j < n && #[trigger] d@[j] != usize::MAX implies {
                            &&& forall|q: int| 0 <= q < it[j].dependencies@.len() && has_id(it, (#[trigger] it[j].dependencies@[q])@)
                                ==> d@[first_id_index(it, it[j].dependencies@[q]@)] != usize::MAX
                                    && d@[first_id_index(it, it[j].dependencies@[q]@)] + 1 <= d@[j]
                            &&& d@[j] == 0 || exists|q: int| 0 <= q < it[j].dependencies@.len() && has_id(it, (#[trigger] it[j].dependencies@[q])@)
                                && d@[first_id_index(it, it[j].dependencies@[q]@)] + 1 == d@[j]
                        } by {
                            let dj = it[j].dependencies@;
                            assert forall|q: int| 0 <= q < dj.len() && has_id(it, (#[trigger] dj[q])@) implies
                                d@[first_id_index(it, dj[q]@)] != usize::MAX && d@[first_id_index(it, dj[q]@)] + 1 <= d@[j] by {
                                let k0 = choose|k0: int| 0 <= k0 < it.len() && (#[trigger] it[k0]).item.id@ == dj[q]@;
                                lemma_first_exists(it, dj[q]@, k0);
                                let t = first_id_index(it, dj[q]@);
                                if j == i {
                                    assert(od[t] != usize::MAX);
                                } else {
                                    assert(od[j] != usize::MAX);
                                    assert(od[t] != usize::MAX);
                                }
                                assert(t != i);
                            }
                            if d@[j] != 0 {
                                if j == i {
                                    let q = choose|q: int| 0 <= q < k && has_id(it, (#[trigger] deps@[q])@)
                                        && od[first_id_index(it, deps@[q]@)] + 1 == m;
                                    let k0 = choose|k0: int| 0 <= k0 < it.len() && (#[trigger] it[k0]).item.id@ == dj[q]@;
                                    lemma_first_exists(it, dj[q]@, k0);
                                    assert(od[first_id_index(it, dj[q]@)] != usize::MAX);
                                    assert(d@[first_id_index(it, dj[q]@)] + 1 == d@[j]);
                                } else {
                                    assert(od[j] != usize::MAX);
                                    let q = choose|q: int| 0 <= q < dj.len() && has_id(it, (#[trigger] dj[q])@)
                                        && od[first_id_index(it, dj[q]@)] + 1 == od[j];
                                    let k0 = choose|k0: int| 0 <= k0 < it.len() && (#[trigger] it[k0]).item.id@ == dj[q]@;
                                    lemma_first_exists(it, dj[q]@, k0);
                                    assert(od[first_id_index(it, dj[q]@)] != usize::MAX);
                                    assert(d@[first_id_index(it, dj[q]@)] + 1 == d@[j]);
                                }
                            }
                        }
                    }
                }
            }
            i += 1;
        }
        proof {
            lemma_count_finite_le(d@);
        }
        if !progress {
            assert(depth_ok(it, d@));
            break;
        }
    }
    d
}

proof fn lemma_count_all_max(d: Seq<usize>)
    requires
        forall|k: int| 0 <= k < d.len() ==> d[k] == usize::MAX,
    ensures
        count_finite(d) == 0,
    decreases d.len(),
{
    if d.len() > 0 {
        lemma_count_all_max(d.drop_last());
    }
}

// ----- row order ------------------------------------------------------------

/// Row `a` comes before row `b`: lower status rank, then smaller depth,
/// then earlier backlog position.
pub open spec fn row_before(items: Seq<BacklogEntry>, d: Seq<usize>, a: int, b: int) -> bool {
    let ra = status_rank(items[a].item.status);
    let rb = status_rank(items[b].item.status);
    ra < rb || (ra == rb && (d[a] < d[b] || (d[a] == d[b] && a < b)))
}

/// `rows` lists, in row order, exactly the positions of `items` that
/// `in_group` accepts.
pub open spec fn rows_ok(
    items: Seq<BacklogEntry>,
    d: Seq<usize>,
    rows: Seq<usize>,
    in_group: spec_fn(int) -> bool,
) -> bool {
    &&& forall|p: int, q: int|
        0 <= p < q < rows.len() ==> row_before(items, d, #[trigger] rows[p] as int, #[trigger] rows[q] as int)
    &&& forall|p: int| 0 <= p < rows.len() ==> #[trigger] rows[p] < items.len() && in_group(rows[p] as int)
    &&& forall|i: int| #![trigger items[i]] 0 <= i < items.len() && in_group(i) ==> rows.contains(i as usize)
}

fn row_before_exec(items: &Vec<BacklogEntry>, d: &Vec<usize>, a: usize, b: usize) -> (r: bool)
    requires
        a < items@.len(),
        b < items@.len(),
        d@.len() == items@.len(),
    ensures
        r == row_before(items@, d@, a as int, b as int),
{
    let ra = status_rank_exec(items[a].item.status);
    let rb = status_rank_exec(items[b].item.status);
    ra < rb || (ra == rb && (d[a] < d[b] || (d[a] == d[b] && a < b)))
}

/// Every position of the backlog, in row order.
fn order_rows(items: &Vec<BacklogEntry>, d: &Vec<usize>) -> (r: Vec<usize>)
    requires
        d@.len() == items@.len(),
    ensures
        rows_ok(items@, d@, r@, |i: int| true),
{
    let n = items.len();
    let mut order: Vec<usize> = Vec::new();
    let mut i: usize = 0;
    while i < n
        invariant
            n == items@.len(),
            d@.len() == n,
            i <= n,
            forall|p: int, q: int|
                0 <= p < q < order@.len() ==> row_before(items@, d@, #[trigger] order@[p] as int, #[trigger] order@[q] as int),
            forall|p: int| 0 <= p < order@.len() ==> #[trigger] order@[p] < i,
            forall|k: usize| k < i ==> #[trigger] order@.contains(k),
        decreases n - i,
    {
        let mut p: usize = 0;
        while p < order.len() && row_before_exec(items, d, order[p], i)
            invariant
                n == items@.len(),
                d@.len() == n,
                i < n,
                p <= order@.len(),
                forall|p: int| 0 <= p < order@.len() ==> #[trigger] order@[p] < i,
                forall|q: int| 0 <= q < p ==> row_before(items@, d@, #[trigger] order@[q] as int, i as int),
            decreases order.len() - p,
        {
            p += 1;
        }
        let ghost o = order@;
        proof {
            if p < o.len() {
                assert(!row_before(items@, d@, o[p as int] as int, i as int));
                assert(row_before(items@, d@, i as int, o[p as int] as int));
            }
        }
        order.insert(p, i);
        proof {
            assert forall|a: int, b: int| 0 <= a < b < order@.len() implies row_before(
                items@,
                d@,
                #[trigger] order@[a] as int,
                #[trigger] order@[b] as int,
            ) by {
                if b < p {
                } else if b == p {
                } else if a < p {
                    assert(order@[b] == o[b - 1]);
                    assert(row_before(items@, d@, o[a] as int, i as int));
                    assert(row_before(items@, d@, i as int, o[p as int] as int));
                    if b - 1 > p {
                        assert(row_before(items@, d@, o[p as int] as int, o[b - 1] as int));
                    }
                } else if a == p {
                    assert(order@[b] == o[b - 1]);
                    if b - 1 > p {
                        assert(row_before(items@, d@, o[p as int] as int, o[b - 1] as int));
                    }
                } else {
                    assert(order@[a] == o[a - 1]);
                    assert(order@[b] == o[b - 1]);
                }
            }
            assert forall|k: usize| k < i + 1 implies #[trigger] order@.contains(k) by {
                if k == i {
                    assert(order@[p as int] == i);
                } else {
                    assert(o.contains(k));
                    let w = choose|w: int| 0 <= w < o.len() && o[w] == k;
                    if w < p {
                        assert(order@[w] == k);
                    } else {
                        assert(order@[w + 1] == k);
                    }
                }
            }
            assert forall|a: int| 0 <= a < order@.len() implies #[trigger] order@[a] < i + 1 by {
                if a < p {
                } else if a > p {
                    assert(order@[a] == o[a - 1]);
                }
            }
        }
        i += 1;
    }
    order
}

/// `rows` lists, in row order, the items with status `st`.
pub open spec fn status_rows_ok(items: Seq<BacklogEntry>, d: Seq<usize>, rows: Seq<usize>, st: BacklogStatus) -> bool {
    rows_ok(items, d, rows, |i: int| items[i].item.status == st)
}

/// `rows` lists, in row order, the items of category `c`.
pub open spec fn category_rows_ok(items: Seq<BacklogEntry>, d: Seq<usize>, rows: Seq<usize>, c: Seq<char>) -> bool {
    rows_ok(items, d, rows, |i: int| items[i].category@ == c)
}

/// The rows of `order` whose item has status `st`, in the same order.
fn rows_with_status(items: &Vec<BacklogEntry>, d: &Vec<usize>, order: &Vec<usize>, st: BacklogStatus) -> (r: Vec<usize>)
    requires
        d@.len() == items@.len(),
        rows_ok(items@, d@, order@, |i: int| true),
    ensures
        status_rows_ok(items@, d@, r@, st),
{
    let n = items.len();
    let mut out: Vec<usize> = Vec::new();
    let mut p: usize = 0;
    while p < order.len()
        invariant
            n == items@.len(),
            d@.len() == items@.len(),
            rows_ok(items@, d@, order@, |i: int| true),
            p <= order@.len(),
            forall|a: int| 0 <= a < out@.len() ==> exists|b: int| 0 <= b < p && order@[b] == #[trigger] out@[a],
            forall|a: int| 0 <= a < out@.len() ==> #[trigger] out@[a] < items@.len() && items@[out@[a] as int].item.status == st,
            forall|b: int| 0 <= b < p && items@[order@[b] as int].item.status == st ==> out@.contains(#[trigger] order@[b]),
            forall|a: int, c: int| 0 <= a < c < out@.len() ==> row_before(items@, d@, #[trigger] out@[a] as int, #[trigger] out@[c] as int),
            out@.len() > 0 ==> exists|b: int| 0 <= b < p && order@[b] == out@.last(),
        decreases order.len() - p,
    {
        let k = order[p];
        proof {
            assert(order@[p as int] < items@.len());
        }
        if items[k].item.status.same(st) {
            let ghost o = out@;
            proof {
                if o.len() > 0 {
                    let b = choose|b: int| 0 <= b < p && order@[b] == o.last();
                    assert(row_before(items@, d@, order@[b] as int, order@[p as int] as int));
                    assert forall|a: int| 0 <= a < o.len() implies row_before(items@, d@, #[trigger] o[a] as int, k as int) by {
                        if a < o.len() - 1 {
                            assert(row_before(items@, d@, o[a] as int, o[o.len() - 1] as int));
                        }
                    }
                }
            }
            out.push(k);
            proof {
                assert forall|a: int| 0 <= a < out@.len() implies exists|b: int| 0 <= b < p + 1 && order@[b] == #[trigger] out@[a] by {
                    if a == o.len() {
                        assert(order@[p as int] == out@[a]);
                    } else {
                        assert(out@[a] == o[a]);
                    }
                }
                assert forall|b: int| 0 <= b < p + 1 && items@[order@[b] as int].item.status == st implies out@.contains(#[trigger] order@[b]) by {
                    if b == p {
                        assert(out@[o.len() as int] == order@[b]);
                    } else {
                        assert(o.contains(order@[b]));
                        let w = choose|w: int| 0 <= w < o.len() && o[w] == order@[b];
                        assert(out@[w] == order@[b]);
                    }
                }
                assert(order@[p as int] == out@.last());
            }
        } else {
            proof {
                assert forall|b: int| 0 <= b < p + 1 && items@[order@[b] as int].item.status == st implies out@.contains(#[trigger] order@[b]) by {
                    if b == p {
                        assert(items@[order@[b] as int].item.status != st);
                    }
                }
            }
        }
        p += 1;
    }
    proof {
        assert forall|i: int| 0 <= i < items@.len() && items@[i].item.status == st implies out@.contains(i as usize) by {
            assert((|i: int| true)(i));
            assert(order@.contains(i as usize));
            let w = choose|w: int| 0 <= w < order@.len() && order@[w] == i as usize;
            assert(out@.contains(order@[w]));
        }
    }
    out
}

/// The rows of `order` whose item has category `c`, in the same order.
fn rows_with_category(items: &Vec<BacklogEntry>, d: &Vec<usize>, order: &Vec<usize>, c: &String) -> (r: Vec<usize>)
    requires
        d@.len() == items@.len(),
        rows_ok(items@, d@, order@, |i: int| true),
    ensures
        category_rows_ok(items@, d@, r@, c@),
{
    let n = items.len();
    let mut out: Vec<usize> = Vec::new();
    let mut p: usize = 0;
    while p < order.len()
        invariant
            n == items@.len(),
            d@.len() == items@.len(),
            rows_ok(items@, d@, order@, |i: int| true),
            p <= order@.len(),
            forall|a: int| 0 <= a < out@.len() ==> exists|b: int| 0 <= b < p && order@[b] == #[trigger] out@[a],
            forall|a: int| 0 <= a < out@.len() ==> #[trigger] out@[a] < items@.len() && items@[out@[a] as int].category@ == c@,
            forall|b: int| 0 <= b < p && items@[order@[b] as int].category@ == c@ ==> out@.contains(#[trigger] order@[b]),
            forall|a: int, c: int| 0 <= a < c < out@.len() ==> row_before(items@, d@, #[trigger] out@[a] as int, #[trigger] out@[c] as int),
            out@.len() > 0 ==> exists|b: int| 0 <= b < p && order@[b] == out@.last(),
        decreases order.len() - p,
    {
        let k = order[p];
        proof {
            assert(order@[p as int] < items@.len());
        }
        if items[k].category == *c {
            let ghost o = out@;
            proof {
                if o.len() > 0 {
                    let b = choose|b: int| 0 <= b < p && order@[b] == o.last();
                    assert(row_before(items@, d@, order@[b] as int, order@[p as int] as int));
                    assert forall|a: int| 0 <= a < o.len() implies row_before(items@, d@, #[trigger] o[a] as int, k as int) by {
                        if a < o.len() - 1 {
                            assert(row_before(items@, d@, o[a] as int, o[o.len() - 1] as int));
                        }
                    }
                }
            }
            out.push(k);
            proof {
                assert forall|a: int| 0 <= a < out@.len() implies exists|b: int| 0 <= b < p + 1 && order@[b] == #[trigger] out@[a] by {
                    if a == o.len() {
                        assert(order@[p as int] == out@[a]);
                    } else {
                        assert(out@[a] == o[a]);
                    }
                }
                assert forall|b: int| 0 <= b < p + 1 && items@[order@[b] as int].category@ == c@ implies out@.contains(#[trigger] order@[b]) by {
                    if b == p {
                        assert(out@[o.len() as int] == order@[b]);
                    } else {
                        assert(o.contains(order@[b]));
                        let w = choose|w: int| 0 <= w < o.len() && o[w] == order@[b];
                        assert(out@[w] == order@[b]);
                    }
                }
                assert(order@[p as int] == out@.last());
            }
        } else {
            proof {
                assert forall|b: int| 0 <= b < p + 1 && items@[order@[b] as int].category@ == c@ implies out@.contains(#[trigger] order@[b]) by {
                    if b == p {
                        assert(items@[order@[b] as int].category@ != c@);
                    }
                }
            }
        }
        p += 1;
    }
    proof {
        assert forall|i: int| 0 <= i < items@.len() && items@[i].category@ == c@ implies out@.contains(i as usize) by {
            assert((|i: int| true)(i));
            assert(order@.contains(i as usize));
            let w = choose|w: int| 0 <= w < order@.len() && order@[w] == i as usize;
            assert(out@.contains(order@[w]));
        }
    }
    out
}

// ----- sections ---------------------------------------------------------------

/// A section as the contracts see it: its heading and its rows.
pub open spec fn sec_views(v: Seq<(String, Vec<usize>)>) -> Seq<(Seq<char>, Seq<usize>)> {
    v.map_values(|sec: (String, Vec<usize>)| (sec.0@, sec.1@))
}

/// The pinned order of status sections: active, blocked, done, defeated,
/// superseded.
pub open spec fn pinned_status(k: int) -> BacklogStatus {
    if k == 0 {
        BacklogStatus::Active
    } else if k == 1 {
        BacklogStatus::Blocked
    } else if k == 2 {
        BacklogStatus::Done
    } else if k == 3 {
        BacklogStatus::Defeated
    } else {
        BacklogStatus::Superseded
    }
}

fn pinned_status_exec(k: usize) -> (r: BacklogStatus)
    ensures
        r == pinned_status(k as int),
{
    if k == 0 {
        BacklogStatus::Active
    } else if k == 1 {
        BacklogStatus::Blocked
    } else if k == 2 {
        BacklogStatus::Done
    } else if k == 3 {
        BacklogStatus::Defeated
    } else {
        BacklogStatus::Superseded
    }
}

/// Some item has status `st`.
pub open spec fn has_status(items: Seq<BacklogEntry>, st: BacklogStatus) -> bool {
    exists|i: int| 0 <= i < items.len() && (#[trigger] items[i]).item.status == st
}

/// The first `k` pinned statuses that some item has, in pinned order.
pub open spec fn present_statuses(items: Seq<BacklogEntry>, k: nat) -> Seq<BacklogStatus>
    decreases k,
{
    if k == 0 {
        seq![]
    } else {
        present_statuses(items, (k - 1) as nat) + if has_status(items, pinned_status(k - 1)) {
            seq![pinned_status(k - 1)]
        } else {
            seq![]
        }
    }
}

/// Grouping by status: one section per status that some item has, in the
/// pinned order, headed by the status word.
pub open spec fn status_sections_ok(
    items: Seq<BacklogEntry>,
    d: Seq<usize>,
    secs: Seq<(Seq<char>, Seq<usize>)>,
) -> bool {
    let st = present_statuses(items, 5);
    &&& secs.len() == st.len()
    &&& forall|p: int| 0 <= p < secs.len() ==> {
        &&& (#[trigger] secs[p]).0 == st[p].spec_str()
        &&& status_rows_ok(items, d, secs[p].1, st[p])
    }
}

fn status_sections(items: &Vec<BacklogEntry>, d: &Vec<usize>, order: &Vec<usize>) -> (r: Vec<(String, Vec<usize>)>)
    requires
        d@.len() == items@.len(),
        rows_ok(items@, d@, order@, |i: int| true),
    ensures
        status_sections_ok(items@, d@, sec_views(r@)),
{
    let n = items.len();
    let mut out: Vec<(String, Vec<usize>)> = Vec::new();
    let mut k: usize = 0;
    while k < 5
        invariant
            n == items@.len(),
            d@.len() == items@.len(),
            rows_ok(items@, d@, order@, |i: int| true),
            k <= 5,
            out@.len() == present_statuses(items@, k as nat).len(),
            forall|p: int| 0 <= p < out@.len() ==> {
                &&& (#[trigger] out@[p]).0@ == present_statuses(items@, k as nat)[p].spec_str()
                &&& status_rows_ok(items@, d@, out@[p].1@, present_statuses(items@, k as nat)[p])
            },
        decreases 5 - k,
    {
        let st = pinned_status_exec(k);
        let rows = rows_with_status(items, d, order, st);
        let ghost before = present_statuses(items@, k as nat);
        let ghost o = out@;
        assert(present_statuses(items@, (k + 1) as nat) == before + if has_status(items@, st) {
            seq![st]
        } else {
            seq![]
        });
        if rows.len() > 0 {
            proof {
                let i = rows@[0] as int;
                assert(items@[i].item.status == st);
            }
            let title = owned(st.as_str());
            out.push((title, rows));
            assert(present_statuses(items@, (k + 1) as nat)[o.len() as int] == st);
            proof {
                assert forall|p: int| 0 <= p < out@.len() implies {
                    &&& (#[trigger] out@[p]).0@ == present_statuses(items@, (k + 1) as nat)[p].spec_str()
                    &&& status_rows_ok(items@, d@, out@[p].1@, present_statuses(items@, (k + 1) as nat)[p])
                } by {
                    if p < o.len() {
                        assert(out@[p] == o[p]);
                        assert(present_statuses(items@, (k + 1) as nat)[p] == before[p]);
                    }
                }
            }
        } else {
            proof {
                if has_status(items@, st) {
                    let i = choose|i: int| 0 <= i < items@.len() && (#[trigger] items@[i]).item.status == st;
                    assert(i < n);
                    assert(rows@.contains(i as usize));
                }
                assert(present_statuses(items@, (k + 1) as nat) =~= before);
            }
        }
        k += 1;
    }
    proof {
        let sv = sec_views(out@);
        assert forall|p: int| 0 <= p < sv.len() implies {
            &&& (#[trigger] sv[p]).0 == present_statuses(items@, 5)[p].spec_str()
            &&& status_rows_ok(items@, d@, sv[p].1, present_statuses(items@, 5)[p])
        } by {
            assert(sv[p] == (out@[p].0@, out@[p].1@));
        }
    }
    out
}

/// Some item has category `c`.
pub open spec fn has_category(items: Seq<BacklogEntry>, c: Seq<char>) -> bool {
    exists|i: int| 0 <= i < items.len() && (#[trigger] items[i]).category@ == c
}

/// `i` is the first position whose item has category `c`.
pub open spec fn is_first_cat(items: Seq<BacklogEntry>, c: Seq<char>, i: int) -> bool {
    &&& 0 <= i < items.len()
    &&& items[i].category@ == c
    &&& forall|j: int| 0 <= j < i ==> (#[trigger] items[j]).category@ != c
}

/// The first position whose item has category `c`.
pub open spec fn first_cat(items: Seq<BacklogEntry>, c: Seq<char>) -> int {
    choose|i: int| is_first_cat(items, c, i)
}

/// Category `a` is listed before category `b`: by lowercased name, then
/// by first appearance in the backlog.
pub open spec fn cat_before(items: Seq<BacklogEntry>, a: Seq<char>, b: Seq<char>) -> bool {
    ||| lex_lt(lowercase(a), lowercase(b))
    ||| lowercase(a) == lowercase(b) && first_cat(items, a) < first_cat(items, b)
}

/// Some section is headed `c`.
pub open spec fn lists_heading(secs: Seq<(Seq<char>, Seq<usize>)>, c: Seq<char>) -> bool {
    exists|p: int| 0 <= p < secs.len() && (#[trigger] secs[p]).0 == c
}

/// Grouping by category: one section per category, headed by its name,
/// sorted case-insensitively with ties in order of first appearance.
pub open spec fn category_sections_ok(
    items: Seq<BacklogEntry>,
    d: Seq<usize>,
    secs: Seq<(Seq<char>, Seq<usize>)>,
) -> bool {
    &&& forall|p: int| 0 <= p < secs.len() ==> has_category(items, (#[trigger] secs[p]).0)
    &&& forall|i: int| 0 <= i < items.len() ==> lists_heading(secs, #[trigger] items[i].category@)
    &&& forall|p: int, q: int| 0 <= p < q < secs.len() ==> cat_before(items, (#[trigger] secs[p]).0, (#[trigger] secs[q]).0)
    &&& forall|p: int| 0 <= p < secs.len() ==> category_rows_ok(items, d, (#[trigger] secs[p]).1, secs[p].0)
}

proof fn lemma_first_cat_unique(items: Seq<BacklogEntry>, c: Seq<char>, i: int)
    requires
        is_first_cat(items, c, i),
    ensures
        first_cat(items, c) == i,
{
    let w = first_cat(items, c);
    assert(is_first_cat(items, c, w));
    if w < i {
        assert(items[w].category@ != c);
    } else if w > i {
        assert(items[i].category@ != c);
    }
}

/// The key order of the category list under construction.
spec fn key_lt(la: Seq<char>, fa: usize, lb: Seq<char>, fb: usize) -> bool {
    lex_lt(la, lb) || (la == lb && fa < fb)
}

proof fn lemma_key_transitive(la: Seq<char>, fa: usize, lb: Seq<char>, fb: usize, lc: Seq<char>, fc: usize)
    requires
        key_lt(la, fa, lb, fb),
        key_lt(lb, fb, lc, fc),
    ensures
        key_lt(la, fa, lc, fc),
{
    if lex_lt(la, lb) && lex_lt(lb, lc) {
        lemma_lex_transitive(la, lb, lc);
    }
}

/// The distinct categories with their lowercased names and first
/// positions, in section order.
fn category_list(items: &Vec<BacklogEntry>) -> (r: (Vec<String>, Vec<String>, Vec<usize>))
    ensures
        r.0@.len() == r.1@.len(),
        r.0@.len() == r.2@.len(),
        forall|p: int| 0 <= p < r.0@.len() ==> is_first_cat(items@, (#[trigger] r.0@[p])@, r.2@[p] as int),
        forall|i: int| 0 <= i < items@.len() ==> views(r.0@).contains(#[trigger] items@[i].category@),
        forall|p: int, q: int| 0 <= p < q < r.0@.len() ==> cat_before(items@, (#[trigger] r.0@[p])@, (#[trigger] r.0@[q])@),
{
    let n = items.len();
    let mut names: Vec<String> = Vec::new();
    let mut lowers: Vec<String> = Vec::new();
    let mut firsts: Vec<usize> = Vec::new();
    let mut i: usize = 0;
    while i < n
        invariant
            n == items@.len(),
            i <= n,
            names@.len() == lowers@.len(),
            names@.len() == firsts@.len(),
            forall|p: int| 0 <= p < names@.len() ==> is_first_cat(items@, (#[trigger] names@[p])@, firsts@[p] as int),
            forall|p: int| 0 <= p < names@.len() ==> #[trigger] firsts@[p] < i,
            forall|p: int| 0 <= p < names@.len() ==> (#[trigger] lowers@[p])@ == lowercase(names@[p]@),
            forall|j: int| 0 <= j < i ==> views(names@).contains(#[trigger] items@[j].category@),
            forall|p: int, q: int| 0 <= p < q < names@.len() ==> key_lt(
                (#[trigger] lowers@[p])@,
                firsts@[p],
                (#[trigger] lowers@[q])@,
                firsts@[q],
            ),
        decreases n - i,
    {
        let cat = &items[i].category;
        let mut found = false;
        let mut q: usize = 0;
        while q < names.len() && !found
            invariant
                q <= names@.len(),
                found ==> views(names@).contains(cat@),
                !found ==> forall|p: int| 0 <= p < q ==> (#[trigger] names@[p])@ != cat@,
            decreases names.len() - q,
        {
            if names[q] == *cat {
                found = true;
                assert(views(names@)[q as int] == cat@);
            }
            q += 1;
        }
        if !found {
            proof {
                assert forall|j: int| 0 <= j < i implies (#[trigger] items@[j]).category@ != cat@ by {
                    assert(views(names@).contains(items@[j].category@));
                    let p = choose|p: int| 0 <= p < names@.len() && views(names@)[p] == items@[j].category@;
                    assert(names@[p]@ != cat@);
                }
                assert(is_first_cat(items@, cat@, i as int));
            }
            let low = to_lowercase(cat.as_str());
            let mut p: usize = 0;
            while p < lowers.len() && !str_lt(low.as_str(), lowers[p].as_str())
                invariant
                    p <= lowers@.len(),
                    forall|q: int| 0 <= q < p ==> !lex_lt(low@, (#[trigger] lowers@[q])@),
                decreases lowers.len() - p,
            {
                p += 1;
            }
            let ghost on = names@;
            let ghost ol = lowers@;
            let ghost of = firsts@;
            proof {
                assert forall|q: int| 0 <= q < p implies key_lt((#[trigger] ol[q])@, of[q], low@, i) by {
                    assert(!lex_lt(low@, lowers@[q]@));
                    assert(names@[q]@ == names@[q]@);
                    assert(of[q] < i);
                    lemma_lex_total(ol[q]@, low@);
                }
                if p < ol.len() {
                    assert(lex_lt(low@, ol[p as int]@));
                    assert forall|q: int| p <= q < ol.len() implies key_lt(low@, i, (#[trigger] ol[q])@, of[q]) by {
                        if q > p {
                            lemma_key_transitive(low@, i, ol[p as int]@, of[p as int], ol[q]@, of[q]);
                        }
                    }
                }
            }
            names.insert(p, cat.clone());
            lowers.insert(p, low);
            firsts.insert(p, i);
            proof {
                assert(names@[p as int]@ == cat@);
                assert forall|a: int| 0 <= a < names@.len() implies {
                    &&& is_first_cat(items@, (#[trigger] names@[a])@, firsts@[a] as int)
                    &&& firsts@[a] < i + 1
                    &&& lowers@[a]@ == lowercase(names@[a]@)
                } by {
                    if a < p {
                        assert(names@[a] == on[a]);
                    } else if a > p {
                        assert(names@[a] == on[a - 1]);
                        assert(firsts@[a] == of[a - 1]);
                        assert(lowers@[a] == ol[a - 1]);
                    }
                }
                assert forall|j: int| 0 <= j < i + 1 implies views(names@).contains(#[trigger] items@[j].category@) by {
                    if j == i {
                        assert(views(names@)[p as int] == items@[j].category@);
                    } else {
                        assert(views(on).contains(items@[j].category@));
                        let b = choose|b: int| 0 <= b < on.len() && views(on)[b] == items@[j].category@;
                        if b < p {
                            assert(views(names@)[b] == on[b]@);
                        } else {
                            assert(views(names@)[b + 1] == on[b]@);
                        }
                    }
                }
                assert forall|a: int, b: int| 0 <= a < b < names@.len() implies key_lt(
                    (#[trigger] lowers@[a])@,
                    firsts@[a],
                    (#[trigger] lowers@[b])@,
                    firsts@[b],
                ) by {
                    if b < p {
                    } else if b == p {
                    } else if a < p {
                        assert(lowers@[b] == ol[b - 1]);
                        assert(firsts@[b] == of[b - 1]);
                        lemma_key_transitive(ol[a]@, of[a], low@, i, ol[b - 1]@, of[b - 1]);
                    } else if a == p {
                        assert(lowers@[b] == ol[b - 1]);
                        assert(firsts@[b] == of[b - 1]);
                    } else {
                        assert(lowers@[a] == ol[a - 1]);
                        assert(lowers@[b] == ol[b - 1]);
                        assert(firsts@[a] == of[a - 1]);
                        assert(firsts@[b] == of[b - 1]);
                    }
                }
            }
        } else {
            proof {
                assert forall|a: int| 0 <= a < names@.len() implies {
                    &&& is_first_cat(items@, (#[trigger] names@[a])@, firsts@[a] as int)
                    &&& firsts@[a] < i + 1
                    &&& lowers@[a]@ == lowercase(names@[a]@)
                } by {}
            }
        }
        i += 1;
    }
    proof {
        assert forall|a: int, b: int| 0 <= a < b < names@.len() implies cat_before(items@, (#[trigger] names@[a])@, (#[trigger] names@[b])@) by {
            lemma_first_cat_unique(items@, names@[a]@, firsts@[a] as int);
            lemma_first_cat_unique(items@, names@[b]@, firsts@[b] as int);
            assert(key_lt(lowers@[a]@, firsts@[a], lowers@[b]@, firsts@[b]));
        }
    }
    (names, lowers, firsts)
}

fn category_sections(items: &Vec<BacklogEntry>, d: &Vec<usize>, order: &Vec<usize>) -> (r: Vec<(String, Vec<usize>)>)
    requires
        d@.len() == items@.len(),
        rows_ok(items@, d@, order@, |i: int| true),
    ensures
        category_sections_ok(items@, d@, sec_views(r@)),
{
    let (names, _lowers, _firsts) = category_list(items);
    let mut out: Vec<(String, Vec<usize>)> = Vec::new();
    let mut p: usize = 0;
    while p < names.len()
        invariant
            d@.len() == items@.len(),
            rows_ok(items@, d@, order@, |i: int| true),
            p <= names@.len(),
            out@.len() == p,
            forall|a: int| 0 <= a < p ==> (#[trigger] out@[a]).0@ == names@[a]@ && category_rows_ok(items@, d@, out@[a].1@, names@[a]@),
        decreases names.len() - p,
    {
        let rows = rows_with_category(items, d, order, &names[p]);
        let title = names[p].clone();
        out.push((title, rows));
        p += 1;
    }
    proof {
        let sv = sec_views(out@);
        assert forall|a: int| 0 <= a < sv.len() implies (#[trigger] sv[a]).0 == names@[a]@ && category_rows_ok(items@, d@, sv[a].1, names@[a]@) by {
            assert(sv[a] == (out@[a].0@, out@[a].1@));
        }
        assert forall|a: int| 0 <= a < sv.len() implies has_category(items@, (#[trigger] sv[a]).0) by {
            assert(is_first_cat(items@, names@[a]@, _firsts@[a] as int));
            assert(items@[_firsts@[a] as int].category@ == sv[a].0);
        }
        assert forall|i: int| 0 <= i < items@.len() implies lists_heading(sv, #[trigger] items@[i].category@) by {
            assert(views(names@).contains(items@[i].category@));
            let a = choose|a: int| 0 <= a < names@.len() && views(names@)[a] == items@[i].category@;
            assert(sv[a].0 == names@[a]@);
            assert(sv[a].0 == items@[i].category@);
        }
        assert forall|a: int, b: int| 0 <= a < b < sv.len() implies cat_before(items@, (#[trigger] sv[a]).0, (#[trigger] sv[b]).0) by {
            assert(sv[a].0 == names@[a]@);
            assert(sv[b].0 == names@[b]@);
        }
    }
    out
}

// ----- layout -----------------------------------------------------------------

/// One table row.
pub open spec fn row_line(e: BacklogEntry) -> Seq<char> {
    "| "@ + escape(e.item.claim@) + " | "@ + e.item.status.spec_str() + " | "@ + deps_cell(views(e.dependencies@))
        + " |\n"@
}

/// The rows of a section, in order.
pub open spec fn rows_text(items: Seq<BacklogEntry>, rows: Seq<usize>) -> Seq<char>
    decreases rows.len(),
{
    if rows.len() == 0 {
        seq![]
    } else {
        rows_text(items, rows.drop_last()) + row_line(items[rows.last() as int])
    }
}

/// A section: heading, table header, rows.
pub open spec fn section_text(items: Seq<BacklogEntry>, sec: (Seq<char>, Seq<usize>)) -> Seq<char> {
    "## "@ + sec.0 + "\n\n"@ + "| title | status | deps |\n"@ + "|---|---|---|\n"@ + rows_text(items, sec.1)
}

/// The sections, separated by blank lines.
pub open spec fn layout(items: Seq<BacklogEntry>, secs: Seq<(Seq<char>, Seq<usize>)>) -> Seq<char>
    decreases secs.len(),
{
    if secs.len() == 0 {
        seq![]
    } else if secs.len() == 1 {
        section_text(items, secs[0])
    } else {
        layout(items, secs.drop_last()) + seq!['\n'] + section_text(items, secs.last())
    }
}

/// The sections of the chosen grouping.
pub open spec fn sections_ok(
    items: Seq<BacklogEntry>,
    d: Seq<usize>,
    group_by: GroupBy,
    secs: Seq<(Seq<char>, Seq<usize>)>,
) -> bool {
    match group_by {
        GroupBy::Category => category_sections_ok(items, d, secs),
        GroupBy::Status => status_sections_ok(items, d, secs),
    }
}

fn write_row(out: &mut String, e: &BacklogEntry)
    ensures
        final(out)@ == old(out)@ + row_line(*e),
{
    push_str(out, "| ");
    let title = escape_cell(e.item.claim.as_str());
    push_str(out, title.as_str());
    push_str(out, " | ");
    push_str(out, e.item.status.as_str());
    push_str(out, " | ");
    let deps = render_deps(&e.dependencies);
    push_str(out, deps.as_str());
    push_str(out, " |\n");
}

fn write_section(out: &mut String, items: &Vec<BacklogEntry>, title: &String, rows: &Vec<usize>)
    requires
        forall|p: int| 0 <= p < rows@.len() ==> #[trigger] rows@[p] < items@.len(),
    ensures
        final(out)@ == old(out)@ + section_text(items@, (title@, rows@)),
{
    let ghost start = out@;
    push_str(out, "## ");
    push_str(out, title.as_str());
    push_str(out, "\n\n");
    push_str(out, "| title | status | deps |\n");
    push_str(out, "|---|---|---|\n");
    let ghost head = out@;
    let mut k: usize = 0;
    while k < rows.len()
        invariant
            forall|p: int| 0 <= p < rows@.len() ==> #[trigger] rows@[p] < items@.len(),
            k <= rows@.len(),
            out@ == head + rows_text(items@, rows@.take(k as int)),
        decreases rows.len() - k,
    {
        let ghost t = rows@.take(k + 1);
        assert(t.drop_last() =~= rows@.take(k as int));
        assert(rows@[k as int] < items@.len());
        write_row(out, &items[rows[k]]);
        k += 1;
    }
    assert(rows@.take(rows@.len() as int) =~= rows@);
    assert(out@ =~= start + section_text(items@, (title@, rows@)));
}

/// The markdown table view of the backlog: `_(no tasks)_` for an empty
/// backlog; otherwise one section per group, each a three-column table
/// (`title | status | deps`) whose rows come in status-rank, depth,
/// backlog-position order. The depths and the sections are the only ones
/// that meet `depth_ok` and `sections_ok`.
pub fn render_markdown(backlog: &BacklogFile, group_by: GroupBy) -> (r: String)
    ensures
        backlog.items@.len() == 0 ==> r@ == "_(no tasks)_\n"@,
        backlog.items@.len() > 0 ==> exists|d: Seq<usize>, secs: Seq<(Seq<char>, Seq<usize>)>|
            depth_ok(backlog.items@, d) && sections_ok(backlog.items@, d, group_by, secs)
                && r@ == layout(backlog.items@, secs),
        backlog.items@.len() > 0 ==> the_layout(backlog.items@, group_by, r@),
{
    let items = &backlog.items;
    if items.len() == 0 {
        return owned("_(no tasks)_\n");
    }
    let d = compute_depth_ranks(items);
    let order = order_rows(items, &d);
    let secs = match group_by {
        GroupBy::Category => category_sections(items, &d, &order),
        GroupBy::Status => status_sections(items, &d, &order),
    };
    let ghost sv = sec_views(secs@);
    assert(sections_ok(items@, d@, group_by, sv));
    assert forall|a: int| 0 <= a < sv.len() implies forall|q: int| 0 <= q < (#[trigger] sv[a]).1.len() ==> sv[a].1[q] < items@.len() by {
        assert forall|q: int| 0 <= q < sv[a].1.len() implies sv[a].1[q] < items@.len() by {
            let rows = sv[a].1;
            assert(rows[q] == rows[q]);
        }
    }
    let mut out = String::new();
    let mut p: usize = 0;
    while p < secs.len()
        invariant
            sv == sec_views(secs@),
            forall|a: int| 0 <= a < sv.len() ==> forall|q: int| 0 <= q < (#[trigger] sv[a]).1.len() ==> sv[a].1[q] < items@.len(),
            p <= secs@.len(),
            out@ == layout(items@, sv.take(p as int)),
        decreases secs.len() - p,
    {
        let ghost t = sv.take(p + 1);
        assert(t.drop_last() =~= sv.take(p as int));
        assert(t.last() == sv[p as int]);
        assert(sv[p as int] == (secs@[p as int].0@, secs@[p as int].1@));
        if p > 0 {
            push(&mut out, '\n');
        }
        assert forall|q: int| 0 <= q < secs@[p as int].1@.len() implies #[trigger] secs@[p as int].1@[q] < items@.len() by {
            assert(sv[p as int].1[q] < items@.len());
        }
        write_section(&mut out, items, &secs[p].0, &secs[p].1);
        proof {
            if p == 0 {
                assert(t.len() == 1);
                assert(out@ =~= layout(items@, t));
            } else {
                assert(out@ =~= layout(items@, t));
            }
        }
        p += 1;
    }
    assert(sv.take(sv.len() as int) =~= sv);
    proof {
        lemma_layout_determined(items@, d@, group_by, sv);
    }
    out
}

/// `text` is the layout of every depths and sections that meet
/// `depth_ok` and `sections_ok`.
#[verifier::opaque]
pub open spec fn the_layout(items: Seq<BacklogEntry>, group_by: GroupBy, text: Seq<char>) -> bool {
    forall|d: Seq<usize>, secs: Seq<(Seq<char>, Seq<usize>)>|
        depth_ok(items, d) && #[trigger] sections_ok(items, d, group_by, secs) ==> text == layout(items, secs)
}

/// The layout is determined by the backlog and the grouping: whatever
/// depths and sections meet `depth_ok` and `sections_ok` give the same
/// text.
pub proof fn lemma_layout_determined(
    items: Seq<BacklogEntry>,
    d: Seq<usize>,
    group_by: GroupBy,
    secs: Seq<(Seq<char>, Seq<usize>)>,
)
    requires
        depth_ok(items, d),
        sections_ok(items, d, group_by, secs),
    ensures
        the_layout(items, group_by, layout(items, secs)),
{
    reveal(the_layout);
    assert forall|d2: Seq<usize>, secs2: Seq<(Seq<char>, Seq<usize>)>|
        depth_ok(items, d2) && #[trigger] sections_ok(items, d2, group_by, secs2) implies layout(items, secs)
        == layout(items, secs2) by {
        lemma_depth_unique(items, d, d2);
        lemma_sections_unique(items, d, group_by, secs, secs2);
    }
}

/// For given depths, the sections of a grouping are the only ones that
/// meet `sections_ok`.
pub proof fn lemma_sections_unique(
    items: Seq<BacklogEntry>,
    d: Seq<usize>,
    group_by: GroupBy,
    s1: Seq<(Seq<char>, Seq<usize>)>,
    s2: Seq<(Seq<char>, Seq<usize>)>,
)
    requires
        sections_ok(items, d, group_by, s1),
        sections_ok(items, d, group_by, s2),
    ensures
        s1 == s2,
{
    match group_by {
        GroupBy::Category => lemma_category_sections_unique(items, d, s1, s2),
        GroupBy::Status => lemma_status_sections_unique(items, d, s1, s2),
    }
}


// ----- uniqueness of the layout ------------------------------------------------

/// Two lists, each strictly ordered by an order that is irreflexive and
/// asymmetric on the members, and each holding exactly the members, are
/// the same list.
proof fn lemma_sorted_unique<T>(r1: Seq<T>, r2: Seq<T>, lt: spec_fn(T, T) -> bool, mem: spec_fn(T) -> bool)
    requires
        forall|a: T, b: T| mem(a) && mem(b) && #[trigger] lt(a, b) ==> !lt(b, a),
        forall|a: T| mem(a) ==> !#[trigger] lt(a, a),
        forall|p: int, q: int| 0 <= p < q < r1.len() ==> #[trigger] lt(r1[p], r1[q]),
        forall|p: int, q: int| 0 <= p < q < r2.len() ==> #[trigger] lt(r2[p], r2[q]),
        forall|p: int| 0 <= p < r1.len() ==> #[trigger] mem(r1[p]),
        forall|p: int| 0 <= p < r2.len() ==> #[trigger] mem(r2[p]),
        forall|x: T| #[trigger] mem(x) ==> r1.contains(x) && r2.contains(x),
    ensures
        r1 == r2,
    decreases r1.len(),
{
    if r1.len() == 0 {
        if r2.len() > 0 {
            assert(mem(r2[0]));
            assert(r1.contains(r2[0]));
        }
        assert(r1 =~= r2);
    } else if r2.len() == 0 {
        assert(mem(r1[0]));
        assert(r2.contains(r1[0]));
    } else {
        let a = r1[0];
        let b = r2[0];
        assert(mem(a) && mem(b));
        assert(a == b) by {
            if a != b {
                assert(r2.contains(a));
                let q = choose|q: int| 0 <= q < r2.len() && r2[q] == a;
                assert(r1.contains(b));
                let p = choose|p: int| 0 <= p < r1.len() && r1[p] == b;
                if q == 0 {
                    assert(r2[0] == a);
                } else {
                    assert(lt(r2[0], r2[q]));
                }
                if p == 0 {
                    assert(r1[0] == b);
                } else {
                    assert(lt(r1[0], r1[p]));
                }
            }
        }
        let t1 = r1.skip(1);
        let t2 = r2.skip(1);
        let mem2 = |x: T| mem(x) && x != a;
        assert forall|p: int| 0 <= p < t1.len() implies #[trigger] mem2(t1[p]) by {
            assert(t1[p] == r1[p + 1]);
            assert(lt(r1[0], r1[p + 1]));
            assert(mem(r1[p + 1]));
        }
        assert forall|p: int| 0 <= p < t2.len() implies #[trigger] mem2(t2[p]) by {
            assert(t2[p] == r2[p + 1]);
            assert(lt(r2[0], r2[p + 1]));
            assert(mem(r2[p + 1]));
        }
        assert forall|p: int, q: int| 0 <= p < q < t1.len() implies #[trigger] lt(t1[p], t1[q]) by {
            assert(lt(r1[p + 1], r1[q + 1]));
        }
        assert forall|p: int, q: int| 0 <= p < q < t2.len() implies #[trigger] lt(t2[p], t2[q]) by {
            assert(lt(r2[p + 1], r2[q + 1]));
        }
        assert forall|x: T| #[trigger] mem2(x) implies t1.contains(x) && t2.contains(x) by {
            assert(mem(x));
            let p = choose|p: int| 0 <= p < r1.len() && r1[p] == x;
            let q = choose|q: int| 0 <= q < r2.len() && r2[q] == x;
            assert(p != 0 && q != 0);
            assert(t1[p - 1] == x);
            assert(t2[q - 1] == x);
        }
        lemma_sorted_unique(t1, t2, lt, mem2);
        assert(r1 =~= seq![a] + t1);
        assert(r2 =~= seq![b] + t2);
    }
}

/// Where depths are finite in `d1`, `d2` agrees.
proof fn lemma_depth_agrees(items: Seq<BacklogEntry>, d1: Seq<usize>, d2: Seq<usize>, i: int)
    requires
        depth_ok(items, d1),
        depth_ok(items, d2),
        0 <= i < items.len(),
        d1[i] != usize::MAX,
    ensures
        d2[i] == d1[i],
    decreases d1[i],
{
    let deps = items[i].dependencies@;
    if d2[i] == usize::MAX {
        let k = choose|k: int| 0 <= k < deps.len() && has_id(items, (#[trigger] deps[k])@)
            && d2[first_id_index(items, deps[k]@)] == usize::MAX;
        let j = first_id_index(items, deps[k]@);
        lemma_first_in_range(items, deps[k]@);
        assert(d1[j] != usize::MAX && d1[j] + 1 <= d1[i]);
        lemma_depth_agrees(items, d1, d2, j);
    }
    if d1[i] != 0 {
        let k = choose|k: int| 0 <= k < deps.len() && has_id(items, (#[trigger] deps[k])@)
            && d1[first_id_index(items, deps[k]@)] + 1 == d1[i];
        let j = first_id_index(items, deps[k]@);
        lemma_first_in_range(items, deps[k]@);
        assert(d1[j] != usize::MAX);
        lemma_depth_agrees(items, d1, d2, j);
        assert(d2[j] + 1 <= d2[i]);
    }
    if d2[i] != 0 {
        let k = choose|k: int| 0 <= k < deps.len() && has_id(items, (#[trigger] deps[k])@)
            && d2[first_id_index(items, deps[k]@)] + 1 == d2[i];
        let j = first_id_index(items, deps[k]@);
        lemma_first_in_range(items, deps[k]@);
        assert(d1[j] != usize::MAX && d1[j] + 1 <= d1[i]);
        lemma_depth_agrees(items, d1, d2, j);
    }
}

proof fn lemma_first_in_range(items: Seq<BacklogEntry>, x: Seq<char>)
    requires
        has_id(items, x),
    ensures
        0 <= first_id_index(items, x) < items.len(),
{
    let k = choose|k: int| 0 <= k < items.len() && (#[trigger] items[k]).item.id@ == x;
    lemma_first_exists(items, x, k);
}

/// The depths are the only ones that meet `depth_ok`.
pub proof fn lemma_depth_unique(items: Seq<BacklogEntry>, d1: Seq<usize>, d2: Seq<usize>)
    requires
        depth_ok(items, d1),
        depth_ok(items, d2),
    ensures
        d1 == d2,
{
    assert forall|i: int| 0 <= i < d1.len() implies d1[i] == d2[i] by {
        if d1[i] != usize::MAX {
            lemma_depth_agrees(items, d1, d2, i);
        } else if d2[i] != usize::MAX {
            lemma_depth_agrees(items, d2, d1, i);
        }
    }
    assert(d1 =~= d2);
}


/// Rows that meet `rows_ok` for the same group are the same rows.
proof fn lemma_rows_unique(
    items: Seq<BacklogEntry>,
    d: Seq<usize>,
    r1: Seq<usize>,
    r2: Seq<usize>,
    g: spec_fn(int) -> bool,
)
    requires
        rows_ok(items, d, r1, g),
        rows_ok(items, d, r2, g),
    ensures
        r1 == r2,
{
    let lt = |a: usize, b: usize| row_before(items, d, a as int, b as int);
    let mem = |x: usize| (x as int) < items.len() && g(x as int);
    assert forall|p: int, q: int| 0 <= p < q < r1.len() implies #[trigger] lt(r1[p], r1[q]) by {
        assert(row_before(items, d, r1[p] as int, r1[q] as int));
    }
    assert forall|p: int, q: int| 0 <= p < q < r2.len() implies #[trigger] lt(r2[p], r2[q]) by {
        assert(row_before(items, d, r2[p] as int, r2[q] as int));
    }
    assert forall|p: int| 0 <= p < r1.len() implies #[trigger] mem(r1[p]) by {
        assert(r1[p] < items.len() && g(r1[p] as int));
    }
    assert forall|p: int| 0 <= p < r2.len() implies #[trigger] mem(r2[p]) by {
        assert(r2[p] < items.len() && g(r2[p] as int));
    }
    assert forall|x: usize| #[trigger] mem(x) implies r1.contains(x) && r2.contains(x) by {
        let i = x as int;
        assert(0 <= i < items.len() && g(i));
        assert(has_category(items, items[i].category@));
        assert(r1.contains(i as usize));
        assert(r2.contains(i as usize));
    }
    lemma_sorted_unique(r1, r2, lt, mem);
}

/// The sections by status are the only ones that meet
/// `status_sections_ok`.
proof fn lemma_status_sections_unique(
    items: Seq<BacklogEntry>,
    d: Seq<usize>,
    s1: Seq<(Seq<char>, Seq<usize>)>,
    s2: Seq<(Seq<char>, Seq<usize>)>,
)
    requires
        status_sections_ok(items, d, s1),
        status_sections_ok(items, d, s2),
    ensures
        s1 == s2,
{
    let st = present_statuses(items, 5);
    assert forall|p: int| 0 <= p < s1.len() implies s1[p] == s2[p] by {
        assert(status_rows_ok(items, d, s1[p].1, st[p]));
        assert(status_rows_ok(items, d, s2[p].1, st[p]));
        lemma_rows_unique(items, d, s1[p].1, s2[p].1, |i: int| items[i].item.status == st[p]);
    }
    assert(s1 =~= s2);
}

/// The sections by category are the only ones that meet
/// `category_sections_ok`.
proof fn lemma_category_sections_unique(
    items: Seq<BacklogEntry>,
    d: Seq<usize>,
    s1: Seq<(Seq<char>, Seq<usize>)>,
    s2: Seq<(Seq<char>, Seq<usize>)>,
)
    requires
        category_sections_ok(items, d, s1),
        category_sections_ok(items, d, s2),
    ensures
        s1 == s2,
{
    let k1 = s1.map_values(|e: (Seq<char>, Seq<usize>)| e.0);
    let k2 = s2.map_values(|e: (Seq<char>, Seq<usize>)| e.0);
    let lt = |a: Seq<char>, b: Seq<char>| cat_before(items, a, b);
    let mem = |c: Seq<char>| has_category(items, c);
    assert forall|a: Seq<char>, b: Seq<char>| mem(a) && mem(b) && #[trigger] lt(a, b) implies !lt(b, a) by {
        lemma_lex_total(lowercase(a), lowercase(b));
        lemma_lex_irreflexive(lowercase(a));
    }
    assert forall|a: Seq<char>| mem(a) implies !#[trigger] lt(a, a) by {
        lemma_lex_irreflexive(lowercase(a));
    }
    assert forall|p: int, q: int| 0 <= p < q < k1.len() implies #[trigger] lt(k1[p], k1[q]) by {
        assert(cat_before(items, s1[p].0, s1[q].0));
    }
    assert forall|p: int, q: int| 0 <= p < q < k2.len() implies #[trigger] lt(k2[p], k2[q]) by {
        assert(cat_before(items, s2[p].0, s2[q].0));
    }
    assert forall|p: int| 0 <= p < k1.len() implies #[trigger] mem(k1[p]) by {
        assert(has_category(items, s1[p].0));
    }
    assert forall|p: int| 0 <= p < k2.len() implies #[trigger] mem(k2[p]) by {
        assert(has_category(items, s2[p].0));
    }
    assert forall|c: Seq<char>| #[trigger] mem(c) implies k1.contains(c) && k2.contains(c) by {
        let i = choose|i: int| 0 <= i < items.len() && (#[trigger] items[i]).category@ == c;
        assert(lists_heading(s1, items[i].category@));
        assert(lists_heading(s2, items[i].category@));
        let p = choose|p: int| 0 <= p < s1.len() && (#[trigger] s1[p]).0 == c;
        let q = choose|q: int| 0 <= q < s2.len() && (#[trigger] s2[q]).0 == c;
        assert(k1[p] == c);
        assert(k2[q] == c);
    }
    lemma_sorted_unique(k1, k2, lt, mem);
    assert forall|p: int| 0 <= p < s1.len() implies s1[p] == s2[p] by {
        assert(k1[p] == k2[p]);
        assert(category_rows_ok(items, d, s1[p].1, s1[p].0));
        assert(category_rows_ok(items, d, s2[p].1, s2[p].0));
        lemma_rows_unique(items, d, s1[p].1, s2[p].1, |i: int| items[i].category@ == s1[p].0);
    }
    assert(s1 =~= s2);
}

} // verus!
