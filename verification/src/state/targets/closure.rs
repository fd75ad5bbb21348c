//! Build-closure expansion for plan targets: from an initial set of
//! `(repo, component)` refs, follow build edges (`depends-on`,
//! `links-statically`, `links-dynamically`, `has-optional-dependency`,
//! directed) to a fixed point, resolving each edge target's host repo in
//! the catalog. A target no repo holds, or one held by several, refuses
//! the walk rather than mount the wrong thing.
//!
//! The component graph and the catalog come from the caller, as plain
//! values: each edge its kind word, whether the kind is directed, and its
//! two ends; each catalog entry a repo slug and a component id, in the
//! catalog's order.

use vstd::prelude::*;

use crate::error::{ErrorCode, PlanError};
use crate::text::{debug_quote, debug_quoted, owned, push_str, str_eq};

verus! {

broadcast use vstd::string::group_string_axioms;

/// An edge of the component graph.
#[derive(Debug)]
pub struct BuildEdge {
    /// The edge kind's wire word.
    pub kind: String,
    /// Whether the kind is directed (`from` needs `to`).
    pub directed: bool,
    pub from: String,
    pub to: String,
}

/// An edge as the contracts see it.
pub ghost struct EdgeView {
    pub kind: Seq<char>,
    pub directed: bool,
    pub from: Seq<char>,
    pub to: Seq<char>,
}

impl View for BuildEdge {
    type V = EdgeView;

    open spec fn view(&self) -> EdgeView {
        EdgeView { kind: self.kind@, directed: self.directed, from: self.from@, to: self.to@ }
    }
}

/// A `(repo, component)` ref as the contracts see it.
pub type RefView = (Seq<char>, Seq<char>);

/// The views of a list of refs.
pub open spec fn ref_views(v: Seq<(String, String)>) -> Seq<RefView> {
    v.map_values(|p: (String, String)| (p.0@, p.1@))
}

/// The views of a list of edges.
pub open spec fn edge_views(v: Seq<BuildEdge>) -> Seq<EdgeView> {
    v.map_values(|e: BuildEdge| e@)
}

/// The kinds that need the dependency's source on disk to build.
pub open spec fn is_build_kind(k: Seq<char>) -> bool {
    ||| k == "depends-on"@
    ||| k == "links-statically"@
    ||| k == "links-dynamically"@
    ||| k == "has-optional-dependency"@
}

/// The walk follows the edge: a build kind, directed.
pub open spec fn follows(e: EdgeView) -> bool {
    is_build_kind(e.kind) && e.directed
}

/// The repos whose catalog holds component `id`, in catalog order.
pub open spec fn hosts(cat: Seq<RefView>, id: Seq<char>) -> Seq<Seq<char>>
    decreases cat.len(),
{
    if cat.len() == 0 {
        seq![]
    } else {
        hosts(cat.drop_last(), id) + if cat.last().1 == id {
            seq![cat.last().0]
        } else {
            seq![]
        }
    }
}

/// `s` with later repeats dropped.
pub open spec fn dedup(s: Seq<RefView>) -> Seq<RefView>
    decreases s.len(),
{
    if s.len() == 0 {
        seq![]
    } else if dedup(s.drop_last()).contains(s.last()) {
        dedup(s.drop_last())
    } else {
        dedup(s.drop_last()).push(s.last())
    }
}

/// Ref `p` of `out` was reached over a followed edge from an earlier ref.
pub open spec fn discovered_by(edges: Seq<EdgeView>, cat: Seq<RefView>, out: Seq<RefView>, p: int) -> bool {
    exists|q: int, e: int|
        #![trigger out[q], edges[e]]
        0 <= q < p && 0 <= e < edges.len() && follows(edges[e]) && edges[e].from == out[q].1 && edges[e].to
            == out[p].1 && hosts(cat, edges[e].to) == seq![out[p].0]
}

/// `out` is a walk from `init`: no ref twice, the initial refs first (in
/// order, repeats dropped), and every later ref reached over a followed
/// edge from an earlier one, in the one repo that hosts it.
pub open spec fn walk_ok(init: Seq<RefView>, edges: Seq<EdgeView>, cat: Seq<RefView>, out: Seq<RefView>) -> bool {
    &&& out.no_duplicates()
    &&& dedup(init).len() <= out.len()
    &&& out.take(dedup(init).len() as int) == dedup(init)
    &&& forall|p: int| dedup(init).len() <= p < out.len() ==> #[trigger] discovered_by(edges, cat, out, p)
}

/// The followed edge `e` out of ref `q` of `out` resolves to one host and
/// its target is in `out`.
pub open spec fn edge_closed(edges: Seq<EdgeView>, cat: Seq<RefView>, out: Seq<RefView>, q: int, e: int) -> bool {
    follows(edges[e]) && edges[e].from == out[q].1 ==> hosts(cat, edges[e].to).len() == 1 && out.contains(
        (hosts(cat, edges[e].to)[0], edges[e].to),
    )
}

/// Every followed edge out of `out` resolves and stays inside it.
pub open spec fn closed(edges: Seq<EdgeView>, cat: Seq<RefView>, out: Seq<RefView>) -> bool {
    forall|q: int, e: int| 0 <= q < out.len() && 0 <= e < edges.len() ==> #[trigger] edge_closed(edges, cat, out, q, e)
}

/// Repo slugs joined by `, `.
pub open spec fn comma_list(s: Seq<Seq<char>>) -> Seq<char>
    decreases s.len(),
{
    if s.len() == 0 {
        seq![]
    } else if s.len() == 1 {
        s[0]
    } else {
        comma_list(s.drop_last()) + ", "@ + s.last()
    }
}

/// The refusal for edge `e`, whose target has `hits` hosts (not one).
pub open spec fn bad_edge_message(e: EdgeView, hits: Seq<Seq<char>>) -> Seq<char> {
    let head = "build closure: edge "@ + debug_quoted(e.from) + " -["@ + e.kind + "]-> "@ + debug_quoted(e.to);
    if hits.len() == 0 {
        head + " targets a component not present in any registered repo's `.atlas/components.yaml`. Either an edge in `<repo>/.atlas/related-components.yaml` is stale (re-run `atlas index <repo>`) or the target component was renamed."@
    } else {
        head + " is ambiguous; component "@ + debug_quoted(e.to) + " appears in multiple registered repos: ["@
            + comma_list(hits)
            + "]. Disambiguate at the source — every component id must be unique across the registered catalog."@
    }
}

/// The walk `seen` reached ref `q`, whose followed edge `e` has no single
/// host; `err` is the refusal it gives.
pub open spec fn bad_edge(
    init: Seq<RefView>,
    edges: Seq<EdgeView>,
    cat: Seq<RefView>,
    seen: Seq<RefView>,
    q: int,
    e: int,
    err: PlanError,
) -> bool {
    &&& walk_ok(init, edges, cat, seen)
    &&& 0 <= q < seen.len()
    &&& 0 <= e < edges.len()
    &&& follows(edges[e])
    &&& edges[e].from == seen[q].1
    &&& hosts(cat, edges[e].to).len() != 1
    &&& err.code == (if hosts(cat, edges[e].to).len() == 0 {
        ErrorCode::NotFound
    } else {
        ErrorCode::Conflict
    })
    &&& err.message@ == bad_edge_message(edges[e], hosts(cat, edges[e].to))
}

fn is_build_kind_exec(k: &str) -> (r: bool)
    ensures
        r == is_build_kind(k@),
{
    str_eq(k, "depends-on") || str_eq(k, "links-statically") || str_eq(k, "links-dynamically") || str_eq(
        k,
        "has-optional-dependency",
    )
}

fn hosts_exec(catalog: &Vec<(String, String)>, id: &str) -> (r: Vec<String>)
    ensures
        crate::text::views(r@) == hosts(ref_views(catalog@), id@),
{
    let mut out: Vec<String> = Vec::new();
    let mut i: usize = 0;
    while i < catalog.len()
        invariant
            i <= catalog@.len(),
            crate::text::views(out@) == hosts(ref_views(catalog@).take(i as int), id@),
        decreases catalog.len() - i,
    {
        let ghost t = ref_views(catalog@).take(i + 1);
        assert(t.drop_last() =~= ref_views(catalog@).take(i as int));
        assert(t.last() == (catalog@[i as int].0@, catalog@[i as int].1@));
        let ghost before = crate::text::views(out@);
        if str_eq(catalog[i].1.as_str(), id) {
            out.push(owned(catalog[i].0.as_str()));
            assert(crate::text::views(out@) =~= before.push(catalog@[i as int].0@));
        }
        assert(crate::text::views(out@) =~= hosts(t, id@));
        i += 1;
    }
    assert(ref_views(catalog@).take(catalog@.len() as int) =~= ref_views(catalog@));
    out
}

fn bad_edge_error(e: &BuildEdge, hits: &Vec<String>) -> (r: PlanError)
    requires
        hits@.len() != 1,
    ensures
        r.code == (if hits@.len() == 0 {
            ErrorCode::NotFound
        } else {
            ErrorCode::Conflict
        }),
        r.message@ == bad_edge_message(e@, crate::text::views(hits@)),
{
    let mut m = owned("build closure: edge ");
    let from = debug_quote(e.from.as_str());
    push_str(&mut m, from.as_str());
    push_str(&mut m, " -[");
    push_str(&mut m, e.kind.as_str());
    push_str(&mut m, "]-> ");
    let to = debug_quote(e.to.as_str());
    push_str(&mut m, to.as_str());
    if hits.len() == 0 {
        push_str(
            &mut m,
            " targets a component not present in any registered repo's `.atlas/components.yaml`. Either an edge in `<repo>/.atlas/related-components.yaml` is stale (re-run `atlas index <repo>`) or the target component was renamed.",
        );
        PlanError { code: ErrorCode::NotFound, message: m }
    } else {
        push_str(&mut m, " is ambiguous; component ");
        push_str(&mut m, to.as_str());
        push_str(&mut m, " appears in multiple registered repos: [");
        let mut i: usize = 0;
        let ghost base = m@;
        while i < hits.len()
            invariant
                i <= hits@.len(),
                m@ == base + comma_list(crate::text::views(hits@).take(i as int)),
            decreases hits.len() - i,
        {
            let ghost t = crate::text::views(hits@).take(i + 1);
            assert(t.drop_last() =~= crate::text::views(hits@).take(i as int));
            assert(t.last() == hits@[i as int]@);
            if i > 0 {
                push_str(&mut m, ", ");
            }
            push_str(&mut m, hits[i].as_str());
            proof {
                if i == 0 {
                    assert(m@ =~= base + comma_list(t));
                } else {
                    assert(m@ =~= base + comma_list(t));
                }
            }
            i += 1;
        }
        assert(crate::text::views(hits@).take(hits@.len() as int) =~= crate::text::views(hits@));
        push_str(
            &mut m,
            "]. Disambiguate at the source — every component id must be unique across the registered catalog.",
        );
        PlanError { code: ErrorCode::Conflict, message: m }
    }
}

proof fn lemma_dedup(s: Seq<RefView>)
    ensures
        dedup(s).no_duplicates(),
        forall|x: RefView| #[trigger] dedup(s).contains(x) <==> s.contains(x),
        dedup(s).len() <= s.len(),
    decreases s.len(),
{
    if s.len() > 0 {
        let t = s.drop_last();
        lemma_dedup(t);
        let d = dedup(t);
        let l = s.last();
        assert forall|x: RefView| #[trigger] dedup(s).contains(x) <==> s.contains(x) by {
            if s.contains(x) {
                let i = choose|i: int| 0 <= i < s.len() && s[i] == x;
                if i < s.len() - 1 {
                    assert(t[i] == x);
                    assert(t.contains(x));
                    assert(d.contains(x));
                    if !d.contains(l) {
                        let j = choose|j: int| 0 <= j < d.len() && d[j] == x;
                        assert(d.push(l)[j] == x);
                    }
                } else {
                    assert(x == l);
                    if !d.contains(l) {
                        assert(d.push(l)[d.len() as int] == x);
                    }
                }
            }
            if dedup(s).contains(x) {
                if d.contains(x) {
                    assert(t.contains(x));
                    let j = choose|j: int| 0 <= j < t.len() && t[j] == x;
                    assert(s[j] == x);
                } else {
                    let j = choose|j: int| 0 <= j < dedup(s).len() && dedup(s)[j] == x;
                    assert(j == d.len());
                    assert(x == l);
                    assert(s[s.len() - 1] == x);
                }
            }
        }
        if !d.contains(l) {
            let e = d.push(l);
            assert forall|a: int, b: int| 0 <= a < e.len() && 0 <= b < e.len() && a != b implies e[a] != e[b] by {
                if a == d.len() {
                    assert(e[b] == d[b]);
                } else if b == d.len() {
                    assert(e[a] == d[a]);
                } else {
                    assert(e[a] == d[a]);
                    assert(e[b] == d[b]);
                }
            }
        }
    }
}

/// Every ref a walk can hold: the initial refs, and each edge's target in
/// its first host.
spec fn universe(init: Seq<RefView>, edges: Seq<EdgeView>, cat: Seq<RefView>) -> Seq<RefView> {
    init + edges.map_values(|e: EdgeView| (hosts(cat, e.to)[0], e.to))
}

proof fn lemma_walk_bounded(init: Seq<RefView>, edges: Seq<EdgeView>, cat: Seq<RefView>, out: Seq<RefView>)
    requires
        walk_ok(init, edges, cat, out),
    ensures
        out.len() <= init.len() + edges.len(),
{
    let u = universe(init, edges, cat);
    lemma_dedup(init);
    let d = dedup(init);
    assert forall|x: RefView| out.to_set().contains(x) implies u.to_set().contains(x) by {
        let p = choose|p: int| 0 <= p < out.len() && out[p] == x;
        if p < d.len() {
            assert(out.take(d.len() as int)[p] == x);
            assert(d.contains(x));
            assert(init.contains(x));
            let i = choose|i: int| 0 <= i < init.len() && init[i] == x;
            assert(u[i] == x);
        } else {
            assert(discovered_by(edges, cat, out, p));
            let (q, e) = choose|q: int, e: int|
                #![trigger out[q], edges[e]]
                0 <= q < p && 0 <= e < edges.len() && follows(edges[e]) && edges[e].from == out[q].1 && edges[e].to
                    == out[p].1 && hosts(cat, edges[e].to) == seq![out[p].0];
            assert(u[init.len() + e] == (hosts(cat, edges[e].to)[0], edges[e].to));
            assert(u[init.len() + e] == x);
        }
    }
    out.unique_seq_to_set();
    u.lemma_cardinality_of_set();
    vstd::set_lib::lemma_len_subset(out.to_set(), u.to_set());
}

fn contains_ref(v: &Vec<(String, String)>, k: &(String, String)) -> (r: bool)
    ensures
        r == ref_views(v@).contains((k.0@, k.1@)),
{
    let mut i: usize = 0;
    while i < v.len()
        invariant
            i <= v@.len(),
            forall|j: int| 0 <= j < i ==> ref_views(v@)[j] != (k.0@, k.1@),
        decreases v.len() - i,
    {
        if str_eq(v[i].0.as_str(), k.0.as_str()) && str_eq(v[i].1.as_str(), k.1.as_str()) {
            assert(ref_views(v@)[i as int] == (k.0@, k.1@));
            return true;
        }
        i += 1;
    }
    false
}

/// Expand `initial` to its build closure: the initial refs first (repeats
/// dropped), then every ref reached over followed edges, each at most
/// once, found breadth first. An edge out of a reached ref whose target
/// has no host is `NotFound`; one with several hosts is `Conflict`,
/// listing them.
pub fn expand_build_closure(
    initial: &Vec<(String, String)>,
    edges: &Vec<BuildEdge>,
    catalog: &Vec<(String, String)>,
) -> (r: Result<Vec<(String, String)>, PlanError>)
    ensures
        r matches Ok(out) ==> walk_ok(ref_views(initial@), edge_views(edges@), ref_views(catalog@), ref_views(out@))
            && closed(edge_views(edges@), ref_views(catalog@), ref_views(out@)),
        r matches Err(err) ==> exists|seen: Seq<RefView>, q: int, e: int|
            #[trigger] bad_edge(ref_views(initial@), edge_views(edges@), ref_views(catalog@), seen, q, e, err),
{
    let ghost iv = ref_views(initial@);
    let ghost ev = edge_views(edges@);
    let ghost cv = ref_views(catalog@);
    let mut order: Vec<(String, String)> = Vec::new();
    let mut i: usize = 0;
    while i < initial.len()
        invariant
            iv == ref_views(initial@),
            i <= initial@.len(),
            ref_views(order@) == dedup(iv.take(i as int)),
        decreases initial.len() - i,
    {
        let ghost t = iv.take(i + 1);
        assert(t.drop_last() =~= iv.take(i as int));
        assert(t.last() == (initial@[i as int].0@, initial@[i as int].1@));
        if !contains_ref(&order, &initial[i]) {
            let ghost before = ref_views(order@);
            order.push((owned(initial[i].0.as_str()), owned(initial[i].1.as_str())));
            assert(ref_views(order@) =~= before.push(t.last()));
        }
        i += 1;
    }
    assert(iv.take(iv.len() as int) =~= iv);
    proof {
        lemma_dedup(iv);
        let ov = ref_views(order@);
        assert(ov.take(dedup(iv).len() as int) =~= dedup(iv));
        assert(walk_ok(iv, ev, cv, ov));
        lemma_walk_bounded(iv, ev, cv, ov);
    }
    let mut head: usize = 0;
    while head < order.len()
        invariant
            iv == ref_views(initial@),
            ev == edge_views(edges@),
            cv == ref_views(catalog@),
            walk_ok(iv, ev, cv, ref_views(order@)),
            head <= order@.len(),
            order@.len() <= iv.len() + ev.len(),
            forall|q: int, e: int| 0 <= q < head && 0 <= e < ev.len() ==> #[trigger] edge_closed(ev, cv, ref_views(order@), q, e),
        decreases iv.len() + ev.len() - head,
    {
        let cid = owned(order[head].1.as_str());
        assert(cid@ == ref_views(order@)[head as int].1);
        let mut k: usize = 0;
        while k < edges.len()
            invariant
                iv == ref_views(initial@),
                ev == edge_views(edges@),
                cv == ref_views(catalog@),
                walk_ok(iv, ev, cv, ref_views(order@)),
                head < order@.len(),
                cid@ == ref_views(order@)[head as int].1,
                order@.len() <= iv.len() + ev.len(),
                k <= ev.len(),
                forall|q: int, e: int|
                    (0 <= q < head && 0 <= e < ev.len()) || (q == head && 0 <= e < k) ==> #[trigger] edge_closed(
                        ev,
                        cv,
                        ref_views(order@),
                        q,
                        e,
                    ),
            decreases edges.len() - k,
        {
            let e = &edges[k];
            assert(ev[k as int] == e@);
            if e.directed && is_build_kind_exec(e.kind.as_str()) && str_eq(e.from.as_str(), cid.as_str()) {
                let hits = hosts_exec(catalog, e.to.as_str());
                if hits.len() != 1 {
                    let err = bad_edge_error(e, &hits);
                    assert(bad_edge(iv, ev, cv, ref_views(order@), head as int, k as int, err));
                    return Err(err);
                }
                let key = (owned(hits[0].as_str()), owned(e.to.as_str()));
                assert(crate::text::views(hits@)[0] == hits@[0]@);
                if !contains_ref(&order, &key) {
                    let ghost before = ref_views(order@);
                    order.push(key);
                    proof {
                        let ov = ref_views(order@);
                        assert(ov =~= before.push((key.0@, key.1@)));
                        assert forall|a: int, b: int| 0 <= a < ov.len() && 0 <= b < ov.len() && a != b implies ov[a] != ov[b] by {
                            if a == before.len() {
                                assert(before.contains(ov[b]) ==> ov[b] != ov[a]);
                            } else if b == before.len() {
                                assert(before[a] == ov[a]);
                            }
                        }
                        assert(ov.take(dedup(iv).len() as int) =~= before.take(dedup(iv).len() as int));
                        assert forall|p: int| dedup(iv).len() <= p < ov.len() implies #[trigger] discovered_by(ev, cv, ov, p) by {
                            if p == before.len() {
                                assert(ov[head as int] == before[head as int]);
                                assert(hosts(cv, ev[k as int].to) =~= seq![ov[p].0]);
                                assert(follows(ev[k as int]));
                                assert(ev[k as int].from == ov[head as int].1);
                                assert(ev[k as int].to == ov[p].1);
                                assert(ov[head as int] == ov[head as int] && ev[k as int] == ev[k as int]);
                            } else {
                                assert(discovered_by(ev, cv, before, p));
                                let (q, e2) = choose|q: int, e2: int|
                                    #![trigger before[q], ev[e2]]
                                    0 <= q < p && 0 <= e2 < ev.len() && follows(ev[e2]) && ev[e2].from == before[q].1
                                        && ev[e2].to == before[p].1 && hosts(cv, ev[e2].to) == seq![before[p].0];
                                assert(ov[q] == before[q]);
                                assert(ov[p] == before[p]);
                            }
                        }
                        assert(walk_ok(iv, ev, cv, ov));
                        lemma_walk_bounded(iv, ev, cv, ov);
                        assert forall|q: int, e2: int|
                            (0 <= q < head && 0 <= e2 < ev.len()) || (q == head && 0 <= e2 < k + 1) implies #[trigger] edge_closed(
                            ev,
                            cv,
                            ov,
                            q,
                            e2,
                        ) by {
                            if q == head && e2 == k {
                                assert(ov[before.len() as int] == (hosts(cv, ev[k as int].to)[0], ev[k as int].to));
                            } else {
                                assert(edge_closed(ev, cv, before, q, e2));
                                assert(ov[q] == before[q]);
                                if follows(ev[e2]) && ev[e2].from == before[q].1 {
                                    let w = choose|w: int| 0 <= w < before.len() && before[w] == (hosts(cv, ev[e2].to)[0], ev[e2].to);
                                    assert(ov[w] == before[w]);
                                }
                            }
                        }
                    }
                } else {
                    proof {
                        let ov = ref_views(order@);
                        assert(edge_closed(ev, cv, ov, head as int, k as int));
                    }
                }
            }
            k += 1;
        }
        head += 1;
    }
    Ok(order)
}

proof fn lemma_dedup_of_distinct(s: Seq<RefView>)
    requires
        s.no_duplicates(),
    ensures
        dedup(s) == s,
    decreases s.len(),
{
    if s.len() > 0 {
        let t = s.drop_last();
        assert(t.no_duplicates());
        lemma_dedup_of_distinct(t);
        if t.contains(s.last()) {
            let j = choose|j: int| 0 <= j < t.len() && t[j] == s.last();
            assert(s[j] == s[s.len() - 1]);
        }
        assert(t.push(s.last()) =~= s);
    }
}

/// Expanding a closed set again adds nothing: when `first` is a closed
/// walk, every walk from `first` that the expansion can give is `first`
/// itself.
pub proof fn lemma_closure_idempotent(
    init: Seq<RefView>,
    edges: Seq<EdgeView>,
    cat: Seq<RefView>,
    first: Seq<RefView>,
    second: Seq<RefView>,
)
    requires
        walk_ok(init, edges, cat, first),
        closed(edges, cat, first),
        walk_ok(first, edges, cat, second),
    ensures
        second == first,
{
    lemma_dedup_of_distinct(first);
    assert(second.take(first.len() as int) == first);
    if second.len() > first.len() {
        let p = first.len() as int;
        assert(discovered_by(edges, cat, second, p));
        let (q, e) = choose|q: int, e: int|
            #![trigger second[q], edges[e]]
            0 <= q < p && 0 <= e < edges.len() && follows(edges[e]) && edges[e].from == second[q].1 && edges[e].to
                == second[p].1 && hosts(cat, edges[e].to) == seq![second[p].0];
        assert(second[q] == second.take(p)[q]);
        assert(edge_closed(edges, cat, first, q, e));
        let w = choose|w: int| 0 <= w < first.len() && first[w] == (hosts(cat, edges[e].to)[0], edges[e].to);
        assert(second[w] == second.take(p)[w]);
        assert(second[w] == second[p]);
    }
    assert(second =~= second.take(first.len() as int));
}


/// Expanding the output of an expansion again is refused for no edge: a
/// closed walk gives every followed edge out of every walk from it a
/// single host. With `lemma_closure_idempotent`, the second expansion
/// succeeds and gives the first output back.
pub proof fn lemma_closure_rerun_succeeds(
    init: Seq<RefView>,
    edges: Seq<EdgeView>,
    cat: Seq<RefView>,
    first: Seq<RefView>,
)
    requires
        walk_ok(init, edges, cat, first),
        closed(edges, cat, first),
    ensures
        forall|seen: Seq<RefView>, q: int, e: int, err: PlanError|
            !#[trigger] bad_edge(first, edges, cat, seen, q, e, err),
        forall|second: Seq<RefView>| #[trigger] walk_ok(first, edges, cat, second) ==> second == first,
{
    assert forall|second: Seq<RefView>| #[trigger] walk_ok(first, edges, cat, second) implies second == first by {
        lemma_closure_idempotent(init, edges, cat, first, second);
    }
    assert forall|seen: Seq<RefView>, q: int, e: int, err: PlanError|
        !#[trigger] bad_edge(first, edges, cat, seen, q, e, err) by {
        if bad_edge(first, edges, cat, seen, q, e, err) {
            lemma_closure_idempotent(init, edges, cat, first, seen);
            assert(edge_closed(edges, cat, first, q, e));
        }
    }
}

} // verus!
