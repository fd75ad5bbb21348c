//! The host side of the component graph in `related-components.yaml`:
//! which names a plan's mounted targets contribute to an edge filter, the
//! check that an edge's endpoints are registered, and the order an edge's
//! participants are stored in. The edge records themselves, and their
//! validation, belong to the ontology's own types.

use vstd::prelude::*;

use crate::error::{ErrorCode, PlanError};
use crate::state::backlog::schema::contains_string;
use crate::state::targets::schema::{Target, TargetsFile};
use crate::text::{concat3, owned, str_lt, lex_lt, views};

verus! {

broadcast use vstd::string::group_string_axioms;

/// `ns` with `n` appended unless it already holds it.
pub open spec fn add_name(ns: Seq<Seq<char>>, n: Seq<char>) -> Seq<Seq<char>> {
    if ns.contains(n) {
        ns
    } else {
        ns.push(n)
    }
}

/// The names the targets contribute: each row's repo slug, then its
/// component id, each name once, in first-seen order.
pub open spec fn target_names(ts: Seq<Target>) -> Seq<Seq<char>>
    decreases ts.len(),
{
    if ts.len() == 0 {
        seq![]
    } else {
        add_name(add_name(target_names(ts.drop_last()), ts.last().repo_slug@), ts.last().component_id@)
    }
}

fn push_new(names: &mut Vec<String>, n: &String)
    ensures
        views(final(names)@) == add_name(views(old(names)@), n@),
{
    if !contains_string(names, n) {
        let ghost before = views(names@);
        names.push(owned(n.as_str()));
        assert(views(names@) =~= before.push(n@));
    }
}

/// The names an edge must involve to concern a plan: the union of its
/// targets' repo slugs and component ids, deduplicated, in target order.
/// No targets give no names (so a filter on them matches no edge).
pub fn plan_component_names(targets: &TargetsFile) -> (r: Vec<String>)
    ensures
        views(r@) == target_names(targets.targets@),
{
    let ghost ts = targets.targets@;
    let mut names: Vec<String> = Vec::new();
    let mut i: usize = 0;
    while i < targets.targets.len()
        invariant
            ts == targets.targets@,
            i <= ts.len(),
            views(names@) == target_names(ts.take(i as int)),
        decreases ts.len() - i,
    {
        assert(ts.take(i + 1).drop_last() =~= ts.take(i as int));
        push_new(&mut names, &targets.targets[i].repo_slug);
        push_new(&mut names, &targets.targets[i].component_id);
        i += 1;
    }
    assert(ts.take(ts.len() as int) =~= ts);
    names
}

/// No name occurs twice.
pub open spec fn names_unique(ns: Seq<Seq<char>>) -> bool {
    forall|i: int, j: int| 0 <= i < j < ns.len() ==> #[trigger] ns[i] != #[trigger] ns[j]
}

/// The names a plan's targets contribute never repeat, and every repo
/// slug and component id of a target is among them.
pub proof fn lemma_target_names_unique_and_complete(ts: Seq<Target>)
    ensures
        names_unique(target_names(ts)),
        forall|k: int| 0 <= k < ts.len() ==> target_names(ts).contains(#[trigger] ts[k].repo_slug@)
            && target_names(ts).contains(ts[k].component_id@),
    decreases ts.len(),
{
    if ts.len() > 0 {
        let p = ts.drop_last();
        lemma_target_names_unique_and_complete(p);
        let a = add_name(target_names(p), ts.last().repo_slug@);
        lemma_add_name(target_names(p), ts.last().repo_slug@);
        lemma_add_name(a, ts.last().component_id@);
        assert forall|k: int| 0 <= k < ts.len() implies target_names(ts).contains(#[trigger] ts[k].repo_slug@)
            && target_names(ts).contains(ts[k].component_id@) by {
            if k < p.len() {
                assert(p[k] == ts[k]);
            }
        }
    }
}

/// Adding a name keeps the names unique, keeps every name, and holds the
/// added one.
proof fn lemma_add_name(ns: Seq<Seq<char>>, n: Seq<char>)
    ensures
        names_unique(ns) ==> names_unique(add_name(ns, n)),
        add_name(ns, n).contains(n),
        forall|m: Seq<char>| ns.contains(m) ==> #[trigger] add_name(ns, n).contains(m),
{
    if !ns.contains(n) {
        let r = ns.push(n);
        assert(r[ns.len() as int] == n);
        assert forall|m: Seq<char>| ns.contains(m) implies #[trigger] r.contains(m) by {
            let w = choose|w: int| 0 <= w < ns.len() && ns[w] == m;
            assert(r[w] == m);
        }
        if names_unique(ns) {
            assert forall|i: int, j: int| 0 <= i < j < r.len() implies #[trigger] r[i] != #[trigger] r[j] by {
                if j == ns.len() {
                    assert(r[i] == ns[i]);
                } else {
                    assert(r[i] == ns[i] && r[j] == ns[j]);
                }
            }
        }
    }
}

/// The refusal for an edge endpoint the repo registry lacks.
pub open spec fn unknown_component_message(slug: Seq<char>) -> Seq<char> {
    "component '"@ + slug + "' is not in the repo registry; register it with `ravel-lite repo add "@ + slug
        + " --url <git-url> [--local-path <path>]`"@
}

/// An edge endpoint must be a registered slug; `NotFound` otherwise.
pub fn require_component_known(registered: bool, slug: &str) -> (r: Result<(), PlanError>)
    ensures
        r is Ok <==> registered,
        r matches Err(e) ==> e.code == ErrorCode::NotFound && e.message@ == unknown_component_message(slug@),
{
    if registered {
        return Ok(());
    }
    let head = concat3("component '", slug, "' is not in the repo registry; register it with `ravel-lite repo add ");
    Err(PlanError { code: ErrorCode::NotFound, message: concat3(head.as_str(), slug, " --url <git-url> [--local-path <path>]`") })
}

/// The stored participants of an edge between `a` and `b`: as given for a
/// directed kind, in ascending order for a symmetric one.
pub open spec fn canonical(directed: bool, a: Seq<char>, b: Seq<char>) -> Seq<Seq<char>> {
    if directed || !lex_lt(b, a) {
        seq![a, b]
    } else {
        seq![b, a]
    }
}

/// The participants an edge of a kind is stored with (`directed` is the
/// kind's own property).
pub fn canonical_participants(directed: bool, a: &str, b: &str) -> (r: Vec<String>)
    ensures
        views(r@) == canonical(directed, a@, b@),
{
    let mut v: Vec<String> = Vec::new();
    if directed || !str_lt(b, a) {
        v.push(owned(a));
        v.push(owned(b));
    } else {
        v.push(owned(b));
        v.push(owned(a));
    }
    assert(views(v@) =~= canonical(directed, a@, b@));
    v
}

/// A symmetric edge is stored the same whichever order its participants
/// are given in.
pub proof fn lemma_symmetric_order_insensitive(a: Seq<char>, b: Seq<char>)
    ensures
        canonical(false, a, b) == canonical(false, b, a),
{
    crate::text::lemma_lex_total(a, b);
    if a == b {
    } else if lex_lt(a, b) {
        assert(!lex_lt(b, a));
    } else {
        assert(lex_lt(b, a));
    }
}

} // verus!
