//! The per-user list of related-project edges.
//!
//! Edges relate projects by name. Two kinds share one two-participant
//! shape: `sibling`, an unordered pair (identified regardless of the
//! order of its participants), and `parent-of`, an ordered pair
//! `[parent, child]` whose direction is part of its identity. Also here:
//! the legacy `related-plans.md` reader that the migration uses, and the
//! edge merge it performs.

use vstd::prelude::*;

use crate::error::{ErrorCode, PlanError};
use crate::lines::{lines_of, split_lines};
use crate::text::{
    chars_of, concat2, concat3, find_from, occurs_at, owned, push_str, replace_all, replace_str,
    seq_starts_with, slice_chars, starts_with, str_eq, string_from_chars, trim, trim_chars,
    trim_end, trim_bounds, views, chars_eq,
};
use crate::plan_kg::{clone_strings, opt_view};
use crate::paths::{parent_of, path_parent};
use crate::lines::{trim_end_char};

verus! {

broadcast use vstd::string::group_string_axioms;

/// The file's name inside the config root.
pub const RELATED_PROJECTS_FILE: &'static str = "related-projects.yaml";

/// The only schema version in circulation.
pub const SCHEMA_VERSION: u32 = 1;

/// The two kinds of relation between projects.
#[derive(Debug, Clone, Copy, PartialEq, Eq, Structural)]
pub enum EdgeKind {
    Sibling,
    ParentOf,
}

impl EdgeKind {
    /// The kind's wire word.
    pub open spec fn spec_word(self) -> Seq<char> {
        match self {
            EdgeKind::Sibling => "sibling"@,
            EdgeKind::ParentOf => "parent-of"@,
        }
    }

    /// The kind's name in the file.
    pub fn as_str(self) -> (r: &'static str)
        ensures
            r@ == self.spec_word(),
    {
        match self {
            EdgeKind::Sibling => "sibling",
            EdgeKind::ParentOf => "parent-of",
        }
    }

    /// The kind with the given name.
    pub fn parse(s: &str) -> (r: Option<EdgeKind>)
        ensures
            r == (if s@ == "sibling"@ {
                Some(EdgeKind::Sibling)
            } else if s@ == "parent-of"@ {
                Some(EdgeKind::ParentOf)
            } else {
                None
            }),
    {
        if str_eq(s, "sibling") {
            Some(EdgeKind::Sibling)
        } else if str_eq(s, "parent-of") {
            Some(EdgeKind::ParentOf)
        } else {
            None
        }
    }
}

/// One relation between projects, named by their names.
#[derive(Debug)]
pub struct Edge {
    pub kind: EdgeKind,
    pub participants: Vec<String>,
}

/// An edge's content: its kind and participant names.
pub open spec fn ev(e: Edge) -> (EdgeKind, Seq<Seq<char>>) {
    (e.kind, views(e.participants@))
}

/// The contents of a list of edges.
pub open spec fn edge_views(es: Seq<Edge>) -> Seq<(EdgeKind, Seq<Seq<char>>)> {
    es.map_values(|e: Edge| ev(e))
}

/// Why an edge is refused: a count of participants other than two (the
/// participants listed as `debug_list` prints them), or a participant
/// that appears twice.
pub open spec fn edge_refusal(v: (EdgeKind, Seq<Seq<char>>)) -> Seq<char> {
    if v.1.len() != 2 {
        "edge must have exactly 2 participants, got "@ + crate::text::decimal(v.1.len()) + " ("@
            + crate::text::debug_list(v.1) + ")"@
    } else {
        "edge participants must be distinct; '"@ + v.1[0] + "' appears twice"@
    }
}

/// Exactly two distinct participants.
pub open spec fn edge_valid(v: (EdgeKind, Seq<Seq<char>>)) -> bool {
    v.1.len() == 2 && v.1[0] != v.1[1]
}

/// `v` has the identity of `k`: the same kind, and the same participants,
/// in order for `parent-of`, in either order for `sibling`.
pub open spec fn same_key(v: (EdgeKind, Seq<Seq<char>>), k: (EdgeKind, Seq<Seq<char>>)) -> bool {
    &&& v.0 == k.0
    &&& v.1.len() == 2
    &&& k.1.len() == 2
    &&& match k.0 {
        EdgeKind::Sibling => (v.1[0] == k.1[0] && v.1[1] == k.1[1]) || (v.1[0] == k.1[1] && v.1[1]
            == k.1[0]),
        EdgeKind::ParentOf => v.1[0] == k.1[0] && v.1[1] == k.1[1],
    }
}

/// Some edge of `es` has the identity of `k`.
pub open spec fn has_key(es: Seq<(EdgeKind, Seq<Seq<char>>)>, k: (EdgeKind, Seq<Seq<char>>)) -> bool {
    exists|i: int| 0 <= i < es.len() && same_key(#[trigger] es[i], k)
}

/// `es` without the edges that have the identity of `k`.
pub open spec fn without_key(es: Seq<(EdgeKind, Seq<Seq<char>>)>, k: (EdgeKind, Seq<Seq<char>>)) -> Seq<
    (EdgeKind, Seq<Seq<char>>),
>
    decreases es.len(),
{
    if es.len() == 0 {
        seq![]
    } else {
        without_key(es.drop_last(), k) + if same_key(es.last(), k) {
            seq![]
        } else {
            seq![es.last()]
        }
    }
}

fn pair(a: &str, b: &str) -> (r: Vec<String>)
    ensures
        views(r@) == seq![a@, b@],
{
    let mut v: Vec<String> = Vec::new();
    v.push(owned(a));
    v.push(owned(b));
    assert(views(v@) =~= seq![a@, b@]);
    v
}

impl Edge {
    /// A sibling edge between `a` and `b`.
    pub fn sibling(a: &str, b: &str) -> (r: Edge)
        ensures
            ev(r) == (EdgeKind::Sibling, seq![a@, b@]),
    {
        Edge { kind: EdgeKind::Sibling, participants: pair(a, b) }
    }

    /// `parent` is a parent of `child`.
    pub fn parent_of(parent: &str, child: &str) -> (r: Edge)
        ensures
            ev(r) == (EdgeKind::ParentOf, seq![parent@, child@]),
    {
        Edge { kind: EdgeKind::ParentOf, participants: pair(parent, child) }
    }

    /// A copy of the edge.
    pub fn duplicate(&self) -> (r: Edge)
        ensures
            ev(r) == ev(*self),
    {
        Edge { kind: self.kind, participants: clone_strings(&self.participants) }
    }

    /// Refuses an edge without exactly two distinct participants.
    pub fn validate(&self) -> (r: Result<(), PlanError>)
        ensures
            r is Ok <==> edge_valid(ev(*self)),
            r matches Err(e) ==> e.code == ErrorCode::InvalidInput && e.message@ == edge_refusal(ev(*self)),
    {
        if self.participants.len() != 2 {
            let n = crate::text::decimal_string(self.participants.len() as u64);
            let listed = crate::text::debug_list_exec(&self.participants);
            let mut msg = concat3("edge must have exactly 2 participants, got ", n.as_str(), " (");
            push_str(&mut msg, listed.as_str());
            push_str(&mut msg, ")");
            return Err(PlanError { code: ErrorCode::InvalidInput, message: msg });
        }
        assert(views(self.participants@)[0] == self.participants@[0]@);
        assert(views(self.participants@)[1] == self.participants@[1]@);
        if str_eq(self.participants[0].as_str(), self.participants[1].as_str()) {
            return Err(
                PlanError {
                    code: ErrorCode::InvalidInput,
                    message: concat3(
                        "edge participants must be distinct; '",
                        self.participants[0].as_str(),
                        "' appears twice",
                    ),
                },
            );
        }
        Ok(())
    }

    /// The edge names `project_name` as a participant.
    pub fn involves(&self, project_name: &str) -> (r: bool)
        ensures
            r == views(self.participants@).contains(project_name@),
    {
        let mut i: usize = 0;
        while i < self.participants.len()
            invariant
                i <= self.participants@.len(),
                forall|k: int| 0 <= k < i ==> (#[trigger] self.participants@[k])@ != project_name@,
            decreases self.participants.len() - i,
        {
            if str_eq(self.participants[i].as_str(), project_name) {
                assert(views(self.participants@)[i as int] == project_name@);
                return true;
            }
            i += 1;
        }
        assert forall|k: int| 0 <= k < views(self.participants@).len() implies views(
            self.participants@,
        )[k] != project_name@ by {
            assert(views(self.participants@)[k] == self.participants@[k]@);
        }
        false
    }
}

/// `e` has the identity of the valid edge `k`.
fn same_key_exec(e: &Edge, k: &Edge) -> (r: bool)
    requires
        edge_valid(ev(*k)),
    ensures
        r == same_key(ev(*e), ev(*k)),
{
    if e.kind != k.kind || e.participants.len() != 2 {
        return false;
    }
    let ghost ve = views(e.participants@);
    let ghost vk = views(k.participants@);
    assert(ve[0] == e.participants@[0]@ && ve[1] == e.participants@[1]@);
    assert(vk[0] == k.participants@[0]@ && vk[1] == k.participants@[1]@);
    let a0 = e.participants[0].as_str();
    let a1 = e.participants[1].as_str();
    let b0 = k.participants[0].as_str();
    let b1 = k.participants[1].as_str();
    match k.kind {
        EdgeKind::Sibling => (str_eq(a0, b0) && str_eq(a1, b1)) || (str_eq(a0, b1) && str_eq(a1, b0)),
        EdgeKind::ParentOf => str_eq(a0, b0) && str_eq(a1, b1),
    }
}

/// The whole edge file.
#[derive(Debug)]
pub struct RelatedProjectsFile {
    pub schema_version: u32,
    pub edges: Vec<Edge>,
}

impl Default for RelatedProjectsFile {
    fn default() -> (r: Self)
        ensures
            r.schema_version == SCHEMA_VERSION,
            r.edges@.len() == 0,
    {
        RelatedProjectsFile { schema_version: SCHEMA_VERSION, edges: Vec::new() }
    }
}

/// The refusal for a file of another schema version.
pub open spec fn version_message(path: Seq<char>, found: u32) -> Seq<char> {
    path + " has schema_version "@ + crate::text::decimal(found as nat) + " but this ravel-lite expects "@
        + crate::text::decimal(SCHEMA_VERSION as nat) + "; aborting to avoid data loss"@
}

/// A loaded file is accepted when it has the schema version in
/// circulation (else `Conflict`) and every edge has two distinct
/// participants (else `InvalidInput`, naming the file).
pub fn check_loaded(path: &str, file: &RelatedProjectsFile) -> (r: Result<(), PlanError>)
    ensures
        r is Ok <==> file.schema_version == SCHEMA_VERSION && forall|i: int|
            0 <= i < file.edges@.len() ==> edge_valid(#[trigger] ev(file.edges@[i])),
        file.schema_version != SCHEMA_VERSION ==> (r matches Err(e) && e.code == ErrorCode::Conflict
            && e.message@ == version_message(path@, file.schema_version)),
        file.schema_version == SCHEMA_VERSION && r is Err ==> r->Err_0.code == ErrorCode::InvalidInput,
{
    if file.schema_version != SCHEMA_VERSION {
        let mut m = owned(path);
        push_str(&mut m, " has schema_version ");
        let f = crate::text::decimal_string(file.schema_version as u64);
        push_str(&mut m, f.as_str());
        push_str(&mut m, " but this ravel-lite expects ");
        let x = crate::text::decimal_string(SCHEMA_VERSION as u64);
        push_str(&mut m, x.as_str());
        push_str(&mut m, "; aborting to avoid data loss");
        return Err(PlanError { code: ErrorCode::Conflict, message: m });
    }
    let mut i: usize = 0;
    while i < file.edges.len()
        invariant
            file.schema_version == SCHEMA_VERSION,
            i <= file.edges@.len(),
            forall|k: int| 0 <= k < i ==> edge_valid(#[trigger] ev(file.edges@[k])),
        decreases file.edges.len() - i,
    {
        if let Err(e) = file.edges[i].validate() {
            let head = concat3("invalid edge in ", path, ": ");
            return Err(PlanError { code: ErrorCode::InvalidInput, message: concat2(head.as_str(), e.message.as_str()) });
        }
        i += 1;
    }
    Ok(())
}

fn find_key(edges: &Vec<Edge>, k: &Edge) -> (r: bool)
    requires
        edge_valid(ev(*k)),
    ensures
        r == has_key(edge_views(edges@), ev(*k)),
{
    let mut i: usize = 0;
    while i < edges.len()
        invariant
            edge_valid(ev(*k)),
            i <= edges@.len(),
            forall|j: int| 0 <= j < i ==> !same_key(#[trigger] edge_views(edges@)[j], ev(*k)),
        decreases edges.len() - i,
    {
        assert(edge_views(edges@)[i as int] == ev(edges@[i as int]));
        if same_key_exec(&edges[i], k) {
            return true;
        }
        i += 1;
    }
    false
}

impl RelatedProjectsFile {
    /// Append `edge` unless an edge with its identity is already present.
    /// `Ok(true)` when it was added, `Ok(false)` when it was already there.
    pub fn add_edge(&mut self, edge: Edge) -> (r: Result<bool, PlanError>)
        ensures
            final(self).schema_version == old(self).schema_version,
            r is Err <==> !edge_valid(ev(edge)),
            r matches Err(e) ==> e.code == ErrorCode::InvalidInput && e.message@ == edge_refusal(ev(edge)),
            r is Err ==> final(self).edges@ == old(self).edges@,
            r matches Ok(added) ==> added == !has_key(edge_views(old(self).edges@), ev(edge)),
            r == Ok::<bool, PlanError>(true) ==> final(self).edges@ == old(self).edges@.push(edge),
            r == Ok::<bool, PlanError>(false) ==> final(self).edges@ == old(self).edges@,
    {
        match edge.validate() {
            Err(e) => return Err(e),
            Ok(()) => {},
        }
        if find_key(&self.edges, &edge) {
            return Ok(false);
        }
        self.edges.push(edge);
        Ok(true)
    }

    /// Remove every edge with the identity of `edge`; `Ok(true)` when any
    /// was removed.
    pub fn remove_edge(&mut self, edge: &Edge) -> (r: Result<bool, PlanError>)
        ensures
            final(self).schema_version == old(self).schema_version,
            r is Err <==> !edge_valid(ev(*edge)),
            r matches Err(e) ==> e.code == ErrorCode::InvalidInput && e.message@ == edge_refusal(ev(*edge)),
            r is Err ==> final(self).edges@ == old(self).edges@,
            r matches Ok(removed) ==> removed == has_key(edge_views(old(self).edges@), ev(*edge))
                && edge_views(final(self).edges@) == without_key(
                edge_views(old(self).edges@),
                ev(*edge),
            ),
    {
        match edge.validate() {
            Err(e) => return Err(e),
            Ok(()) => {},
        }
        let ghost olds = edge_views(self.edges@);
        let mut kept: Vec<Edge> = Vec::new();
        let mut removed = false;
        let mut i: usize = 0;
        while i < self.edges.len()
            invariant
                edge_valid(ev(*edge)),
                olds == edge_views(self.edges@),
                i <= self.edges@.len(),
                edge_views(kept@) == without_key(olds.take(i as int), ev(*edge)),
                removed == has_key(olds.take(i as int), ev(*edge)),
            decreases self.edges.len() - i,
        {
            proof {
                assert(olds.take(i + 1).drop_last() =~= olds.take(i as int));
                assert(olds.take(i + 1).last() == ev(self.edges@[i as int]));
            }
            let ghost before = edge_views(kept@);
            if same_key_exec(&self.edges[i], edge) {
                removed = true;
                assert(before + seq![] =~= before);
                assert(same_key(olds.take(i + 1)[i as int], ev(*edge)));
            } else {
                let d = self.edges[i].duplicate();
                kept.push(d);
                assert(edge_views(kept@) =~= before + seq![ev(d)]);
                proof {
                    if has_key(olds.take(i + 1), ev(*edge)) {
                        let w = choose|w: int|
                            0 <= w < olds.take(i + 1).len() && same_key(
                                #[trigger] olds.take(i + 1)[w],
                                ev(*edge),
                            );
                        assert(olds.take(i as int)[w] == olds.take(i + 1)[w]);
                    }
                }
            }
            proof {
                if removed && has_key(olds.take(i as int), ev(*edge)) {
                    let w = choose|w: int|
                        0 <= w < olds.take(i as int).len() && same_key(
                            #[trigger] olds.take(i as int)[w],
                            ev(*edge),
                        );
                    assert(olds.take(i + 1)[w] == olds.take(i as int)[w]);
                }
            }
            i += 1;
        }
        assert(olds.take(olds.len() as int) =~= olds);
        self.edges = kept;
        Ok(removed)
    }
}

/// No edge left in `without_key(es, k)` has the identity of `k`.
pub proof fn lemma_without_key_removes(es: Seq<(EdgeKind, Seq<Seq<char>>)>, k: (EdgeKind, Seq<Seq<char>>))
    ensures
        !has_key(without_key(es, k), k),
        without_key(es, k).len() <= es.len(),
    decreases es.len(),
{
    if es.len() > 0 {
        lemma_without_key_removes(es.drop_last(), k);
        let w = without_key(es.drop_last(), k);
        let tail = if same_key(es.last(), k) {
            seq![]
        } else {
            seq![es.last()]
        };
        assert forall|i: int| 0 <= i < (w + tail).len() implies !same_key(#[trigger] (w + tail)[i], k) by {
            if i < w.len() {
                assert((w + tail)[i] == w[i]);
            }
        }
    }
}

/// Adding an edge twice changes the file once: once an edge is present,
/// adding it again (or, for a sibling, its reversal) finds it.
pub proof fn lemma_add_edge_idempotent(es: Seq<(EdgeKind, Seq<Seq<char>>)>, e: (EdgeKind, Seq<Seq<char>>))
    requires
        edge_valid(e),
    ensures
        has_key(es.push(e), e),
        e.0 == EdgeKind::Sibling ==> has_key(es.push(e), (e.0, seq![e.1[1], e.1[0]])),
{
    assert(same_key(es.push(e)[es.len() as int], e));
    if e.0 == EdgeKind::Sibling {
        assert(same_key(es.push(e)[es.len() as int], (e.0, seq![e.1[1], e.1[0]])));
    }
}

/// A sibling edge has the same identity whichever order its participants
/// are given in; a parent-of edge and its reversal differ.
pub proof fn lemma_sibling_order_insensitive(a: Seq<char>, b: Seq<char>)
    requires
        a != b,
    ensures
        same_key((EdgeKind::Sibling, seq![a, b]), (EdgeKind::Sibling, seq![b, a])),
        !same_key((EdgeKind::ParentOf, seq![a, b]), (EdgeKind::ParentOf, seq![b, a])),
{
}

/// Removing an edge right after adding it leaves no edge with its
/// identity, and keeps every edge that had another identity.
pub proof fn lemma_remove_after_add(es: Seq<(EdgeKind, Seq<Seq<char>>)>, e: (EdgeKind, Seq<Seq<char>>))
    requires
        edge_valid(e),
    ensures
        !has_key(without_key(es.push(e), e), e),
        without_key(es.push(e), e) == without_key(es, e),
{
    lemma_without_key_removes(es.push(e), e);
    assert(es.push(e).drop_last() =~= es);
    assert(same_key(es.push(e).last(), e));
    assert(without_key(es, e) + seq![] =~= without_key(es, e));
}

/// Adding an edge the file lacks and then removing any edge with the same
/// identity (for a sibling, the reversed pair too) finds it, gives the
/// file back as it was, and leaves nothing for a further removal.
pub proof fn lemma_remove_equivalent_after_add(
    es: Seq<(EdgeKind, Seq<Seq<char>>)>,
    e: (EdgeKind, Seq<Seq<char>>),
    e2: (EdgeKind, Seq<Seq<char>>),
)
    requires
        edge_valid(e),
        edge_valid(e2),
        same_key(e2, e),
        !has_key(es, e),
    ensures
        has_key(es.push(e), e2),
        without_key(es.push(e), e2) == es,
        !has_key(without_key(es.push(e), e2), e2),
{
    assert(same_key(es.push(e)[es.len() as int], e2));
    assert forall|i: int| 0 <= i < es.len() implies !same_key(#[trigger] es[i], e2) by {
        assert(!same_key(es[i], e));
    }
    lemma_without_key_keeps_all(es, e2);
    assert(es.push(e).drop_last() =~= es);
    assert(es + seq![] =~= es);
    lemma_without_key_removes(es.push(e), e2);
}

// ----- verbs ------------------------------------------------------------------

/// Participant names with `old` replaced by `new`.
pub open spec fn renamed(ps: Seq<Seq<char>>, old: Seq<char>, new: Seq<char>) -> Seq<Seq<char>> {
    ps.map_values(|p: Seq<char>| if p == old { new } else { p })
}

/// Rewrite every participant named `old` to `new`; the result says
/// whether any edge changed.
pub fn rename_project_in_edges(file: &mut RelatedProjectsFile, old_name: &str, new_name: &str) -> (changed: bool)
    ensures
        final(file).schema_version == old(file).schema_version,
        final(file).edges@.len() == old(file).edges@.len(),
        forall|i: int|
            0 <= i < old(file).edges@.len() ==> (#[trigger] final(file).edges@[i]).kind == old(
                file,
            ).edges@[i].kind && views(final(file).edges@[i].participants@) == renamed(
                views(old(file).edges@[i].participants@),
                old_name@,
                new_name@,
            ),
        changed == exists|i: int|
            0 <= i < old(file).edges@.len() && views(
                (#[trigger] old(file).edges@[i]).participants@,
            ).contains(old_name@),
{
    let ghost olds = file.edges@;
    let mut changed = false;
    let mut i: usize = 0;
    while i < file.edges.len()
        invariant
            file.schema_version == old(file).schema_version,
            olds == old(file).edges@,
            file.edges@.len() == olds.len(),
            i <= olds.len(),
            forall|j: int| i <= j < olds.len() ==> #[trigger] file.edges@[j] == olds[j],
            forall|j: int|
                0 <= j < i ==> (#[trigger] file.edges@[j]).kind == olds[j].kind && views(
                    file.edges@[j].participants@,
                ) == renamed(views(olds[j].participants@), old_name@, new_name@),
            changed == exists|j: int|
                0 <= j < i && views((#[trigger] olds[j]).participants@).contains(old_name@),
        decreases olds.len() - i,
    {
        let e = &file.edges[i];
        let n = e.participants.len();
        let mut ps: Vec<String> = Vec::new();
        let mut hit = false;
        let mut k: usize = 0;
        while k < n
            invariant
                n == e.participants@.len(),
                k <= n,
                views(ps@) == renamed(views(e.participants@), old_name@, new_name@).take(k as int),
                hit == views(e.participants@).take(k as int).contains(old_name@),
            decreases n - k,
        {
            let ghost before = views(ps@);
            let ghost p = views(e.participants@)[k as int];
            assert(p == e.participants@[k as int]@);
            let x = if str_eq(e.participants[k].as_str(), old_name) {
                hit = true;
                owned(new_name)
            } else {
                owned(e.participants[k].as_str())
            };
            ps.push(x);
            proof {
                let rn = renamed(views(e.participants@), old_name@, new_name@);
                assert(x@ == (if p == old_name@ { new_name@ } else { p }));
                assert(rn[k as int] == (if p == old_name@ { new_name@ } else { p }));
                assert(views(ps@) =~= before.push(x@));
                assert(rn.take(k + 1) =~= rn.take(k as int).push(rn[k as int]));
                let t1 = views(e.participants@).take(k + 1);
                let t0 = views(e.participants@).take(k as int);
                assert(t1 =~= t0.push(p));
                if t0.contains(old_name@) {
                    let w = choose|w: int| 0 <= w < t0.len() && t0[w] == old_name@;
                    assert(t1[w] == t0[w]);
                }
                if p == old_name@ {
                    assert(t1[k as int] == old_name@);
                }
                if t1.contains(old_name@) {
                    let w = choose|w: int| 0 <= w < t1.len() && t1[w] == old_name@;
                    if w < k {
                        assert(t0[w] == t1[w]);
                    }
                }
            }
            k += 1;
        }
        assert(views(e.participants@).take(n as int) =~= views(e.participants@));
        assert(renamed(views(e.participants@), old_name@, new_name@).take(n as int) =~= renamed(
            views(e.participants@),
            old_name@,
            new_name@,
        ));
        let kind = e.kind;
        file.edges.set(i, Edge { kind, participants: ps });
        if hit {
            changed = true;
        }
        proof {
            if !hit && changed {
                let w = choose|w: int| 0 <= w < i + 1 && views((#[trigger] olds[w]).participants@).contains(old_name@);
                assert(w < i);
            }
        }
        i += 1;
    }
    changed
}

/// Remove the edge of `kind` between `a` and `b`; refuses when there is
/// none.
pub fn run_remove_edge(file: &mut RelatedProjectsFile, kind: EdgeKind, a: &str, b: &str) -> (r: Result<
    (),
    PlanError,
>)
    ensures
        final(file).schema_version == old(file).schema_version,
        r is Ok <==> edge_valid((kind, seq![a@, b@])) && has_key(
            edge_views(old(file).edges@),
            (kind, seq![a@, b@]),
        ),
        r is Ok ==> edge_views(final(file).edges@) == without_key(
            edge_views(old(file).edges@),
            (kind, seq![a@, b@]),
        ),
        r is Err ==> edge_views(final(file).edges@) == edge_views(old(file).edges@),
        !edge_valid((kind, seq![a@, b@])) ==> (r matches Err(e) && e.code == ErrorCode::InvalidInput
            && e.message@ == edge_refusal((kind, seq![a@, b@]))),
        edge_valid((kind, seq![a@, b@])) && !has_key(edge_views(old(file).edges@), (kind, seq![a@, b@]))
            ==> (r matches Err(e) && e.code == ErrorCode::NotFound && e.message@
            == "no matching edge to remove (kind="@ + kind.spec_word() + ", "@ + a@ + " / "@ + b@ + ")"@),
{
    let edge = Edge { kind, participants: pair(a, b) };
    match file.remove_edge(&edge) {
        Err(e) => Err(e),
        Ok(true) => Ok(()),
        Ok(false) => {
            proof {
                lemma_without_key_keeps_all(edge_views(old(file).edges@), ev(edge));
            }
            let head = concat3("no matching edge to remove (kind=", kind.as_str(), ", ");
            let mut msg = concat3(head.as_str(), a, " / ");
            push_str(&mut msg, b);
            push_str(&mut msg, ")");
            Err(PlanError { code: ErrorCode::NotFound, message: msg })
        },
    }
}

/// Without a matching edge, `without_key` keeps every edge.
pub proof fn lemma_without_key_keeps_all(es: Seq<(EdgeKind, Seq<Seq<char>>)>, k: (EdgeKind, Seq<Seq<char>>))
    requires
        !has_key(es, k),
    ensures
        without_key(es, k) == es,
    decreases es.len(),
{
    if es.len() > 0 {
        assert(!same_key(es[es.len() - 1], k));
        assert forall|i: int| 0 <= i < es.drop_last().len() implies !same_key(
            #[trigger] es.drop_last()[i],
            k,
        ) by {
            assert(es.drop_last()[i] == es[i]);
        }
        lemma_without_key_keeps_all(es.drop_last(), k);
        assert(es.drop_last() + seq![es.last()] =~= es);
    }
}

/// Add the edge of `kind` between `a` and `b`, both of which must be
/// catalogued project names. `Ok(false)` when the edge was already
/// present.
pub fn run_add_edge(
    file: &mut RelatedProjectsFile,
    catalog_names: &Vec<String>,
    kind: EdgeKind,
    a: &str,
    b: &str,
) -> (r: Result<bool, PlanError>)
    ensures
        final(file).schema_version == old(file).schema_version,
        !views(catalog_names@).contains(a@) ==> (r matches Err(e) && e.code == ErrorCode::NotFound),
        views(catalog_names@).contains(a@) && !views(catalog_names@).contains(b@) ==> (r matches Err(e)
            && e.code == ErrorCode::NotFound),
        r is Ok <==> views(catalog_names@).contains(a@) && views(catalog_names@).contains(b@)
            && edge_valid((kind, seq![a@, b@])),
        views(catalog_names@).contains(a@) && views(catalog_names@).contains(b@) && !edge_valid(
            (kind, seq![a@, b@]),
        ) ==> (r matches Err(e) && e.code == ErrorCode::InvalidInput && e.message@ == edge_refusal(
            (kind, seq![a@, b@]),
        )),
        r matches Ok(added) ==> added == !has_key(edge_views(old(file).edges@), (kind, seq![a@, b@])),
        r == Ok::<bool, PlanError>(true) ==> edge_views(final(file).edges@) == edge_views(
            old(file).edges@,
        ).push((kind, seq![a@, b@])),
        r != Ok::<bool, PlanError>(true) ==> final(file).edges@ == old(file).edges@,
{
    if !name_listed(catalog_names, a) {
        return Err(unknown_project(a));
    }
    if !name_listed(catalog_names, b) {
        return Err(unknown_project(b));
    }
    let edge = Edge { kind, participants: pair(a, b) };
    let ghost k = ev(edge);
    let r = file.add_edge(edge);
    proof {
        if r == Ok::<bool, PlanError>(true) {
            assert(edge_views(file.edges@) =~= edge_views(old(file).edges@).push(k));
        }
    }
    r
}

fn name_listed(names: &Vec<String>, n: &str) -> (r: bool)
    ensures
        r == views(names@).contains(n@),
{
    let mut i: usize = 0;
    while i < names.len()
        invariant
            i <= names@.len(),
            forall|k: int| 0 <= k < i ==> (#[trigger] names@[k])@ != n@,
        decreases names.len() - i,
    {
        if str_eq(names[i].as_str(), n) {
            assert(views(names@)[i as int] == n@);
            return true;
        }
        i += 1;
    }
    assert forall|k: int| 0 <= k < views(names@).len() implies views(names@)[k] != n@ by {
        assert(views(names@)[k] == names@[k]@);
    }
    false
}

fn unknown_project(name: &str) -> (e: PlanError)
    ensures
        e.code == ErrorCode::NotFound,
        e.message@ == "project '"@ + name@
            + "' is not in the catalog; add it with `ravel-lite state projects add --name "@ + name@
            + " --path <abs-path>`"@,
{
    let head = concat3("project '", name, "' is not in the catalog; add it with `ravel-lite state projects add --name ");
    let msg = concat3(head.as_str(), name, " --path <abs-path>`");
    PlanError { code: ErrorCode::NotFound, message: msg }
}

// ----- migration from the legacy related-plans.md ------------------------------

/// `<plan>/../..`: the project a plan directory belongs to.
pub fn plan_project_path(plan_dir: &str) -> (r: Result<String, PlanError>)
    ensures
        match path_parent(plan_dir@) {
            None => r is Err,
            Some(p) => match path_parent(p) {
                None => r is Err,
                Some(g) => r matches Ok(v) && v@ == g,
            },
        },
        r matches Err(e) ==> e.code == ErrorCode::InvalidInput,
{
    let parent = match parent_of(plan_dir) {
        Some(p) => p,
        None => {
            return Err(
                PlanError {
                    code: ErrorCode::InvalidInput,
                    message: concat3("plan dir ", plan_dir, " has no parent"),
                },
            )
        },
    };
    match parent_of(parent.as_str()) {
        Some(g) => Ok(g),
        None => Err(
            PlanError {
                code: ErrorCode::InvalidInput,
                message: concat3(
                    "plan dir ",
                    plan_dir,
                    " has no grandparent (expected <project>/<state-dir>/<plan>)",
                ),
            },
        ),
    }
}

/// The path tokens of a legacy file replaced: `{{DEV_ROOT}}`, then
/// `{{PROJECT}}`, then `{{PLAN}}`.
pub open spec fn substituted(text: Seq<char>, project: Seq<char>, plan: Seq<char>, dev_root: Seq<char>) -> Seq<char> {
    replace_all(
        replace_all(replace_all(text, "{{DEV_ROOT}}"@, dev_root), "{{PROJECT}}"@, project),
        "{{PLAN}}"@,
        plan,
    )
}

/// Replace the path tokens of a legacy file, as `substituted` says.
pub fn substitute_path_tokens(text: &str, project: &str, plan: &str, dev_root: &str) -> (r: String)
    ensures
        r@ == substituted(text@, project@, plan@, dev_root@),
{
    proof {
        reveal_strlit("{{DEV_ROOT}}");
        reveal_strlit("{{PROJECT}}");
        reveal_strlit("{{PLAN}}");
    }
    let a = replace_str(text, "{{DEV_ROOT}}", dev_root);
    let b = replace_str(a.as_str(), "{{PROJECT}}", project);
    replace_str(b.as_str(), "{{PLAN}}", plan)
}

/// What one bullet line yields.
pub enum BulletParse {
    /// Not a bullet, or an empty one.
    Skip,
    /// An absolute path.
    Path(Seq<char>),
    /// A bullet whose path is empty or relative.
    Bad,
}

/// `i` is where `p` first occurs in `s`.
pub open spec fn first_at(s: Seq<char>, p: Seq<char>, i: int) -> bool {
    occurs_at(s, p, i) && forall|k: int| 0 <= k < i ==> !occurs_at(s, p, k)
}

/// The path of a bullet: the text after `- `, up to the first ` — `.
pub open spec fn bullet_parse(line: Seq<char>) -> BulletParse {
    if !seq_starts_with(line, "- "@) {
        BulletParse::Skip
    } else {
        let st = trim(line.skip(2));
        if st.len() == 0 {
            BulletParse::Skip
        } else {
            let raw = if exists|i: int| first_at(st, " — "@, i) {
                st.take(choose|i: int| first_at(st, " — "@, i))
            } else {
                st
            };
            let path = trim(raw);
            if path.len() == 0 || path[0] != '/' {
                BulletParse::Bad
            } else {
                BulletParse::Path(path)
            }
        }
    }
}

/// One bullet line: `Ok(None)` when it is not a bullet, the absolute path
/// it names, or an error for an empty or relative path.
pub fn parse_bullet_line(line: &str) -> (r: Result<Option<String>, PlanError>)
    ensures
        match bullet_parse(line@) {
            BulletParse::Skip => r matches Ok(None),
            BulletParse::Path(p) => r matches Ok(Some(s)) && s@ == p,
            BulletParse::Bad => r matches Err(e) && e.code == ErrorCode::InvalidInput,
        },
{
    let lc = chars_of(line);
    let dash = chars_of("- ");
    proof {
        reveal_strlit("- ");
    }
    if !starts_with(lc.as_slice(), dash.as_slice()) {
        return Ok(None);
    }
    let tail = slice_chars(lc.as_slice(), 2, lc.len());
    assert(tail@ =~= line@.skip(2));
    let st = trim_chars(tail.as_slice());
    if st.len() == 0 {
        return Ok(None);
    }
    let sep = chars_of(" — ");
    let raw = match find_from(st.as_slice(), sep.as_slice(), 0) {
        Some(i) => {
            proof {
                assert(first_at(st@, " — "@, i as int));
                let c = choose|j: int| first_at(st@, " — "@, j);
                assert(c == i) by {
                    if c < i {
                        assert(!occurs_at(st@, " — "@, c));
                    } else if c > i {
                        assert(!occurs_at(st@, " — "@, i as int));
                    }
                }
            }
            let v = slice_chars(st.as_slice(), 0, i);
            assert(v@ =~= st@.take(i as int));
            v
        },
        None => {
            assert(!exists|j: int| first_at(st@, " — "@, j));
            st
        },
    };
    let path = trim_chars(raw.as_slice());
    if path.len() == 0 || path[0] != '/' {
        return Err(
            PlanError {
                code: ErrorCode::InvalidInput,
                message: concat3(
                    "bullet path must be absolute after token substitution; got \"",
                    line,
                    "\"",
                ),
            },
        );
    }
    Ok(Some(string_from_chars(path.as_slice())))
}

/// The three sections of a legacy related-plans file.
pub enum Section {
    Siblings,
    Parents,
    Children,
}

/// The section a heading opens, if it is one of the three.
pub open spec fn heading_section(h: Seq<char>) -> Option<Section> {
    if h == "Siblings"@ {
        Some(Section::Siblings)
    } else if h == "Parents"@ {
        Some(Section::Parents)
    } else if h == "Children"@ {
        Some(Section::Children)
    } else {
        None
    }
}

/// The reader's state after some lines: the open section, the paths
/// collected per section, and whether a bad bullet was met.
pub struct SectionsScan {
    pub section: Option<Section>,
    pub siblings: Seq<Seq<char>>,
    pub parents: Seq<Seq<char>>,
    pub children: Seq<Seq<char>>,
    pub failed: bool,
}

/// One line of the legacy file read: a `## ` heading opens (or, when
/// unknown, closes) a section; inside a section a bullet's path is
/// collected, and a bad bullet marks the scan failed.
pub open spec fn scan_step(st: SectionsScan, line: Seq<char>) -> SectionsScan {
    let t = trim_end(line);
    if seq_starts_with(t, "## "@) {
        SectionsScan { section: heading_section(trim(t.skip(3))), ..st }
    } else if st.section is None {
        st
    } else {
        match bullet_parse(t) {
            BulletParse::Skip => st,
            BulletParse::Bad => SectionsScan { failed: true, ..st },
            BulletParse::Path(p) => match st.section {
                Some(Section::Siblings) => SectionsScan { siblings: st.siblings.push(p), ..st },
                Some(Section::Parents) => SectionsScan { parents: st.parents.push(p), ..st },
                _ => SectionsScan { children: st.children.push(p), ..st },
            },
        }
    }
}

/// The scan after the first `k` lines.
pub open spec fn scan_upto(ls: Seq<Seq<char>>, k: int) -> SectionsScan
    decreases k,
{
    if k <= 0 || k > ls.len() {
        SectionsScan { section: None, siblings: seq![], parents: seq![], children: seq![], failed: false }
    } else {
        let prev = scan_upto(ls, k - 1);
        if prev.failed {
            prev
        } else {
            scan_step(prev, ls[k - 1])
        }
    }
}

proof fn lemma_scan_failed_persists(ls: Seq<Seq<char>>, k: int, k2: int)
    requires
        0 <= k <= k2 <= ls.len(),
        scan_upto(ls, k).failed,
    ensures
        scan_upto(ls, k2).failed,
    decreases k2 - k,
{
    if k < k2 {
        lemma_scan_failed_persists(ls, k, k2 - 1);
    }
}

/// The paths a legacy related-plans file lists, per section.
pub struct ParsedRelatedPlans {
    pub siblings: Vec<String>,
    pub parents: Vec<String>,
    pub children: Vec<String>,
}

/// Read the legacy `related-plans.md` format: `## Siblings`, `## Parents`
/// and `## Children` sections, in any order, each listing `- <path> —
/// description` bullets. Other lines are ignored; a bullet with an empty
/// or relative path is refused.
pub fn parse_related_plans_sections(text: &str) -> (r: Result<ParsedRelatedPlans, PlanError>)
    ensures
        ({
            let st = scan_upto(lines_of(text@), lines_of(text@).len() as int);
            &&& r is Ok <==> !st.failed
            &&& r matches Ok(p) ==> views(p.siblings@) == st.siblings && views(p.parents@)
                == st.parents && views(p.children@) == st.children
        }),
{
    let ls = split_lines(text);
    let ghost vls = lines_of(text@);
    let mut section: u8 = 0;
    let mut siblings: Vec<String> = Vec::new();
    let mut parents: Vec<String> = Vec::new();
    let mut children: Vec<String> = Vec::new();
    let mut i: usize = 0;
    while i < ls.len()
        invariant
            views(ls@) == vls,
            vls == lines_of(text@),
            i <= ls@.len(),
            ({
                let st = scan_upto(vls, i as int);
                &&& !st.failed
                &&& section <= 3
                &&& st.section == (if section == 1 {
                    Some(Section::Siblings)
                } else if section == 2 {
                    Some(Section::Parents)
                } else if section == 3 {
                    Some(Section::Children)
                } else {
                    None::<Section>
                })
                &&& views(siblings@) == st.siblings
                &&& views(parents@) == st.parents
                &&& views(children@) == st.children
            }),
        decreases ls.len() - i,
    {
        assert(vls[i as int] == ls@[i as int]@);
        let lc = chars_of(ls[i].as_str());
        let t = crate::text::trim_end_chars(lc.as_slice());
        let ts = string_from_chars(t.as_slice());
        let hh = chars_of("## ");
        if starts_with(t.as_slice(), hh.as_slice()) {
            proof {
                reveal_strlit("## ");
            }
            let rest = slice_chars(t.as_slice(), 3, t.len());
            assert(rest@ =~= t@.skip(3));
            let h = trim_chars(rest.as_slice());
            section = if crate::text::chars_eq(h.as_slice(), chars_of("Siblings").as_slice()) {
                1
            } else if crate::text::chars_eq(h.as_slice(), chars_of("Parents").as_slice()) {
                2
            } else if crate::text::chars_eq(h.as_slice(), chars_of("Children").as_slice()) {
                3
            } else {
                0
            };
        } else if section != 0 {
            match parse_bullet_line(ts.as_str()) {
                Err(e) => {
                    proof {
                        assert(scan_upto(vls, i + 1).failed);
                        lemma_scan_failed_persists(vls, i + 1, vls.len() as int);
                    }
                    return Err(e);
                },
                Ok(None) => {},
                Ok(Some(p)) => {
                    if section == 1 {
                        let ghost before = views(siblings@);
                        siblings.push(p);
                        assert(views(siblings@) =~= before.push(p@));
                    } else if section == 2 {
                        let ghost before = views(parents@);
                        parents.push(p);
                        assert(views(parents@) =~= before.push(p@));
                    } else {
                        let ghost before = views(children@);
                        children.push(p);
                        assert(views(children@) =~= before.push(p@));
                    }
                },
            }
        }
        i += 1;
    }
    Ok(ParsedRelatedPlans { siblings, parents, children })
}

/// The edge a peer listed in `role`'s section contributes (0 siblings,
/// 1 parents, 2 children): `sibling[me, peer]`, `parent-of[peer, me]` or
/// `parent-of[me, peer]`.
pub open spec fn role_edge(me: Seq<char>, peer: Seq<char>, role: int) -> (EdgeKind, Seq<Seq<char>>) {
    if role == 0 {
        (EdgeKind::Sibling, seq![me, peer])
    } else if role == 1 {
        (EdgeKind::ParentOf, seq![peer, me])
    } else {
        (EdgeKind::ParentOf, seq![me, peer])
    }
}

/// The edges a section's peers contribute, the plan's own project skipped.
pub open spec fn role_edges(me: Seq<char>, peers: Seq<Seq<char>>, role: int) -> Seq<(EdgeKind, Seq<Seq<char>>)>
    decreases peers.len(),
{
    if peers.len() == 0 {
        seq![]
    } else {
        role_edges(me, peers.drop_last(), role) + if peers.last() == me {
            seq![]
        } else {
            seq![role_edge(me, peers.last(), role)]
        }
    }
}

/// All proposed edges: siblings, then parents, then children.
pub open spec fn proposed_edges(
    me: Seq<char>,
    siblings: Seq<Seq<char>>,
    parents: Seq<Seq<char>>,
    children: Seq<Seq<char>>,
) -> Seq<(EdgeKind, Seq<Seq<char>>)> {
    role_edges(me, siblings, 0) + role_edges(me, parents, 1) + role_edges(me, children, 2)
}

fn push_role_edges(out: &mut Vec<Edge>, me: &str, peers: &Vec<String>, role: u8)
    requires
        role <= 2,
    ensures
        edge_views(final(out)@) == edge_views(old(out)@) + role_edges(me@, views(peers@), role as int),
        forall|i: int| 0 <= i < final(out)@.len() && !(0 <= i < old(out)@.len()) ==> edge_valid(#[trigger] ev(final(out)@[i])),
        forall|i: int| 0 <= i < old(out)@.len() ==> final(out)@[i] == old(out)@[i],
{
    let ghost base = edge_views(out@);
    let ghost n0 = out@.len();
    let mut i: usize = 0;
    while i < peers.len()
        invariant
            role <= 2,
            n0 == old(out)@.len(),
            base == edge_views(old(out)@),
            i <= peers@.len(),
            out@.len() >= n0,
            forall|j: int| 0 <= j < n0 ==> out@[j] == old(out)@[j],
            edge_views(out@) == base + role_edges(me@, views(peers@).take(i as int), role as int),
            forall|j: int| n0 <= j < out@.len() ==> edge_valid(#[trigger] ev(out@[j])),
        decreases peers.len() - i,
    {
        let ghost vp = views(peers@);
        assert(vp[i as int] == peers@[i as int]@);
        assert(vp.take(i + 1).drop_last() =~= vp.take(i as int));
        let ghost before = edge_views(out@);
        if str_eq(peers[i].as_str(), me) {
            assert(before + seq![] =~= before);
        } else {
            let e = if role == 0 {
                Edge::sibling(me, peers[i].as_str())
            } else if role == 1 {
                Edge::parent_of(peers[i].as_str(), me)
            } else {
                Edge::parent_of(me, peers[i].as_str())
            };
            out.push(e);
            assert(edge_views(out@) =~= before.push(ev(e)));
        }
        i += 1;
    }
    assert(views(peers@).take(peers@.len() as int) =~= views(peers@));
}

/// What a migration did: the edges it added and those already present.
#[derive(Debug)]
pub struct MigrationReport {
    pub added: Vec<Edge>,
    pub skipped_existing: Vec<Edge>,
}

impl Default for MigrationReport {
    fn default() -> (r: Self)
        ensures
            r.added@.len() == 0,
            r.skipped_existing@.len() == 0,
    {
        MigrationReport { added: Vec::new(), skipped_existing: Vec::new() }
    }
}

/// How a migration runs.
#[derive(Debug, Clone, Copy, Default)]
pub struct MigrateRelatedProjectsOptions {
    pub dry_run: bool,
    pub delete_original: bool,
}

/// The proposed edges merged one by one into `es`: each is added unless
/// an edge with its identity is present by then. Returns the merged
/// edges, the added ones and the skipped ones.
pub open spec fn merge(es: Seq<(EdgeKind, Seq<Seq<char>>)>, ps: Seq<(EdgeKind, Seq<Seq<char>>)>) -> (
    Seq<(EdgeKind, Seq<Seq<char>>)>,
    Seq<(EdgeKind, Seq<Seq<char>>)>,
    Seq<(EdgeKind, Seq<Seq<char>>)>,
)
    decreases ps.len(),
{
    if ps.len() == 0 {
        (es, seq![], seq![])
    } else {
        let (m, a, s) = merge(es, ps.drop_last());
        if has_key(m, ps.last()) {
            (m, a, s.push(ps.last()))
        } else {
            (m.push(ps.last()), a.push(ps.last()), s)
        }
    }
}

/// The proposed edges split, without changing `es`, into those `es` lacks
/// and those it has.
pub open spec fn classify(es: Seq<(EdgeKind, Seq<Seq<char>>)>, ps: Seq<(EdgeKind, Seq<Seq<char>>)>) -> (
    Seq<(EdgeKind, Seq<Seq<char>>)>,
    Seq<(EdgeKind, Seq<Seq<char>>)>,
)
    decreases ps.len(),
{
    if ps.len() == 0 {
        (seq![], seq![])
    } else {
        let (a, s) = classify(es, ps.drop_last());
        if has_key(es, ps.last()) {
            (a, s.push(ps.last()))
        } else {
            (a.push(ps.last()), s)
        }
    }
}

/// The edge work of a migration: the plan's project `me` and the peer
/// project names of each legacy section become proposed edges, which are
/// merged into `file` (or, on a dry run, only classified against it).
pub fn migrate_edges(
    file: &mut RelatedProjectsFile,
    me: &str,
    siblings: &Vec<String>,
    parents: &Vec<String>,
    children: &Vec<String>,
    dry_run: bool,
) -> (r: MigrationReport)
    ensures
        final(file).schema_version == old(file).schema_version,
        ({
            let ps = proposed_edges(me@, views(siblings@), views(parents@), views(children@));
            if dry_run {
                &&& final(file).edges@ == old(file).edges@
                &&& edge_views(r.added@) == classify(edge_views(old(file).edges@), ps).0
                &&& edge_views(r.skipped_existing@) == classify(edge_views(old(file).edges@), ps).1
            } else {
                &&& edge_views(final(file).edges@) == merge(edge_views(old(file).edges@), ps).0
                &&& edge_views(r.added@) == merge(edge_views(old(file).edges@), ps).1
                &&& edge_views(r.skipped_existing@) == merge(edge_views(old(file).edges@), ps).2
            }
        }),
{
    let mut proposed: Vec<Edge> = Vec::new();
    push_role_edges(&mut proposed, me, siblings, 0);
    push_role_edges(&mut proposed, me, parents, 1);
    push_role_edges(&mut proposed, me, children, 2);
    let ghost ps = edge_views(proposed@);
    assert(ps =~= proposed_edges(me@, views(siblings@), views(parents@), views(children@)));
    let ghost es0 = edge_views(file.edges@);
    let mut report = MigrationReport::default();
    let mut i: usize = 0;
    while i < proposed.len()
        invariant
            ps == edge_views(proposed@),
            forall|j: int| 0 <= j < proposed@.len() ==> edge_valid(#[trigger] ev(proposed@[j])),
            es0 == edge_views(old(file).edges@),
            file.schema_version == old(file).schema_version,
            i <= proposed@.len(),
            dry_run ==> file.edges@ == old(file).edges@,
            dry_run ==> edge_views(report.added@) == classify(es0, ps.take(i as int)).0
                && edge_views(report.skipped_existing@) == classify(es0, ps.take(i as int)).1,
            !dry_run ==> edge_views(file.edges@) == merge(es0, ps.take(i as int)).0 && edge_views(
                report.added@,
            ) == merge(es0, ps.take(i as int)).1 && edge_views(report.skipped_existing@) == merge(
                es0,
                ps.take(i as int),
            ).2,
        decreases proposed.len() - i,
    {
        assert(ps.take(i + 1).drop_last() =~= ps.take(i as int));
        assert(ps.take(i + 1).last() == ev(proposed@[i as int]));
        assert(edge_valid(ev(proposed@[i as int])));
        let e = proposed[i].duplicate();
        let keep = proposed[i].duplicate();
        let ghost ba = edge_views(report.added@);
        let ghost bs = edge_views(report.skipped_existing@);
        if dry_run {
            if find_key(&file.edges, &e) {
                report.skipped_existing.push(keep);
                assert(edge_views(report.skipped_existing@) =~= bs.push(ev(keep)));
            } else {
                report.added.push(keep);
                assert(edge_views(report.added@) =~= ba.push(ev(keep)));
            }
        } else {
            let ghost bf = edge_views(file.edges@);
            match file.add_edge(e) {
                Ok(true) => {
                    report.added.push(keep);
                    assert(edge_views(report.added@) =~= ba.push(ev(keep)));
                    assert(edge_views(file.edges@) =~= bf.push(ev(keep)));
                },
                _ => {
                    report.skipped_existing.push(keep);
                    assert(edge_views(report.skipped_existing@) =~= bs.push(ev(keep)));
                },
            }
        }
        i += 1;
    }
    assert(ps.take(ps.len() as int) =~= ps);
    report
}

/// Every edge a section's peers contribute has two distinct participants.
proof fn lemma_role_edges_valid(me: Seq<char>, peers: Seq<Seq<char>>, role: int)
    ensures
        forall|j: int| 0 <= j < role_edges(me, peers, role).len() ==> edge_valid(#[trigger] role_edges(me, peers, role)[j]),
    decreases peers.len(),
{
    if peers.len() > 0 {
        lemma_role_edges_valid(me, peers.drop_last(), role);
        let w = role_edges(me, peers.drop_last(), role);
        let tail = if peers.last() == me {
            seq![]
        } else {
            seq![role_edge(me, peers.last(), role)]
        };
        assert forall|j: int| 0 <= j < (w + tail).len() implies edge_valid(#[trigger] (w + tail)[j]) by {
            if j < w.len() {
                assert((w + tail)[j] == w[j]);
            }
        }
    }
}

/// Adding an edge keeps every identity that was present.
proof fn lemma_has_key_push(es: Seq<(EdgeKind, Seq<Seq<char>>)>, x: (EdgeKind, Seq<Seq<char>>), k: (EdgeKind, Seq<Seq<char>>))
    requires
        has_key(es, k),
    ensures
        has_key(es.push(x), k),
{
    let w = choose|w: int| 0 <= w < es.len() && same_key(#[trigger] es[w], k);
    assert(es.push(x)[w] == es[w]);
}

/// After a merge, every proposed edge's identity is present.
proof fn lemma_merge_covers(es: Seq<(EdgeKind, Seq<Seq<char>>)>, ps: Seq<(EdgeKind, Seq<Seq<char>>)>)
    requires
        forall|j: int| 0 <= j < ps.len() ==> edge_valid(#[trigger] ps[j]),
    ensures
        forall|j: int| 0 <= j < ps.len() ==> has_key(merge(es, ps).0, #[trigger] ps[j]),
    decreases ps.len(),
{
    if ps.len() > 0 {
        let q = ps.drop_last();
        assert forall|j: int| 0 <= j < q.len() implies edge_valid(#[trigger] q[j]) by {
            assert(q[j] == ps[j]);
        }
        lemma_merge_covers(es, q);
        let m = merge(es, q).0;
        let x = ps.last();
        assert forall|j: int| 0 <= j < ps.len() implies has_key(merge(es, ps).0, #[trigger] ps[j]) by {
            if j < q.len() {
                assert(q[j] == ps[j]);
                assert(has_key(m, q[j]));
                if !has_key(m, x) {
                    lemma_has_key_push(m, x, ps[j]);
                }
            } else {
                assert(edge_valid(ps[j]));
                if !has_key(m, x) {
                    assert(same_key(m.push(x)[m.len() as int], x));
                }
            }
        }
    }
}

/// Merging edges whose identities are all present changes nothing and
/// skips them all.
proof fn lemma_merge_present(m: Seq<(EdgeKind, Seq<Seq<char>>)>, ps: Seq<(EdgeKind, Seq<Seq<char>>)>)
    requires
        forall|j: int| 0 <= j < ps.len() ==> has_key(m, #[trigger] ps[j]),
    ensures
        merge(m, ps) == (m, Seq::<(EdgeKind, Seq<Seq<char>>)>::empty(), ps),
    decreases ps.len(),
{
    if ps.len() > 0 {
        let q = ps.drop_last();
        assert forall|j: int| 0 <= j < q.len() implies has_key(m, #[trigger] q[j]) by {
            assert(q[j] == ps[j]);
        }
        lemma_merge_present(m, q);
        assert(has_key(m, ps[ps.len() - 1]));
        assert(q.push(ps.last()) =~= ps);
    }
}

/// A migration run a second time over its own result adds nothing: every
/// proposed edge is skipped as present and the edges stay as the first
/// run left them.
pub proof fn lemma_migrate_idempotent(
    es: Seq<(EdgeKind, Seq<Seq<char>>)>,
    me: Seq<char>,
    siblings: Seq<Seq<char>>,
    parents: Seq<Seq<char>>,
    children: Seq<Seq<char>>,
)
    ensures
        ({
            let ps = proposed_edges(me, siblings, parents, children);
            let first = merge(es, ps);
            merge(first.0, ps) == (first.0, Seq::<(EdgeKind, Seq<Seq<char>>)>::empty(), ps)
        }),
{
    let ps = proposed_edges(me, siblings, parents, children);
    let a = role_edges(me, siblings, 0);
    let b = role_edges(me, parents, 1);
    let c = role_edges(me, children, 2);
    lemma_role_edges_valid(me, siblings, 0);
    lemma_role_edges_valid(me, parents, 1);
    lemma_role_edges_valid(me, children, 2);
    assert forall|j: int| 0 <= j < ps.len() implies edge_valid(#[trigger] ps[j]) by {
        if j < a.len() {
            assert(ps[j] == a[j]);
        } else if j < a.len() + b.len() {
            assert(ps[j] == b[j - a.len()]);
        } else {
            assert(ps[j] == c[j - a.len() - b.len()]);
        }
    }
    lemma_merge_covers(es, ps);
    lemma_merge_present(merge(es, ps).0, ps);
}

} // verus!
