//! The seed check of mounting a set of refs with their build closure:
//! every initial ref must name a fresh repo of the catalog and a live
//! component of it. Loading the catalog, walking the closure and mounting
//! the worktrees is the caller's part.

use vstd::prelude::*;

use crate::error::{ErrorCode, PlanError};
use crate::text::{debug_quote, debug_quoted, owned, push_str, str_eq, views};

use super::closure::comma_list;

verus! {

broadcast use vstd::string::group_string_axioms;

/// A component of a catalog repo.
#[derive(Debug)]
pub struct CatalogComponent {
    pub id: String,
    pub deleted: bool,
}

/// A fresh repo of the catalog (registered, with a local checkout and an
/// index) and its components.
#[derive(Debug)]
pub struct CatalogRepo {
    pub slug: String,
    pub components: Vec<CatalogComponent>,
}

/// The slugs of the catalog's repos, in order.
pub open spec fn repo_slugs(cat: Seq<CatalogRepo>) -> Seq<Seq<char>> {
    cat.map_values(|r: CatalogRepo| r.slug@)
}

/// Index of the first repo with slug `slug`.
pub open spec fn first_repo(cat: Seq<CatalogRepo>, slug: Seq<char>, i: int) -> bool {
    &&& 0 <= i < cat.len()
    &&& cat[i].slug@ == slug
    &&& forall|j: int| 0 <= j < i ==> (#[trigger] cat[j]).slug@ != slug
}

/// The repo has a live component with id `id`.
pub open spec fn knows(r: CatalogRepo, id: Seq<char>) -> bool {
    exists|k: int| 0 <= k < r.components@.len() && !(#[trigger] r.components@[k]).deleted && r.components@[k].id@ == id
}

/// The ref names a fresh repo (its first entry) holding a live component
/// with that id.
pub open spec fn ref_ok(cat: Seq<CatalogRepo>, r: (Seq<char>, Seq<char>)) -> bool {
    exists|i: int| first_repo(cat, r.0, i) && knows(cat[i], r.1)
}

/// The refusal for a ref whose repo is not fresh.
pub open spec fn unknown_repo_message(cat: Seq<CatalogRepo>, r: (Seq<char>, Seq<char>)) -> Seq<char> {
    "ref "@ + debug_quoted(r.0) + ":"@ + debug_quoted(r.1) + ": repo "@ + debug_quoted(r.0)
        + " is not a fresh entry in the catalog. Either it is missing from `repos.yaml`, has no `local_path`, or has no `.atlas/components.yaml`. Fresh repos: ["@
        + comma_list(repo_slugs(cat)) + "]"@
}

/// The refusal for a ref whose component the repo lacks.
pub open spec fn unknown_component_message(r: (Seq<char>, Seq<char>)) -> Seq<char> {
    "ref "@ + debug_quoted(r.0) + ":"@ + debug_quoted(r.1) + ": no component with id "@ + debug_quoted(r.1)
        + " in repo "@ + debug_quoted(r.0) + ". Check `ravel-lite atlas list-components --repo "@ + r.0
        + " --format yaml` for valid ids; re-run `atlas index` if the index is stale."@
}

/// The refusal for the first bad ref.
pub open spec fn ref_error_message(cat: Seq<CatalogRepo>, r: (Seq<char>, Seq<char>)) -> Seq<char> {
    if exists|i: int| first_repo(cat, r.0, i) {
        unknown_component_message(r)
    } else {
        unknown_repo_message(cat, r)
    }
}

/// Check the seed refs of a closure mount: every ref must pass `ref_ok`;
/// the first that does not is refused as `NotFound`, with a message that
/// lists the fresh repos when the repo is the problem.
pub fn validate_initial_refs(catalog: &Vec<CatalogRepo>, initial: &Vec<(String, String)>) -> (r: Result<(), PlanError>)
    ensures
        r is Ok <==> forall|k: int| 0 <= k < initial@.len() ==> ref_ok(catalog@, (#[trigger] initial@[k].0@, initial@[k].1@)),
        r matches Err(e) ==> e.code == ErrorCode::NotFound && exists|k: int|
            0 <= k < initial@.len() && !ref_ok(catalog@, (#[trigger] initial@[k].0@, initial@[k].1@))
                && (forall|j: int| 0 <= j < k ==> ref_ok(catalog@, (#[trigger] initial@[j].0@, initial@[j].1@)))
                && e.message@ == ref_error_message(catalog@, (initial@[k].0@, initial@[k].1@)),
{
    let mut k: usize = 0;
    while k < initial.len()
        invariant
            k <= initial@.len(),
            forall|j: int| 0 <= j < k ==> ref_ok(catalog@, (#[trigger] initial@[j].0@, initial@[j].1@)),
        decreases initial.len() - k,
    {
        let slug = initial[k].0.as_str();
        let id = initial[k].1.as_str();
        let ghost rv = (initial@[k as int].0@, initial@[k as int].1@);
        let mut i: usize = 0;
        while i < catalog.len() && !str_eq(catalog[i].slug.as_str(), slug)
            invariant
                i <= catalog@.len(),
                forall|j: int| 0 <= j < i ==> (#[trigger] catalog@[j]).slug@ != slug@,
            decreases catalog.len() - i,
        {
            i += 1;
        }
        if i == catalog.len() {
            proof {
                assert(!exists|w: int| first_repo(catalog@, rv.0, w));
            }
            let mut m = owned("ref ");
            let qs = debug_quote(slug);
            let qi = debug_quote(id);
            push_str(&mut m, qs.as_str());
            push_str(&mut m, ":");
            push_str(&mut m, qi.as_str());
            push_str(&mut m, ": repo ");
            push_str(&mut m, qs.as_str());
            push_str(
                &mut m,
                " is not a fresh entry in the catalog. Either it is missing from `repos.yaml`, has no `local_path`, or has no `.atlas/components.yaml`. Fresh repos: [",
            );
            let ghost base = m@;
            let mut p: usize = 0;
            while p < catalog.len()
                invariant
                    p <= catalog@.len(),
                    m@ == base + comma_list(repo_slugs(catalog@).take(p as int)),
                decreases catalog.len() - p,
            {
                let ghost t = repo_slugs(catalog@).take(p + 1);
                assert(t.drop_last() =~= repo_slugs(catalog@).take(p as int));
                assert(t.last() == catalog@[p as int].slug@);
                if p > 0 {
                    push_str(&mut m, ", ");
                }
                push_str(&mut m, catalog[p].slug.as_str());
                assert(m@ =~= base + comma_list(t));
                p += 1;
            }
            assert(repo_slugs(catalog@).take(catalog@.len() as int) =~= repo_slugs(catalog@));
            push_str(&mut m, "]");
            return Err(PlanError { code: ErrorCode::NotFound, message: m });
        }
        assert(first_repo(catalog@, rv.0, i as int));
        let comps = &catalog[i].components;
        let mut known = false;
        let mut c: usize = 0;
        while c < comps.len() && !known
            invariant
                c <= comps@.len(),
                known ==> knows(catalog@[i as int], id@),
                comps@ == catalog@[i as int].components@,
                !known ==> forall|q: int| 0 <= q < c ==> (#[trigger] comps@[q]).deleted || comps@[q].id@ != id@,
            decreases comps.len() - c,
        {
            if !comps[c].deleted && str_eq(comps[c].id.as_str(), id) {
                known = true;
            }
            c += 1;
        }
        if !known {
            proof {
                assert forall|w: int| first_repo(catalog@, rv.0, w) implies !knows(catalog@[w], rv.1) by {
                    if w < i {
                        assert(catalog@[w].slug@ != slug@);
                    } else if w > i {
                        assert(catalog@[i as int].slug@ != rv.0);
                    }
                }
            }
            let mut m = owned("ref ");
            let qs = debug_quote(slug);
            let qi = debug_quote(id);
            push_str(&mut m, qs.as_str());
            push_str(&mut m, ":");
            push_str(&mut m, qi.as_str());
            push_str(&mut m, ": no component with id ");
            push_str(&mut m, qi.as_str());
            push_str(&mut m, " in repo ");
            push_str(&mut m, qs.as_str());
            push_str(&mut m, ". Check `ravel-lite atlas list-components --repo ");
            push_str(&mut m, slug);
            push_str(&mut m, " --format yaml` for valid ids; re-run `atlas index` if the index is stale.");
            return Err(PlanError { code: ErrorCode::NotFound, message: m });
        }
        k += 1;
    }
    Ok(())
}

} // verus!
