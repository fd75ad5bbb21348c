//! The per-context repository registry, `<context>/repos.yaml`: each repo
//! a plan can target, under the stable slug that every component
//! reference carries, with its clone URL and an optional local checkout.
//!
//! Entries keep their insertion order (the registry is an `IndexMap`). A
//! local checkout path is held absolute and lexically cleaned. Reading
//! and writing the file is the caller's part.

use vstd::prelude::*;

use indexmap::IndexMap;

use crate::error::{ErrorCode, PlanError};
use crate::plan_kg::{clone_opt, opt_view};
use crate::text::{concat2, decimal, decimal_string, join_path, join_path_exec, owned, push_str};

verus! {

broadcast use vstd::string::group_string_axioms;

/// The registry's file name inside a context root.
pub const REGISTRY_FILE: &'static str = "repos.yaml";

/// The only schema version in circulation.
pub const SCHEMA_VERSION: u32 = 1;

/// `indexmap::IndexMap`, declared so that it can stand in a field.
#[verifier::external_type_specification]
#[verifier::external_body]
#[verifier::reject_recursive_types(K)]
#[verifier::reject_recursive_types(V)]
#[verifier::reject_recursive_types(S)]
pub struct ExIndexMap<K, V, S>(IndexMap<K, V, S>);

/// One registered repo.
#[derive(Debug)]
pub struct RepoEntry {
    pub url: String,
    pub local_path: Option<String>,
}

/// The registry: a schema version and the repos by slug, in insertion
/// order.
#[derive(Debug)]
pub struct ReposRegistry {
    pub schema_version: u32,
    pub repos: IndexMap<String, RepoEntry>,
}

/// What an `IndexMap` of repos holds, in its order: slug, URL and local
/// path of each entry.
pub uninterp spec fn repo_entries(m: IndexMap<String, RepoEntry>) -> Seq<(Seq<char>, Seq<char>, Option<Seq<char>>)>;

/// Some entry has key `slug`.
pub open spec fn has_slug(es: Seq<(Seq<char>, Seq<char>, Option<Seq<char>>)>, slug: Seq<char>) -> bool {
    exists|i: int| 0 <= i < es.len() && (#[trigger] es[i]).0 == slug
}

/// No key occurs twice.
pub open spec fn slugs_distinct(es: Seq<(Seq<char>, Seq<char>, Option<Seq<char>>)>) -> bool {
    forall|i: int, j: int| 0 <= i < j < es.len() ==> (#[trigger] es[i]).0 != (#[trigger] es[j]).0
}

/// `IndexMap::new`: an empty map.
#[verifier::external_body]
fn map_new() -> (r: IndexMap<String, RepoEntry>)
    ensures
        repo_entries(r).len() == 0,
{
    IndexMap::new()
}

/// `IndexMap::contains_key`: whether some entry has the key.
#[verifier::external_body]
fn map_contains(m: &IndexMap<String, RepoEntry>, slug: &str) -> (r: bool)
    ensures
        r == has_slug(repo_entries(*m), slug@),
{
    m.contains_key(slug)
}

/// `IndexMap::insert` of a key that no entry has: the pair goes last and
/// nothing is returned.
#[verifier::external_body]
fn map_insert_new(m: &mut IndexMap<String, RepoEntry>, slug: String, entry: RepoEntry)
    requires
        !has_slug(repo_entries(*old(m)), slug@),
    ensures
        repo_entries(*final(m)) == repo_entries(*old(m)).push((slug@, entry.url@, opt_view(entry.local_path))),
{
    m.insert(slug, entry);
}

/// `IndexMap::shift_remove`: the entry with the key taken out, the ones
/// after it shifted down in order; its value returned, or `None` (and the
/// map unchanged) when no entry has the key.
#[verifier::external_body]
fn map_shift_remove(m: &mut IndexMap<String, RepoEntry>, slug: &str) -> (r: Option<RepoEntry>)
    ensures
        match r {
            Some(e) => exists|i: int|
                0 <= i < repo_entries(*old(m)).len() && (#[trigger] repo_entries(*old(m))[i]).0 == slug@
                    && repo_entries(*old(m))[i] == (slug@, e.url@, opt_view(e.local_path))
                    && repo_entries(*final(m)) == repo_entries(*old(m)).remove(i),
            None => !has_slug(repo_entries(*old(m)), slug@) && repo_entries(*final(m)) == repo_entries(*old(m)),
        },
{
    m.shift_remove(slug)
}

/// `IndexMap::get`: the value of the entry with the key, if any.
#[verifier::external_body]
fn map_get<'a>(m: &'a IndexMap<String, RepoEntry>, slug: &str) -> (r: Option<&'a RepoEntry>)
    ensures
        match r {
            Some(e) => exists|i: int|
                0 <= i < repo_entries(*m).len() && (#[trigger] repo_entries(*m)[i]) == (slug@, e.url@, opt_view(e.local_path)),
            None => !has_slug(repo_entries(*m), slug@),
        },
{
    m.get(slug)
}

/// `IndexMap::iter`, each pair copied out as slug, URL and local path, in
/// the map's order.
#[verifier::external_body]
fn map_entries(m: &IndexMap<String, RepoEntry>) -> (r: Vec<(String, String, Option<String>)>)
    ensures
        entry_views(r@) == repo_entries(*m),
{
    m.iter().map(|(k, v)| (k.clone(), v.url.clone(), v.local_path.clone())).collect()
}

/// What `path_clean::clean` makes of a path: `.` and `..` components and
/// repeated separators resolved lexically.
pub uninterp spec fn path_cleaned(p: Seq<char>) -> Seq<char>;

/// `path_clean::clean`. Claimed: the result is `path_cleaned` of the
/// path, never empty (an empty result is written `.`), and a rooted path
/// stays rooted.
#[verifier::external_body]
fn clean_path(p: &str) -> (r: String)
    ensures
        r@ == path_cleaned(p@),
        r@.len() > 0,
        p@.len() > 0 && p@[0] == '/' ==> r@[0] == '/',
{
    path_clean::clean(p).to_string_lossy().into_owned()
}

/// `std::path::absolute`: a rooted path as it is, a relative one joined
/// onto the current directory, with `.` components and repeated
/// separators dropped and `..` kept. Claimed: the result is rooted and
/// cleans to what the path joined onto some rooted directory cleans to
/// (the path itself when it is rooted); a rooted path never fails, since
/// the documented failures are an empty path and a failed lookup of the
/// current directory. Which directory a relative path is joined onto is
/// the process's, and is left open.
#[verifier::external_body]
fn absolute_path(p: &str) -> (r: Option<String>)
    ensures
        p@.len() > 0 && p@[0] == '/' ==> r is Some,
        r matches Some(a) ==> a@.len() > 0 && a@[0] == '/' && exists|cwd: Seq<char>|
            cwd.len() > 0 && cwd[0] == '/' && path_cleaned(a@) == path_cleaned(join_path(cwd, p@)),
{
    match std::path::absolute(p) {
        Ok(a) => Some(a.to_string_lossy().into_owned()),
        Err(_) => None,
    }
}

/// The views of a list of copied-out entries.
pub open spec fn entry_views(v: Seq<(String, String, Option<String>)>) -> Seq<(Seq<char>, Seq<char>, Option<Seq<char>>)> {
    v.map_values(|e: (String, String, Option<String>)| (e.0@, e.1@, opt_view(e.2)))
}

impl Default for ReposRegistry {
    fn default() -> (r: Self)
        ensures
            r.schema_version == SCHEMA_VERSION,
            repo_entries(r.repos).len() == 0,
    {
        ReposRegistry { schema_version: SCHEMA_VERSION, repos: map_new() }
    }
}

impl ReposRegistry {
    /// The entry registered under `slug`, if any.
    pub fn get(&self, slug: &str) -> (r: Option<&RepoEntry>)
        ensures
            match r {
                Some(e) => exists|i: int|
                    0 <= i < repo_entries(self.repos).len() && (#[trigger] repo_entries(self.repos)[i]) == (slug@, e.url@, opt_view(e.local_path)),
                None => !has_slug(repo_entries(self.repos), slug@),
            },
    {
        map_get(&self.repos, slug)
    }

    /// The entries as slug, URL and local path, in registry order.
    pub fn entries(&self) -> (r: Vec<(String, String, Option<String>)>)
        ensures
            entry_views(r@) == repo_entries(self.repos),
    {
        map_entries(&self.repos)
    }
}

/// `<context_root>/repos.yaml`.
pub fn registry_path(context_root: &str) -> (r: String)
    ensures
        r@ == join_path(context_root@, REGISTRY_FILE@),
{
    join_path_exec(context_root, REGISTRY_FILE)
}

/// The message for a registry of another schema version.
pub open spec fn version_message(path: Seq<char>, found: u32) -> Seq<char> {
    path + " has schema_version "@ + decimal(found as nat) + " but this ravel-lite expects "@ + decimal(
        SCHEMA_VERSION as nat,
    ) + "; aborting to avoid data loss"@
}

/// A loaded registry's entries, taken into a registry: refused unless the
/// schema version is the one in circulation; each local path cleaned.
/// Entries with a slug already taken replace that entry's value in place.
pub fn registry_from_entries(path: &str, version: u32, entries: Vec<(String, String, Option<String>)>) -> (r: Result<
    ReposRegistry,
    PlanError,
>)
    requires
        slugs_distinct(entry_views(entries@)),
    ensures
        r is Ok <==> version == SCHEMA_VERSION,
        r matches Err(e) ==> e.code == ErrorCode::Conflict && e.message@ == version_message(path@, version),
        r matches Ok(reg) ==> reg.schema_version == SCHEMA_VERSION && repo_entries(reg.repos).len() == entries@.len()
            && forall|i: int| #![trigger entries@[i]] 0 <= i < entries@.len() ==> repo_entries(reg.repos)[i] == (
                entries@[i].0@,
                entries@[i].1@,
                match entries@[i].2 {
                    Some(p) => Some(path_cleaned(p@)),
                    None => None,
                },
            ),
{
    if version != SCHEMA_VERSION {
        let mut m = owned(path);
        push_str(&mut m, " has schema_version ");
        let f = decimal_string(version as u64);
        push_str(&mut m, f.as_str());
        push_str(&mut m, " but this ravel-lite expects ");
        let x = decimal_string(SCHEMA_VERSION as u64);
        push_str(&mut m, x.as_str());
        push_str(&mut m, "; aborting to avoid data loss");
        return Err(PlanError { code: ErrorCode::Conflict, message: m });
    }
    let mut repos = map_new();
    let mut i: usize = 0;
    while i < entries.len()
        invariant
            slugs_distinct(entry_views(entries@)),
            i <= entries@.len(),
            repo_entries(repos).len() == i,
            forall|k: int| #![trigger entries@[k]] 0 <= k < i ==> repo_entries(repos)[k] == (
                entries@[k].0@,
                entries@[k].1@,
                match entries@[k].2 {
                    Some(p) => Some(path_cleaned(p@)),
                    None => None,
                },
            ),
        decreases entries.len() - i,
    {
        let local = match &entries[i].2 {
            Some(p) => Some(clean_path(p.as_str())),
            None => None,
        };
        proof {
            if has_slug(repo_entries(repos), entries@[i as int].0@) {
                let k = choose|k: int| 0 <= k < repo_entries(repos).len() && (#[trigger] repo_entries(repos)[k]).0 == entries@[i as int].0@;
                assert(entries@[k].0@ == entries@[i as int].0@);
                assert(entry_views(entries@)[k].0 == entry_views(entries@)[i as int].0);
            }
        }
        map_insert_new(&mut repos, owned(entries[i].0.as_str()), RepoEntry { url: owned(entries[i].1.as_str()), local_path: local });
        i += 1;
    }
    Ok(ReposRegistry { schema_version: SCHEMA_VERSION, repos })
}

/// The message for a slug already taken.
pub open spec fn duplicate_message(slug: Seq<char>) -> Seq<char> {
    "repo slug '"@ + slug + "' is already registered; pick a different name"@
}

/// Register a repo whose local checkout, if any, is already absolute:
/// refused when the slug is taken; otherwise the entry goes last, its
/// local path cleaned. The registry changes only on success.
pub fn add_resolved(registry: &mut ReposRegistry, slug: &str, url: &str, absolute_local: Option<String>) -> (r: Result<
    (),
    PlanError,
>)
    ensures
        r is Ok <==> !has_slug(repo_entries(old(registry).repos), slug@),
        r matches Err(e) ==> e.code == ErrorCode::Conflict && e.message@ == duplicate_message(slug@)
            && repo_entries(final(registry).repos) == repo_entries(old(registry).repos),
        r is Ok ==> repo_entries(final(registry).repos) == repo_entries(old(registry).repos).push(
            (
                slug@,
                url@,
                match absolute_local {
                    Some(a) => Some(path_cleaned(a@)),
                    None => None,
                },
            ),
        ),
        r is Ok ==> (absolute_local matches Some(a) ==> (a@.len() > 0 && a@[0] == '/' ==> path_cleaned(a@).len() > 0
            && path_cleaned(a@)[0] == '/')),
        final(registry).schema_version == old(registry).schema_version,
{
    if map_contains(&registry.repos, slug) {
        let head = concat2("repo slug '", slug);
        return Err(
            PlanError {
                code: ErrorCode::Conflict,
                message: concat2(head.as_str(), "' is already registered; pick a different name"),
            },
        );
    }
    let local = match &absolute_local {
        Some(a) => Some(clean_path(a.as_str())),
        None => None,
    };
    map_insert_new(&mut registry.repos, owned(slug), RepoEntry { url: owned(url), local_path: local });
    Ok(())
}

/// Register a repo: refused when the slug is taken, or when the local
/// checkout path cannot be made absolute; otherwise the entry goes last
/// with its local path absolute and cleaned. Nothing is saved here.
pub fn try_add(registry: &mut ReposRegistry, slug: &str, url: &str, local_path: Option<&str>) -> (r: Result<
    (),
    PlanError,
>)
    ensures
        has_slug(repo_entries(old(registry).repos), slug@) ==> (r matches Err(e) && e.code == ErrorCode::Conflict
            && e.message@ == duplicate_message(slug@)),
        !has_slug(repo_entries(old(registry).repos), slug@) && local_path is None ==> r is Ok,
        !has_slug(repo_entries(old(registry).repos), slug@) && (local_path matches Some(p) && p@.len() > 0
            && p@[0] == '/') ==> r is Ok,
        r is Err ==> repo_entries(final(registry).repos) == repo_entries(old(registry).repos),
        r is Ok ==> exists|local: Option<Seq<char>>| {
            &&& repo_entries(final(registry).repos) == repo_entries(old(registry).repos).push((slug@, url@, local))
            &&& local is Some <==> local_path is Some
            &&& local_path matches Some(p) ==> (local matches Some(l) && l.len() > 0 && l[0] == '/' && exists|
                cwd: Seq<char>,
            | cwd.len() > 0 && cwd[0] == '/' && l == path_cleaned(join_path(cwd, p@)))
            &&& local_path matches Some(p) ==> (p@.len() > 0 && p@[0] == '/' ==> local == Some(path_cleaned(p@)))
        },
        final(registry).schema_version == old(registry).schema_version,
{
    if map_contains(&registry.repos, slug) {
        return add_resolved(registry, slug, url, None);
    }
    let absolute = match local_path {
        Some(p) => {
            match absolute_path(p) {
                Some(a) => Some(a),
                None => {
                    let head = concat2("Failed to resolve local_path ", p);
                    return Err(PlanError { code: ErrorCode::InvalidInput, message: concat2(head.as_str(), " to an absolute path") });
                },
            }
        },
        None => None,
    };
    let ghost abs_v = opt_view(absolute);
    let r = add_resolved(registry, slug, url, absolute);
    proof {
        let local = match abs_v {
            Some(a) => Some(path_cleaned(a)),
            None => None,
        };
        if r is Ok {
            assert(repo_entries(registry.repos) == repo_entries(old(registry).repos).push((slug@, url@, local)));
            assert(local is Some <==> local_path is Some);
            if let Some(p) = local_path {
                let a = abs_v->0;
                let cwd = choose|cwd: Seq<char>|
                    cwd.len() > 0 && cwd[0] == '/' && path_cleaned(a) == path_cleaned(join_path(cwd, p@));
                assert(local == Some(path_cleaned(join_path(cwd, p@))));
            }
        }
    }
    r
}

/// The message for removing a slug the registry lacks.
pub open spec fn missing_message(slug: Seq<char>, path: Seq<char>) -> Seq<char> {
    "no repo named '"@ + slug + "' in registry at "@ + path
}

/// Remove a repo: refused (naming the registry file) when no entry has the
/// slug; otherwise that entry is taken out and the others keep their order.
pub fn run_remove(registry: &mut ReposRegistry, slug: &str, registry_file: &str) -> (r: Result<(), PlanError>)
    ensures
        r is Ok <==> has_slug(repo_entries(old(registry).repos), slug@),
        r matches Err(e) ==> e.code == ErrorCode::NotFound && e.message@ == missing_message(slug@, registry_file@)
            && repo_entries(final(registry).repos) == repo_entries(old(registry).repos),
        r is Ok ==> exists|i: int|
            0 <= i < repo_entries(old(registry).repos).len() && (#[trigger] repo_entries(old(registry).repos)[i]).0 == slug@
                && repo_entries(final(registry).repos) == repo_entries(old(registry).repos).remove(i),
        final(registry).schema_version == old(registry).schema_version,
{
    match map_shift_remove(&mut registry.repos, slug) {
        Some(_) => Ok(()),
        None => {
            let head = concat2("no repo named '", slug);
            let mut m = concat2(head.as_str(), "' in registry at ");
            push_str(&mut m, registry_file);
            Err(PlanError { code: ErrorCode::NotFound, message: m })
        },
    }
}

/// Registering a fresh slug and then removing it gives back the entries
/// as they were: the only entry with that slug is the one just added,
/// last.
pub proof fn lemma_add_then_remove_restores(
    es: Seq<(Seq<char>, Seq<char>, Option<Seq<char>>)>,
    slug: Seq<char>,
    url: Seq<char>,
    local: Option<Seq<char>>,
    i: int,
)
    requires
        !has_slug(es, slug),
        0 <= i < es.len() + 1,
        es.push((slug, url, local))[i].0 == slug,
    ensures
        es.push((slug, url, local)).remove(i) == es,
{
    if i < es.len() {
        assert(es[i].0 == slug);
    }
    assert(es.push((slug, url, local)).remove(i) =~= es);
}

/// The registry's operations keep every slug unique: adding a slug that
/// is not there, and removing any entry.
pub proof fn lemma_ops_keep_slugs_distinct(
    es: Seq<(Seq<char>, Seq<char>, Option<Seq<char>>)>,
    e: (Seq<char>, Seq<char>, Option<Seq<char>>),
    i: int,
)
    requires
        slugs_distinct(es),
    ensures
        !has_slug(es, e.0) ==> slugs_distinct(es.push(e)),
        0 <= i < es.len() ==> slugs_distinct(es.remove(i)),
{
    if !has_slug(es, e.0) {
        assert forall|a: int, b: int| 0 <= a < b < es.push(e).len() implies (#[trigger] es.push(e)[a]).0 != (
        #[trigger] es.push(e)[b]).0 by {
            if b == es.len() {
                assert(es[a].0 != e.0);
            } else {
                assert(es[a].0 != es[b].0);
            }
        }
    }
    if 0 <= i < es.len() {
        let r = es.remove(i);
        assert forall|a: int, b: int| 0 <= a < b < r.len() implies (#[trigger] r[a]).0 != (#[trigger] r[b]).0 by {
            let a2 = if a < i { a } else { a + 1 };
            let b2 = if b < i { b } else { b + 1 };
            assert(r[a] == es[a2]);
            assert(r[b] == es[b2]);
            assert(es[a2].0 != es[b2].0);
        }
    }
}

} // verus!
