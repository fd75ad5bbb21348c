//! The decisions of mounting a component as a worktree under
//! `<plan>/.worktrees/<repo_slug>/` on the branch `ravel-lite/<plan>/main`:
//! where it goes, from where the worktree starts, whether an existing
//! worktree is acceptable, which path segments the component has, and how
//! the mount is recorded. Running git and reading the index files is the
//! caller's part.

use vstd::prelude::*;

use crate::error::{ErrorCode, PlanError};
use crate::paths::{file_name_of, path_file_name};
use crate::plan_kg::{clone_strings, opt_view};
use crate::text::{
    chars_of, concat3, debug_quote, debug_quoted, owned, push_str, str_eq, string_from_chars, trim, trim_chars, views,
};

use super::schema::{target_view, target_views, Target, TargetsFile};
use super::verbs::{has_target, is_first_target};

verus! {

broadcast use vstd::string::group_string_axioms;

/// `.worktrees/<repo_slug>`, relative to the plan.
pub fn worktree_root(repo_slug: &str) -> (r: String)
    ensures
        r@ == ".worktrees/"@ + repo_slug@,
{
    crate::text::concat2(".worktrees/", repo_slug)
}

/// `ravel-lite/<plan>/main`.
pub fn plan_branch(plan_name: &str) -> (r: String)
    ensures
        r@ == "ravel-lite/"@ + plan_name@ + "/main"@,
{
    concat3("ravel-lite/", plan_name, "/main")
}

/// The plan's name: the final component of its directory.
pub fn plan_name_from_dir(plan_dir: &str) -> (r: Result<String, PlanError>)
    ensures
        match path_file_name(plan_dir@) {
            Some(n) => r matches Ok(s) && s@ == n,
            None => r matches Err(e) && e.code == ErrorCode::InvalidInput,
        },
{
    match file_name_of(plan_dir) {
        Some(n) => Ok(n),
        None => Err(
            PlanError {
                code: ErrorCode::InvalidInput,
                message: concat3(
                    "plan directory ",
                    plan_dir,
                    " has no usable file name; cannot derive plan-namespaced branch",
                ),
            },
        ),
    }
}

/// The ref a new worktree starts from: the source repository's
/// `origin/HEAD` target when git reported a non-blank one, else `HEAD`.
pub fn starting_point(origin_head: Option<&str>) -> (r: String)
    ensures
        match origin_head {
            Some(s) => if trim(s@).len() > 0 {
                r@ == trim(s@)
            } else {
                r@ == "HEAD"@
            },
            None => r@ == "HEAD"@,
        },
{
    match origin_head {
        Some(s) => {
            let t = trim_chars(chars_of(s).as_slice());
            if t.len() > 0 {
                string_from_chars(t.as_slice())
            } else {
                owned("HEAD")
            }
        },
        None => owned("HEAD"),
    }
}

/// An existing worktree is accepted when its `HEAD` names the expected
/// branch; a directory that is no worktree (no symbolic `HEAD`), or one
/// on another branch, is refused.
pub fn check_worktree_branch(head: Option<&str>, expected_branch: &str, working_root: &str) -> (r: Result<(), PlanError>)
    ensures
        r is Ok <==> (head matches Some(h) && trim(h@) == expected_branch@),
        r matches Err(e) ==> e.code == ErrorCode::Conflict,
        head matches Some(h) ==> (trim(h@) != expected_branch@ ==> (r matches Err(e) && e.message@ == working_root@
            + " is on branch "@ + debug_quoted(trim(h@)) + " but the mount expected "@ + debug_quoted(expected_branch@)
            + ". Remove or rename it manually before retrying."@)),
{
    match head {
        None => Err(
            PlanError {
                code: ErrorCode::Conflict,
                message: concat3(
                    "",
                    working_root,
                    " exists but is not a git worktree (or HEAD is detached). Remove it manually and retry the mount.",
                ),
            },
        ),
        Some(h) => {
            let t = trim_chars(chars_of(h).as_slice());
            let actual = string_from_chars(t.as_slice());
            if str_eq(actual.as_str(), expected_branch) {
                Ok(())
            } else {
                let qa = debug_quote(actual.as_str());
                let qe = debug_quote(expected_branch);
                let mut msg = concat3(working_root, " is on branch ", qa.as_str());
                push_str(&mut msg, " but the mount expected ");
                push_str(&mut msg, qe.as_str());
                push_str(&mut msg, ". Remove or rename it manually before retrying.");
                Err(PlanError { code: ErrorCode::Conflict, message: msg })
            }
        },
    }
}

/// The refusal for a slug the registry lacks.
pub open spec fn unregistered_message(repo_slug: Seq<char>, context_root: Seq<char>) -> Seq<char> {
    "repo slug "@ + debug_quoted(repo_slug) + " is not registered in "@ + context_root
        + "/repos.yaml. Add it with `ravel-lite repo add "@ + repo_slug + " --url <url> --local-path <path>`."@
}

/// The refusal for a registered repo without a local checkout.
pub open spec fn no_local_path_message(repo_slug: Seq<char>, context_root: Seq<char>) -> Seq<char> {
    "repo slug "@ + debug_quoted(repo_slug) + " has no local_path in "@ + context_root
        + "/repos.yaml. Re-add it with `--local-path <path>`; clone-on-demand is not yet implemented."@
}

/// The repository a mount starts from: it must be registered (in the
/// registry of `context_root`) and have a local checkout.
pub fn repo_local_path(registered: bool, local_path: Option<&str>, repo_slug: &str, context_root: &str) -> (r: Result<
    String,
    PlanError,
>)
    ensures
        !registered ==> (r matches Err(e) && e.code == ErrorCode::NotFound && e.message@ == unregistered_message(
            repo_slug@,
            context_root@,
        )),
        registered && local_path is None ==> (r matches Err(e) && e.code == ErrorCode::InvalidInput
            && e.message@ == no_local_path_message(repo_slug@, context_root@)),
        registered ==> (local_path matches Some(p) ==> (r matches Ok(s) && s@ == p@)),
{
    let q = debug_quote(repo_slug);
    if !registered {
        let mut m = concat3("repo slug ", q.as_str(), " is not registered in ");
        push_str(&mut m, context_root);
        push_str(&mut m, "/repos.yaml. Add it with `ravel-lite repo add ");
        push_str(&mut m, repo_slug);
        push_str(&mut m, " --url <url> --local-path <path>`.");
        return Err(PlanError { code: ErrorCode::NotFound, message: m });
    }
    match local_path {
        Some(p) => Ok(owned(p)),
        None => {
            let mut m = concat3("repo slug ", q.as_str(), " has no local_path in ");
            push_str(&mut m, context_root);
            push_str(&mut m, "/repos.yaml. Re-add it with `--local-path <path>`; clone-on-demand is not yet implemented.");
            Err(PlanError { code: ErrorCode::InvalidInput, message: m })
        },
    }
}

/// One indexed component: its id and its path segments.
pub struct IndexedComponent {
    pub id: String,
    pub path_segments: Vec<String>,
}

/// The refusal for a component id the index lacks.
pub open spec fn unknown_component_message(
    repo_slug: Seq<char>,
    component_id: Seq<char>,
    components_path: Seq<char>,
    local_path: Seq<char>,
) -> Seq<char> {
    "component "@ + repo_slug + ":"@ + component_id + " not found in "@ + components_path
        + ". Either the id is wrong (check `ravel-lite atlas list-components --repo "@ + repo_slug
        + " --format yaml` for the bare `id:` values) or the index is stale (re-run `atlas index "@ + local_path
        + "`)."@
}

/// The path segments of the first indexed component with id
/// `component_id` in the index at `components_path` (of the checkout at
/// `local_path`); refused when the index lacks it.
pub fn component_segments(
    components: &Vec<IndexedComponent>,
    repo_slug: &str,
    component_id: &str,
    components_path: &str,
    local_path: &str,
) -> (r: Result<Vec<String>, PlanError>)
    ensures
        r is Ok <==> exists|i: int| 0 <= i < components@.len() && (#[trigger] components@[i]).id@ == component_id@,
        r matches Ok(v) ==> exists|i: int| 0 <= i < components@.len() && components@[i].id@ == component_id@
            && (forall|k: int| 0 <= k < i ==> (#[trigger] components@[k]).id@ != component_id@)
            && views(v@) == views(components@[i].path_segments@),
        r matches Err(e) ==> e.code == ErrorCode::NotFound && e.message@ == unknown_component_message(
            repo_slug@,
            component_id@,
            components_path@,
            local_path@,
        ),
{
    let mut i: usize = 0;
    while i < components.len()
        invariant
            i <= components@.len(),
            forall|k: int| 0 <= k < i ==> (#[trigger] components@[k]).id@ != component_id@,
        decreases components.len() - i,
    {
        if str_eq(components[i].id.as_str(), component_id) {
            let v = clone_strings(&components[i].path_segments);
            return Ok(v);
        }
        i += 1;
    }
    let mut m = concat3("component ", repo_slug, ":");
    push_str(&mut m, component_id);
    push_str(&mut m, " not found in ");
    push_str(&mut m, components_path);
    push_str(&mut m, ". Either the id is wrong (check `ravel-lite atlas list-components --repo ");
    push_str(&mut m, repo_slug);
    push_str(&mut m, " --format yaml` for the bare `id:` values) or the index is stale (re-run `atlas index ");
    push_str(&mut m, local_path);
    push_str(&mut m, "`).");
    Err(PlanError { code: ErrorCode::NotFound, message: m })
}

/// Record a mount: an already recorded component keeps its row, which is
/// returned; otherwise `target` is appended and returned.
pub fn record_mount(targets: &mut TargetsFile, target: Target) -> (r: Target)
    ensures
        final(targets).schema_version == old(targets).schema_version,
        has_target(old(targets).targets@, target.repo_slug@, target.component_id@) ==> {
            &&& final(targets).targets@ == old(targets).targets@
            &&& exists|i: int| is_first_target(old(targets).targets@, target.repo_slug@, target.component_id@, i)
                && target_view(r) == target_view(old(targets).targets@[i])
        },
        !has_target(old(targets).targets@, target.repo_slug@, target.component_id@) ==> {
            &&& final(targets).targets@ == old(targets).targets@.push(target)
            &&& target_view(r) == target_view(target)
        },
{
    match super::verbs::find_target(targets, target.repo_slug.as_str(), target.component_id.as_str()) {
        Ok(t) => t.duplicate(),
        Err(_) => {
            let copy = target.duplicate();
            targets.targets.push(target);
            copy
        },
    }
}

} // verus!
