//! Where `targets.yaml` lives, and the paths of the mounted worktrees.

use vstd::prelude::*;

use crate::component_ref::{ref_view, ComponentRef};
use crate::error::{ErrorCode, PlanError};
use crate::paths::{path_has_prefix, path_starts_with};
use crate::text::{concat3, join_path, join_path_exec, views};

use super::schema::{Target, TargetsFile};
use super::verbs::{has_target, is_first_target};

verus! {

/// `<plan_dir>/targets.yaml`.
pub fn targets_path(plan_dir: &str) -> (r: String)
    ensures
        r@ == join_path(plan_dir@, "targets.yaml"@),
{
    join_path_exec(plan_dir, "targets.yaml")
}

/// The worktree of a mounted component: the plan directory joined with
/// the first matching target's working root. A component that is not
/// mounted is refused.
pub fn resolve_target_worktree(plan_dir: &str, targets: &TargetsFile, target: &ComponentRef) -> (r: Result<String, PlanError>)
    ensures
        r is Ok <==> has_target(targets.targets@, target.repo_slug@, target.component_id@),
        r matches Ok(p) ==> exists|i: int| is_first_target(targets.targets@, target.repo_slug@, target.component_id@, i)
            && p@ == join_path(plan_dir@, targets.targets@[i].working_root@),
        r matches Err(e) ==> e.code == ErrorCode::NotFound && e.message@ == target.repo_slug@ + seq![':']
            + target.component_id@ + " is not a mounted target in "@ + plan_dir@
            + "; add it via target-requests.yaml so the next phase boundary mounts it"@,
{
    match super::verbs::find_target(targets, target.repo_slug.as_str(), target.component_id.as_str()) {
        Ok(t) => Ok(join_path_exec(plan_dir, t.working_root.as_str())),
        Err(_) => {
            let r = target.to_text();
            let head = crate::text::concat2(r.as_str(), " is not a mounted target in ");
            Err(
                PlanError {
                    code: ErrorCode::NotFound,
                    message: concat3(
                        head.as_str(),
                        plan_dir,
                        "; add it via target-requests.yaml so the next phase boundary mounts it",
                    ),
                },
            )
        },
    }
}

/// The worktree paths of the targets, outside `cwd`, in order.
pub open spec fn add_dirs(plan_dir: Seq<char>, cwd: Seq<char>, ts: Seq<Target>) -> Seq<Seq<char>>
    decreases ts.len(),
{
    if ts.len() == 0 {
        seq![]
    } else {
        let p = join_path(plan_dir, ts.last().working_root@);
        add_dirs(plan_dir, cwd, ts.drop_last()) + if path_has_prefix(p, cwd) {
            seq![]
        } else {
            seq![p]
        }
    }
}

/// The paths of every mounted worktree that does not lie under `cwd`:
/// what an agent spawned in `cwd` must be granted explicitly.
pub fn mounted_worktree_add_dirs(plan_dir: &str, cwd: &str, targets: &TargetsFile) -> (r: Vec<String>)
    ensures
        views(r@) == add_dirs(plan_dir@, cwd@, targets.targets@),
{
    let ghost ts = targets.targets@;
    let mut out: Vec<String> = Vec::new();
    let mut i: usize = 0;
    while i < targets.targets.len()
        invariant
            ts == targets.targets@,
            i <= ts.len(),
            views(out@) == add_dirs(plan_dir@, cwd@, ts.take(i as int)),
        decreases ts.len() - i,
    {
        assert(ts.take(i + 1).drop_last() =~= ts.take(i as int));
        let p = join_path_exec(plan_dir, targets.targets[i].working_root.as_str());
        let ghost before = views(out@);
        if path_starts_with(p.as_str(), cwd) {
            assert(before + seq![] =~= before);
        } else {
            let ghost pv = p@;
            out.push(p);
            assert(views(out@) =~= before + seq![pv]);
        }
        i += 1;
    }
    assert(ts.take(ts.len() as int) =~= ts);
    out
}

} // verus!
