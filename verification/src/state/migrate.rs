//! `state migrate`: the decisions of converting a plan's legacy
//! `backlog.md` into `backlog.yaml`. Reading, writing and deleting the
//! files is the caller's part.

use vstd::prelude::*;

use crate::plan_kg::{justifications_same, opt_eq, opt_view, Justification};
use crate::state::backlog::schema::{views, BacklogFile};
use crate::text::str_eq;

verus! {

/// What happens to `backlog.md` after a successful migration.
#[derive(Debug, Clone, Copy, PartialEq, Eq, Structural)]
pub enum OriginalPolicy {
    Keep,
    Delete,
}

/// How a migration runs.
#[derive(Debug, Clone, Copy)]
pub struct MigrateOptions {
    pub dry_run: bool,
    pub original_policy: OriginalPolicy,
    pub force: bool,
}

impl Default for MigrateOptions {
    fn default() -> (r: Self)
        ensures
            !r.dry_run,
            r.original_policy == OriginalPolicy::Keep,
            !r.force,
    {
        MigrateOptions { dry_run: false, original_policy: OriginalPolicy::Keep, force: false }
    }
}

/// The two backlogs hold the same items, field by field (the schema
/// version aside).
pub open spec fn backlogs_equivalent_spec(a: BacklogFile, b: BacklogFile) -> bool {
    &&& a.items@.len() == b.items@.len()
    &&& forall|i: int| 0 <= i < a.items@.len() ==> {
        let x = #[trigger] a.items@[i];
        let y = b.items@[i];
        &&& x.item.id@ == y.item.id@
        &&& x.item.claim@ == y.item.claim@
        &&& x.category@ == y.category@
        &&& x.item.status == y.item.status
        &&& opt_view(x.blocked_reason) == opt_view(y.blocked_reason)
        &&& views(x.dependencies@) == views(y.dependencies@)
        &&& x.item.justifications@.map_values(|j: Justification| j@) == y.item.justifications@.map_values(|j: Justification| j@)
        &&& opt_view(x.results) == opt_view(y.results)
        &&& opt_view(x.handoff) == opt_view(y.handoff)
    }
}

/// Equivalence of backlogs is an equivalence (reflexive and symmetric),
/// and any difference the migration records breaks it: a different
/// number of tasks, or a task that differs from the one at the same
/// position in its id, title, category, status, blocked reason,
/// dependencies, justifications, results or hand-off.
pub proof fn lemma_backlog_equivalence(a: BacklogFile, b: BacklogFile, i: int)
    ensures
        backlogs_equivalent_spec(a, a),
        backlogs_equivalent_spec(a, b) ==> backlogs_equivalent_spec(b, a),
        a.items@.len() != b.items@.len() ==> !backlogs_equivalent_spec(a, b),
        0 <= i < a.items@.len() && i < b.items@.len() && ({
            let x = a.items@[i];
            let y = b.items@[i];
            ||| x.item.id@ != y.item.id@
            ||| x.item.claim@ != y.item.claim@
            ||| x.category@ != y.category@
            ||| x.item.status != y.item.status
            ||| opt_view(x.blocked_reason) != opt_view(y.blocked_reason)
            ||| views(x.dependencies@) != views(y.dependencies@)
            ||| x.item.justifications@.map_values(|j: Justification| j@) != y.item.justifications@.map_values(
                |j: Justification| j@,
            )
            ||| opt_view(x.results) != opt_view(y.results)
            ||| opt_view(x.handoff) != opt_view(y.handoff)
        }) ==> !backlogs_equivalent_spec(a, b),
{
    if backlogs_equivalent_spec(a, b) {
        assert forall|k: int| 0 <= k < b.items@.len() implies {
            let x = #[trigger] b.items@[k];
            let y = a.items@[k];
            &&& x.item.id@ == y.item.id@
            &&& x.item.claim@ == y.item.claim@
            &&& x.category@ == y.category@
            &&& x.item.status == y.item.status
            &&& opt_view(x.blocked_reason) == opt_view(y.blocked_reason)
            &&& views(x.dependencies@) == views(y.dependencies@)
            &&& x.item.justifications@.map_values(|j: Justification| j@) == y.item.justifications@.map_values(
                |j: Justification| j@,
            )
            &&& opt_view(x.results) == opt_view(y.results)
            &&& opt_view(x.handoff) == opt_view(y.handoff)
        } by {
            assert(a.items@[k] == a.items@[k]);
        }
    }
}

fn strings_same(a: &Vec<String>, b: &Vec<String>) -> (r: bool)
    ensures
        r == (views(a@) == views(b@)),
{
    if a.len() != b.len() {
        assert(views(a@).len() != views(b@).len());
        return false;
    }
    let mut i: usize = 0;
    while i < a.len()
        invariant
            a@.len() == b@.len(),
            i <= a@.len(),
            forall|k: int| 0 <= k < i ==> (#[trigger] a@[k])@ == b@[k]@,
        decreases a.len() - i,
    {
        if !str_eq(a[i].as_str(), b[i].as_str()) {
            assert(views(a@)[i as int] != views(b@)[i as int]);
            return false;
        }
        i += 1;
    }
    assert(views(a@) =~= views(b@));
    true
}

/// Whether two backlogs hold the same items.
pub fn backlogs_equivalent(a: &BacklogFile, b: &BacklogFile) -> (r: bool)
    ensures
        r == backlogs_equivalent_spec(*a, *b),
{
    if a.items.len() != b.items.len() {
        return false;
    }
    let mut i: usize = 0;
    while i < a.items.len()
        invariant
            a.items@.len() == b.items@.len(),
            i <= a.items@.len(),
            forall|k: int| 0 <= k < i ==> {
                let x = #[trigger] a.items@[k];
                let y = b.items@[k];
                &&& x.item.id@ == y.item.id@
                &&& x.item.claim@ == y.item.claim@
                &&& x.category@ == y.category@
                &&& x.item.status == y.item.status
                &&& opt_view(x.blocked_reason) == opt_view(y.blocked_reason)
                &&& views(x.dependencies@) == views(y.dependencies@)
                &&& x.item.justifications@.map_values(|j: Justification| j@) == y.item.justifications@.map_values(|j: Justification| j@)
                &&& opt_view(x.results) == opt_view(y.results)
                &&& opt_view(x.handoff) == opt_view(y.handoff)
            },
        decreases a.items.len() - i,
    {
        let x = &a.items[i];
        let y = &b.items[i];
        if !(str_eq(x.item.id.as_str(), y.item.id.as_str()) && str_eq(x.item.claim.as_str(), y.item.claim.as_str())
            && str_eq(x.category.as_str(), y.category.as_str()) && x.item.status == y.item.status
            && opt_eq(&x.blocked_reason, &y.blocked_reason) && strings_same(&x.dependencies, &y.dependencies)
            && justifications_same(&x.item.justifications, &y.item.justifications) && opt_eq(&x.results, &y.results)
            && opt_eq(&x.handoff, &y.handoff)) {
            return false;
        }
        i += 1;
    }
    true
}

/// What a migration does once `backlog.md` has parsed.
#[derive(Debug, Clone, Copy, PartialEq, Eq, Structural)]
pub enum MigrateAction {
    /// `backlog.yaml` already holds the same items: nothing is written;
    /// the original is deleted when asked for (and not a dry run).
    AlreadyMigrated { delete_original: bool },
    /// `backlog.yaml` differs and `--force` was not given.
    RefuseOverwrite,
    /// Report what would be written (and deleted), touching nothing.
    DryRun { delete_original: bool },
    /// Write `backlog.yaml`, check it reads back the same, then delete the
    /// original when asked for.
    Write { delete_original: bool },
}

/// The migration's course, given whether `backlog.yaml` exists and, if
/// it does, whether it holds the same items as the parse.
pub fn migrate_action(target_exists: bool, equivalent: bool, options: &MigrateOptions) -> (r: MigrateAction)
    ensures
        r == migrate_action_spec(target_exists, equivalent, *options),
{
    let delete = options.original_policy == OriginalPolicy::Delete;
    if target_exists && equivalent {
        MigrateAction::AlreadyMigrated { delete_original: delete && !options.dry_run }
    } else if target_exists && !options.force {
        MigrateAction::RefuseOverwrite
    } else if options.dry_run {
        MigrateAction::DryRun { delete_original: delete }
    } else {
        MigrateAction::Write { delete_original: delete }
    }
}

/// A migration run again on its own output is a no-op: a backlog is
/// equivalent to itself, so with `backlog.yaml` holding what the parse
/// gives, nothing is written whatever the options.
pub proof fn lemma_second_run_is_no_op(f: BacklogFile, options: MigrateOptions)
    ensures
        backlogs_equivalent_spec(f, f),
        migrate_action_spec(true, backlogs_equivalent_spec(f, f), options) is AlreadyMigrated,
{
}

/// The course `migrate_action` takes.
pub open spec fn migrate_action_spec(target_exists: bool, equivalent: bool, options: MigrateOptions) -> MigrateAction {
    if target_exists && equivalent {
        MigrateAction::AlreadyMigrated {
            delete_original: options.original_policy == OriginalPolicy::Delete && !options.dry_run,
        }
    } else if target_exists && !options.force {
        MigrateAction::RefuseOverwrite
    } else if options.dry_run {
        MigrateAction::DryRun { delete_original: options.original_policy == OriginalPolicy::Delete }
    } else {
        MigrateAction::Write { delete_original: options.original_policy == OriginalPolicy::Delete }
    }
}

/// What the migration may do: a `backlog.yaml` that differs is never
/// overwritten without `--force`, and one that holds the same items is
/// never rewritten; a dry run writes and deletes nothing; a missing
/// `backlog.yaml` is written (or, on a dry run, reported); the original is
/// deleted only when asked for.
pub proof fn lemma_migration_course(target_exists: bool, equivalent: bool, options: MigrateOptions)
    ensures
        target_exists && !equivalent && !options.force ==> migrate_action_spec(target_exists, equivalent, options)
            == MigrateAction::RefuseOverwrite,
        target_exists && equivalent ==> migrate_action_spec(target_exists, equivalent, options) is AlreadyMigrated,
        migrate_action_spec(target_exists, equivalent, options) is Write ==> !options.dry_run && (!target_exists
            || (options.force && !equivalent)),
        options.dry_run ==> !(migrate_action_spec(target_exists, equivalent, options) is Write)
            && migrate_action_spec(target_exists, equivalent, options) != (MigrateAction::AlreadyMigrated {
            delete_original: true,
        }),
        !target_exists ==> migrate_action_spec(target_exists, equivalent, options) == if options.dry_run {
            MigrateAction::DryRun { delete_original: options.original_policy == OriginalPolicy::Delete }
        } else {
            MigrateAction::Write { delete_original: options.original_policy == OriginalPolicy::Delete }
        },
        options.original_policy == OriginalPolicy::Keep ==> match migrate_action_spec(
            target_exists,
            equivalent,
            options,
        ) {
            MigrateAction::AlreadyMigrated { delete_original } => !delete_original,
            MigrateAction::DryRun { delete_original } => !delete_original,
            MigrateAction::Write { delete_original } => !delete_original,
            MigrateAction::RefuseOverwrite => true,
        },
{
}

/// The refusal when `backlog.yaml` differs from what the parse gives and
/// `--force` was not passed.
pub fn refuse_overwrite_message(target: &str) -> (r: String)
    ensures
        r@ == target@ + " already exists and differs from the re-migration output. Rerun with --force to overwrite."@,
{
    crate::text::concat2(target, " already exists and differs from the re-migration output. Rerun with --force to overwrite.")
}

} // verus!
