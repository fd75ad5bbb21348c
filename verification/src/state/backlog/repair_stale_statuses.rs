//! The one drift repaired without asking: a `blocked` item with at least
//! one dependency, every one of which names a `done` item, becomes
//! `active` (its blocked reason cleared). Other apparent drifts are left
//! for the operator.

use vstd::prelude::*;

use crate::error::{ErrorCode, PlanError};
use crate::plan_kg::BacklogStatus;
use crate::state::OutputFormat;
use crate::text::{owned, views};

use super::schema::{has_id, is_first_with_id, find_index, BacklogEntry, BacklogFile};

verus! {

/// Why an item was repaired.
#[derive(Debug, Clone, Copy, PartialEq, Eq, Structural)]
pub enum RepairReason {
    DependenciesSatisfied,
}

/// One repair: the item, its status before and after, and why.
#[derive(Debug)]
pub struct Repair {
    pub task_id: String,
    pub old_status: BacklogStatus,
    pub new_status: BacklogStatus,
    pub reason: RepairReason,
}

/// The repairs of one pass.
#[derive(Debug)]
pub struct RepairReport {
    pub repairs: Vec<Repair>,
}

impl Default for RepairReport {
    fn default() -> (r: Self)
        ensures
            r.repairs@.len() == 0,
    {
        RepairReport { repairs: Vec::new() }
    }
}

/// Some item with id `d` is done.
pub open spec fn is_done_id(items: Seq<BacklogEntry>, d: Seq<char>) -> bool {
    exists|k: int| 0 <= k < items.len() && (#[trigger] items[k]).item.id@ == d && items[k].item.status == BacklogStatus::Done
}

/// The item is blocked and has dependencies, all naming done items.
pub open spec fn repairable(items: Seq<BacklogEntry>, e: BacklogEntry) -> bool {
    &&& e.item.status == BacklogStatus::Blocked
    &&& e.dependencies@.len() > 0
    &&& forall|j: int| 0 <= j < e.dependencies@.len() ==> is_done_id(items, (#[trigger] e.dependencies@[j])@)
}

/// The ids of the repairable items among the first `n`, in order.
pub open spec fn repair_ids(items: Seq<BacklogEntry>, n: int) -> Seq<Seq<char>>
    decreases n,
{
    if n <= 0 || n > items.len() {
        seq![]
    } else {
        repair_ids(items, n - 1) + if repairable(items, items[n - 1]) {
            seq![items[n - 1].item.id@]
        } else {
            seq![]
        }
    }
}

fn is_done_id_exec(items: &Vec<BacklogEntry>, d: &String) -> (r: bool)
    ensures
        r == is_done_id(items@, d@),
{
    let mut k: usize = 0;
    while k < items.len()
        invariant
            k <= items@.len(),
            forall|m: int| 0 <= m < k ==> !((#[trigger] items@[m]).item.id@ == d@ && items@[m].item.status == BacklogStatus::Done),
        decreases items.len() - k,
    {
        if items[k].item.id == *d && items[k].item.status == BacklogStatus::Done {
            return true;
        }
        k += 1;
    }
    false
}

fn repairable_exec(items: &Vec<BacklogEntry>, e: &BacklogEntry) -> (r: bool)
    ensures
        r == repairable(items@, *e),
{
    if e.item.status != BacklogStatus::Blocked || e.dependencies.len() == 0 {
        return false;
    }
    let mut j: usize = 0;
    while j < e.dependencies.len()
        invariant
            j <= e.dependencies@.len(),
            forall|m: int| 0 <= m < j ==> is_done_id(items@, (#[trigger] e.dependencies@[m])@),
        decreases e.dependencies.len() - j,
    {
        if !is_done_id_exec(items, &e.dependencies[j]) {
            return false;
        }
        j += 1;
    }
    true
}

/// The repairs that would apply, one per repairable item, in backlog
/// order.
pub fn analyse_repairs(backlog: &BacklogFile) -> (r: RepairReport)
    ensures
        r.repairs@.map_values(|p: Repair| p.task_id@) == repair_ids(backlog.items@, backlog.items@.len() as int),
        forall|i: int| 0 <= i < r.repairs@.len() ==> (#[trigger] r.repairs@[i]).old_status == BacklogStatus::Blocked
            && r.repairs@[i].new_status == BacklogStatus::Active && r.repairs@[i].reason == RepairReason::DependenciesSatisfied,
{
    let ghost items = backlog.items@;
    let mut repairs: Vec<Repair> = Vec::new();
    let mut i: usize = 0;
    while i < backlog.items.len()
        invariant
            items == backlog.items@,
            i <= items.len(),
            repairs@.map_values(|p: Repair| p.task_id@) == repair_ids(items, i as int),
            forall|k: int| 0 <= k < repairs@.len() ==> (#[trigger] repairs@[k]).old_status == BacklogStatus::Blocked
                && repairs@[k].new_status == BacklogStatus::Active && repairs@[k].reason == RepairReason::DependenciesSatisfied,
        decreases items.len() - i,
    {
        let ghost before = repairs@;
        if repairable_exec(&backlog.items, &backlog.items[i]) {
            let p = Repair {
                task_id: owned(backlog.items[i].item.id.as_str()),
                old_status: BacklogStatus::Blocked,
                new_status: BacklogStatus::Active,
                reason: RepairReason::DependenciesSatisfied,
            };
            repairs.push(p);
            assert(repairs@.map_values(|p: Repair| p.task_id@) =~= before.map_values(|p: Repair| p.task_id@).push(items[i as int].item.id@));
        } else {
            assert(repairs@.map_values(|p: Repair| p.task_id@) =~= before.map_values(|p: Repair| p.task_id@));
            assert(repair_ids(items, i + 1) =~= repair_ids(items, i as int));
        }
        i += 1;
    }
    RepairReport { repairs }
}

/// The item unblocked: active, its blocked reason cleared.
pub open spec fn unblocked(e: BacklogEntry) -> BacklogEntry {
    BacklogEntry {
        item: crate::plan_kg::Item { status: BacklogStatus::Active, ..e.item },
        blocked_reason: None,
        ..e
    }
}

/// Each id in turn unblocks the first item carrying it.
pub open spec fn apply_ids(items: Seq<BacklogEntry>, ids: Seq<Seq<char>>) -> Seq<BacklogEntry>
    decreases ids.len(),
{
    if ids.len() == 0 {
        items
    } else {
        let prev = apply_ids(items, ids.drop_last());
        if has_id(prev, ids.last()) {
            let i = choose|i: int| is_first_with_id(prev, ids.last(), i);
            prev.update(i, unblocked(prev[i]))
        } else {
            prev
        }
    }
}

/// Apply the repairs: the first item with each repaired id is unblocked.
pub fn apply_repairs(backlog: &mut BacklogFile, report: &RepairReport)
    requires
        forall|i: int| 0 <= i < report.repairs@.len() ==> (#[trigger] report.repairs@[i]).new_status == BacklogStatus::Active,
    ensures
        final(backlog).schema_version == old(backlog).schema_version,
        final(backlog).items@ == apply_ids(old(backlog).items@, report.repairs@.map_values(|p: Repair| p.task_id@)),
{
    let ghost ids = report.repairs@.map_values(|p: Repair| p.task_id@);
    let mut k: usize = 0;
    while k < report.repairs.len()
        invariant
            ids == report.repairs@.map_values(|p: Repair| p.task_id@),
            k <= ids.len(),
            backlog.schema_version == old(backlog).schema_version,
            backlog.items@ == apply_ids(old(backlog).items@, ids.take(k as int)),
        decreases report.repairs.len() - k,
    {
        assert(ids.take(k + 1).drop_last() =~= ids.take(k as int));
        assert(ids.take(k + 1).last() == report.repairs@[k as int].task_id@);
        let ghost pre = backlog.items@;
        match find_index(&backlog.items, report.repairs[k].task_id.as_str()) {
            Some(i) => {
                proof {
                    let c = choose|c: int| is_first_with_id(pre, ids[k as int], c);
                    assert(is_first_with_id(pre, ids[k as int], i as int));
                    assert(c == i) by {
                        if c < i {
                            assert(pre[c].item.id@ != ids[k as int]);
                        } else if c > i {
                            assert(pre[i as int].item.id@ != ids[k as int]);
                        }
                    }
                }
                backlog.items[i].item.status = BacklogStatus::Active;
                backlog.items[i].blocked_reason = None;
                assert(backlog.items@ =~= pre.update(i as int, unblocked(pre[i as int])));
            },
            None => {},
        }
        k += 1;
    }
    assert(ids.take(ids.len() as int) =~= ids);
}

/// One repair pass: the report of what applies, applied to the backlog
/// unless this is a dry run.
pub fn run_repair_stale_statuses(backlog: &mut BacklogFile, dry_run: bool) -> (r: RepairReport)
    ensures
        r.repairs@.map_values(|p: Repair| p.task_id@) == repair_ids(old(backlog).items@, old(backlog).items@.len() as int),
        final(backlog).schema_version == old(backlog).schema_version,
        dry_run ==> final(backlog).items@ == old(backlog).items@,
        !dry_run ==> final(backlog).items@ == apply_ids(old(backlog).items@, r.repairs@.map_values(|p: Repair| p.task_id@)),
{
    let report = analyse_repairs(backlog);
    if !dry_run && report.repairs.len() > 0 {
        apply_repairs(backlog, &report);
    } else if !dry_run {
        assert(report.repairs@.map_values(|p: Repair| p.task_id@) =~= Seq::<Seq<char>>::empty());
    }
    report
}

/// The report is emitted as yaml or json; markdown is refused.
pub fn check_report_format(format: OutputFormat) -> (r: Result<(), PlanError>)
    ensures
        r is Err <==> format == OutputFormat::Markdown,
        r matches Err(e) ==> e.code == ErrorCode::InvalidInput,
{
    if format == OutputFormat::Markdown {
        return Err(
            PlanError {
                code: ErrorCode::InvalidInput,
                message: "`backlog repair-stale-statuses` does not support --format markdown; use yaml or json".to_owned(),
            },
        );
    }
    Ok(())
}

/// Every repairable item is named in the report of its backlog.
pub proof fn lemma_repair_unblocks(items: Seq<BacklogEntry>, i: int)
    requires
        0 <= i < items.len(),
        repairable(items, items[i]),
    ensures
        repair_ids(items, items.len() as int).contains(items[i].item.id@),
{
    lemma_repair_ids_contains(items, items.len() as int, i);
}

proof fn lemma_repair_ids_contains(items: Seq<BacklogEntry>, n: int, i: int)
    requires
        0 <= i < n <= items.len(),
        repairable(items, items[i]),
    ensures
        repair_ids(items, n).contains(items[i].item.id@),
    decreases n,
{
    if i == n - 1 {
        let r = repair_ids(items, n);
        assert(r[r.len() - 1] == items[i].item.id@);
    } else {
        lemma_repair_ids_contains(items, n - 1, i);
        let p = repair_ids(items, n - 1);
        let w = choose|w: int| 0 <= w < p.len() && p[w] == items[i].item.id@;
        assert(repair_ids(items, n)[w] == p[w]);
    }
}

} // verus!
