//! The `focus-objections` verbs over an in-memory file.

use vstd::prelude::*;

use crate::component_ref::{ref_view, ComponentRef};
use crate::error::{ErrorCode, PlanError};
use crate::state::OutputFormat;
use crate::text::{concat2, ensure_trailing_newline, owned, with_trailing_newline};

use super::schema::{objection_view, FocusObjectionsFile, Objection, ObjectionView};

verus! {

/// `list` emits the file as it is; markdown is refused.
pub fn run_list(format: OutputFormat) -> (r: Result<(), PlanError>)
    ensures
        r is Err <==> format == OutputFormat::Markdown,
        r matches Err(e) ==> e.code == ErrorCode::InvalidInput,
{
    if format == OutputFormat::Markdown {
        return Err(
            PlanError {
                code: ErrorCode::InvalidInput,
                message: "`state focus-objections` does not support --format markdown; use yaml or json".to_owned(),
            },
        );
    }
    Ok(())
}

/// `after` is `before` cleared: no objection left, the schema version
/// kept.
pub open spec fn cleared(before: FocusObjectionsFile, after: FocusObjectionsFile) -> bool {
    after.objections@.len() == 0 && after.schema_version == before.schema_version
}

/// Clearing leaves no objection.
pub fn run_clear(file: &mut FocusObjectionsFile)
    ensures
        cleared(*old(file), *final(file)),
{
    file.objections = Vec::new();
}

/// Clearing is idempotent: clearing a cleared file changes nothing.
pub proof fn lemma_clear_idempotent(a: FocusObjectionsFile, b: FocusObjectionsFile, c: FocusObjectionsFile)
    requires
        cleared(a, b),
        cleared(b, c),
    ensures
        c.objections@ == b.objections@,
        c.schema_version == b.schema_version,
        cleared(a, c),
{
    assert(c.objections@ =~= b.objections@);
}

/// The refusal of an empty value for a flag: `<flag> must be non-empty`.
pub open spec fn empty_flag_message(flag_name: Seq<char>) -> Seq<char> {
    flag_name + " must be non-empty"@
}

fn require_non_empty(value: &str, flag_name: &str) -> (r: Result<(), PlanError>)
    ensures
        r is Ok <==> value@.len() > 0,
        r matches Err(e) ==> e.code == ErrorCode::InvalidInput && e.message@ == empty_flag_message(flag_name@),
{
    if crate::text::char_count(value) == 0 {
        return Err(PlanError { code: ErrorCode::InvalidInput, message: concat2(flag_name, " must be non-empty") });
    }
    Ok(())
}

/// Object that the work belongs in another component. The reasoning must
/// be non-empty; a trailing newline is ensured.
pub fn run_add_wrong_target(file: &mut FocusObjectionsFile, suggested_target: ComponentRef, reasoning: &str) -> (r: Result<(), PlanError>)
    ensures
        r is Ok <==> reasoning@.len() > 0,
        r matches Err(e) ==> e.code == ErrorCode::InvalidInput && *final(file) == *old(file)
            && e.message@ == empty_flag_message("--reasoning"@),
        r is Ok ==> final(file).schema_version == old(file).schema_version
            && final(file).objections@.drop_last() == old(file).objections@
            && final(file).objections@.len() == old(file).objections@.len() + 1
            && objection_view(final(file).objections@.last()) == (ObjectionView::WrongTarget {
                suggested_target: ref_view(suggested_target),
                reasoning: with_trailing_newline(reasoning@),
            }),
{
    match require_non_empty(reasoning, "--reasoning") {
        Ok(()) => {},
        Err(e) => return Err(e),
    }
    let ghost pre = file.objections@;
    file.objections.push(Objection::WrongTarget { suggested_target, reasoning: ensure_trailing_newline(reasoning) });
    assert(file.objections@.drop_last() =~= pre);
    Ok(())
}

/// Object that a focused item should be skipped. The item id and the
/// reasoning must be non-empty.
pub fn run_add_skip_item(file: &mut FocusObjectionsFile, item_id: &str, reasoning: &str) -> (r: Result<(), PlanError>)
    ensures
        r is Ok <==> item_id@.len() > 0 && reasoning@.len() > 0,
        r matches Err(e) ==> e.code == ErrorCode::InvalidInput && *final(file) == *old(file)
            && e.message@ == empty_flag_message(
                if item_id@.len() == 0 {
                    "--item-id"@
                } else {
                    "--reasoning"@
                },
            ),
        r is Ok ==> final(file).schema_version == old(file).schema_version
            && final(file).objections@.drop_last() == old(file).objections@
            && final(file).objections@.len() == old(file).objections@.len() + 1
            && objection_view(final(file).objections@.last()) == (ObjectionView::SkipItem {
                item_id: item_id@,
                reasoning: with_trailing_newline(reasoning@),
            }),
{
    match require_non_empty(item_id, "--item-id") {
        Ok(()) => {},
        Err(e) => return Err(e),
    }
    match require_non_empty(reasoning, "--reasoning") {
        Ok(()) => {},
        Err(e) => return Err(e),
    }
    let ghost pre = file.objections@;
    file.objections.push(Objection::SkipItem { item_id: owned(item_id), reasoning: ensure_trailing_newline(reasoning) });
    assert(file.objections@.drop_last() =~= pre);
    Ok(())
}

/// Object that the focus comes too early. The reasoning must be
/// non-empty.
pub fn run_add_premature(file: &mut FocusObjectionsFile, reasoning: &str) -> (r: Result<(), PlanError>)
    ensures
        r is Ok <==> reasoning@.len() > 0,
        r matches Err(e) ==> e.code == ErrorCode::InvalidInput && *final(file) == *old(file)
            && e.message@ == empty_flag_message("--reasoning"@),
        r is Ok ==> final(file).schema_version == old(file).schema_version
            && final(file).objections@.drop_last() == old(file).objections@
            && final(file).objections@.len() == old(file).objections@.len() + 1
            && objection_view(final(file).objections@.last()) == (ObjectionView::Premature {
                reasoning: with_trailing_newline(reasoning@),
            }),
{
    match require_non_empty(reasoning, "--reasoning") {
        Ok(()) => {},
        Err(e) => return Err(e),
    }
    let ghost pre = file.objections@;
    file.objections.push(Objection::Premature { reasoning: ensure_trailing_newline(reasoning) });
    assert(file.objections@.drop_last() =~= pre);
    Ok(())
}

} // verus!
