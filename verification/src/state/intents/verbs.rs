//! The `intents` verbs over an in-memory `IntentsFile`. Reading and writing
//! `intents.yaml` is the caller's part.

use vstd::prelude::*;

use crate::error::{ErrorCode, PlanError};
use crate::plan_kg::{
    clone_opt, new_item, opt_view, set_item_status, spec_legal, ItemStatus, JustificationView,
    IntentStatus,
};
use crate::state::backlog::schema::{allocate_id, is_allocated, slug};
use crate::text::{str_eq, with_trailing_newline};
use crate::state::OutputFormat;

use super::schema::{
    entries_same, entry_same, find_index, has_id, id_list, id_views, is_first_with_id, IntentEntry,
    IntentsFile, INTENTS_SCHEMA_VERSION,
};

verus! {


/// "no intent with id X".
pub fn not_found(id: &str) -> (e: PlanError)
    ensures
        e.code == ErrorCode::NotFound,
        e.message@ == "no intent with id "@ + crate::text::debug_quoted(id@),
{
    let q = crate::text::debug_quote(id);
    PlanError { code: ErrorCode::NotFound, message: crate::text::concat2("no intent with id ", q.as_str()) }
}

/// The first entry with id `id`.
pub fn find_entry<'a>(file: &'a IntentsFile, id: &str) -> (r: Result<&'a IntentEntry, PlanError>)
    ensures
        match r {
            Ok(e) => exists|i: int| is_first_with_id(file.items@, id@, i) && *e == file.items@[i],
            Err(e) => !has_id(file.items@, id@) && e.code == ErrorCode::NotFound,
        },
{
    match find_index(&file.items, id) {
        Some(i) => Ok(&file.items[i]),
        None => Err(not_found(id)),
    }
}

fn copy_entries(items: &Vec<IntentEntry>) -> (r: Vec<IntentEntry>)
    ensures
        entries_same(r@, items@),
{
    let mut r: Vec<IntentEntry> = Vec::new();
    let mut i: usize = 0;
    while i < items.len()
        invariant
            i <= items@.len(),
            r@.len() == i,
            forall|k: int| 0 <= k < i ==> entry_same(#[trigger] r@[k], items@[k]),
        decreases items.len() - i,
    {
        r.push(items[i].duplicate());
        i += 1;
    }
    r
}

/// The document `list` emits: the whole file. Markdown is refused.
pub fn run_list(file: &IntentsFile, format: OutputFormat) -> (r: Result<IntentsFile, PlanError>)
    ensures
        format == OutputFormat::Markdown <==> r is Err,
        r matches Err(e) ==> e.code == ErrorCode::InvalidInput,
        r matches Ok(f) ==> f.schema_version == file.schema_version && entries_same(f.items@, file.items@),
{
    if format == OutputFormat::Markdown {
        return Err(markdown_refused());
    }
    Ok(IntentsFile { schema_version: file.schema_version, items: copy_entries(&file.items) })
}

fn markdown_refused() -> (e: PlanError)
    ensures
        e.code == ErrorCode::InvalidInput,
{
    PlanError {
        code: ErrorCode::InvalidInput,
        message: "`state intents` does not support --format markdown; use yaml or json".to_owned(),
    }
}

/// The one-entry file `show` emits. Markdown is refused.
pub fn run_show(file: &IntentsFile, id: &str, format: OutputFormat) -> (r: Result<IntentsFile, PlanError>)
    ensures
        format == OutputFormat::Markdown ==> (r matches Err(e) && e.code == ErrorCode::InvalidInput),
        format != OutputFormat::Markdown ==> match r {
            Ok(f) => f.schema_version == INTENTS_SCHEMA_VERSION && f.items@.len() == 1 && exists|i: int|
                is_first_with_id(file.items@, id@, i) && entry_same(f.items@[0], file.items@[i]),
            Err(e) => !has_id(file.items@, id@) && e.code == ErrorCode::NotFound,
        },
{
    if format == OutputFormat::Markdown {
        return Err(markdown_refused());
    }
    let entry = find_entry(file, id)?;
    Ok(IntentsFile { schema_version: INTENTS_SCHEMA_VERSION, items: vec![entry.duplicate()] })
}

/// A request to add one entry.
#[derive(Debug)]
pub struct AddRequest {
    pub claim: String,
    pub body: String,
    pub authored_at: Option<String>,
    pub authored_in: Option<String>,
}

/// Append a new `active` entry whose id is allocated from its
/// claim; its body becomes its one rationale.
pub fn run_add(file: &mut IntentsFile, req: &AddRequest)
    requires
        old(file).items@.len() < usize::MAX,
    ensures
        final(file).schema_version == old(file).schema_version,
        final(file).items@.len() == old(file).items@.len() + 1,
        final(file).items@.drop_last() == old(file).items@,
        ({
            let e = final(file).items@.last();
            &&& is_allocated(id_views(old(file).items@), slug(req.claim@), e.item.id@)
            &&& e.item.claim@ == req.claim@
            &&& e.item.justifications@.len() == 1
            &&& e.item.justifications@[0]@ == (JustificationView::Rationale {
                text: with_trailing_newline(req.body@),
            })
            &&& e.item.status == IntentStatus::Active
            &&& e.item.supersedes@.len() == 0
            &&& e.item.superseded_by is None
            &&& e.item.defeated_by is None
            &&& (match req.authored_at {
                Some(t) => e.item.authored_at@ == t@,
                None => exists|secs: u64| e.item.authored_at@ == crate::dates::utc_text(secs as nat),
            })
            &&& (match req.authored_in {
                Some(t) => e.item.authored_in@ == t@,
                None => e.item.authored_in@ == "unspecified"@,
            })
        }),
{
    let existing = id_list(&file.items);
    let id = allocate_id(req.claim.as_str(), &existing);
    let item = new_item(
        id,
        req.claim.as_str(),
        req.body.as_str(),
        IntentStatus::Active,
        &req.authored_at,
        &req.authored_in,
    );
    let entry = IntentEntry {
        item,
    };
    let ghost pre = file.items@;
    file.items.push(entry);
    assert(file.items@.drop_last() =~= pre);
}

/// The entry with its status replaced.
pub open spec fn with_status(e: IntentEntry, s: IntentStatus) -> IntentEntry {
    IntentEntry { item: crate::plan_kg::Item { status: s, ..e.item }, ..e }
}

/// Move an entry to the named status: unknown words and ids are refused,
/// the current status is a no-op, and otherwise the move must be in the
/// transition table.
pub fn run_set_status(file: &mut IntentsFile, id: &str, status_str: &str) -> (r: Result<(), PlanError>)
    ensures
        IntentStatus::spec_parse(status_str@) is None ==> (r matches Err(e) && e.code
            == ErrorCode::InvalidInput && e.message@ == "unknown intent status "@
            + crate::text::debug_quoted(status_str@) + "; expected one of `active`, `satisfied`, `defeated`, `superseded`"@) && *final(file) == *old(file),
        IntentStatus::spec_parse(status_str@) is Some && !has_id(old(file).items@, id@) ==> (r matches Err(
            e,
        ) && e.code == ErrorCode::NotFound
            && e.message@ == "no intent with id "@ + crate::text::debug_quoted(id@)) && *final(file) == *old(file),
        IntentStatus::spec_parse(status_str@) matches Some(to) ==> forall|i: int|
            is_first_with_id(old(file).items@, id@, i) ==> {
                let from = old(file).items@[i].item.status;
                if from == to || spec_legal(from, to) {
                    &&& r is Ok
                    &&& final(file).schema_version == old(file).schema_version
                    &&& final(file).items@ == old(file).items@.update(i, with_status(old(file).items@[i], to))
                } else {
                    &&& r matches Err(e) && e.code == ErrorCode::InvalidInput && e.message@
                        == crate::plan_kg::transition_message("intent"@, id@, from.spec_str(), to.spec_str())
                    &&& *final(file) == *old(file)
                }
            },
{
    let to = match IntentStatus::parse(status_str) {
        Some(s) => s,
        None => {
            return Err(
                PlanError {
                    code: ErrorCode::InvalidInput,
                    message: crate::text::concat3("unknown intent status ", crate::text::debug_quote(status_str).as_str(), "; expected one of `active`, `satisfied`, `defeated`, `superseded`"),
                },
            );
        },
    };
    let i = match find_index(&file.items, id) {
        Some(i) => i,
        None => return Err(not_found(id)),
    };
    let mut item = crate::plan_kg::clone_item(&file.items[i].item);
    match set_item_status(&mut item, to, "intent") {
        Ok(()) => {},
        Err(e) => return Err(e),
    }
    let ghost pre = file.items@;
    file.items[i].item.status = item.status;
    assert(file.items@ =~= pre.update(i as int, with_status(pre[i as int], to)));
    Ok(())
}

} // verus!
