//! The `findings` verbs over an in-memory `FindingsFile`. Reading and writing
//! `findings.yaml` is the caller's part.

use vstd::prelude::*;

use crate::error::{ErrorCode, PlanError};
use crate::plan_kg::{
    clone_opt, new_item, opt_view, set_item_status, spec_legal, ItemStatus, JustificationView,
    FindingStatus,
};
use crate::state::backlog::schema::{allocate_id, is_allocated, slug};
use crate::text::{str_eq, with_trailing_newline};


use super::schema::{
    entries_same, entry_same, find_index, has_id, id_list, id_views, is_first_with_id, FindingEntry,
    FindingsFile, FINDINGS_SCHEMA_VERSION,
};

verus! {

/// The formats the verbs emit.
#[derive(Debug, Clone, Copy, PartialEq, Eq, Structural)]
pub enum OutputFormat {
    Yaml,
    Json,
}

impl OutputFormat {
    /// The format with the given name.
    pub fn parse(input: &str) -> (r: Option<OutputFormat>)
        ensures
            r == (if input@ == "yaml"@ {
                Some(OutputFormat::Yaml)
            } else if input@ == "json"@ {
                Some(OutputFormat::Json)
            } else {
                None
            }),
    {
        if str_eq(input, "yaml") {
            Some(OutputFormat::Yaml)
        } else if str_eq(input, "json") {
            Some(OutputFormat::Json)
        } else {
            None
        }
    }
}

/// "no finding with id X".
pub fn not_found(id: &str) -> (e: PlanError)
    ensures
        e.code == ErrorCode::NotFound,
        e.message@ == "no finding with id "@ + crate::text::debug_quoted(id@),
{
    let q = crate::text::debug_quote(id);
    PlanError { code: ErrorCode::NotFound, message: crate::text::concat2("no finding with id ", q.as_str()) }
}

/// The first entry with id `id`.
pub fn find_entry<'a>(file: &'a FindingsFile, id: &str) -> (r: Result<&'a FindingEntry, PlanError>)
    ensures
        match r {
            Ok(e) => exists|i: int| is_first_with_id(file.items@, id@, i) && *e == file.items@[i],
            Err(e) => !has_id(file.items@, id@) && e.code == ErrorCode::NotFound,
        },
{
    match find_index(&file.items, id) {
        Some(i) => Ok(&file.items[i]),
        None => Err(not_found(id)),
    }
}

fn copy_entries(items: &Vec<FindingEntry>) -> (r: Vec<FindingEntry>)
    ensures
        entries_same(r@, items@),
{
    let mut r: Vec<FindingEntry> = Vec::new();
    let mut i: usize = 0;
    while i < items.len()
        invariant
            i <= items@.len(),
            r@.len() == i,
            forall|k: int| 0 <= k < i ==> entry_same(#[trigger] r@[k], items@[k]),
        decreases items.len() - i,
    {
        r.push(items[i].duplicate());
        i += 1;
    }
    r
}

/// The document `list` emits: the whole file.
pub fn run_list(file: &FindingsFile) -> (r: FindingsFile)
    ensures
        r.schema_version == file.schema_version,
        entries_same(r.items@, file.items@),
{
    FindingsFile { schema_version: file.schema_version, items: copy_entries(&file.items) }
}

/// The one-entry file `show` emits.
pub fn run_show(file: &FindingsFile, id: &str) -> (r: Result<FindingsFile, PlanError>)
    ensures
        match r {
            Ok(f) => f.schema_version == FINDINGS_SCHEMA_VERSION && f.items@.len() == 1 && exists|i: int|
                is_first_with_id(file.items@, id@, i) && entry_same(f.items@[0], file.items@[i]),
            Err(e) => !has_id(file.items@, id@) && e.code == ErrorCode::NotFound,
        },
{
    let entry = find_entry(file, id)?;
    Ok(FindingsFile { schema_version: FINDINGS_SCHEMA_VERSION, items: vec![entry.duplicate()] })
}

/// A request to add one entry.
#[derive(Debug)]
pub struct AddRequest {
    pub claim: String,
    pub body: String,
    pub authored_at: Option<String>,
    pub authored_in: Option<String>,
    pub component: Option<String>,
    pub raised_in: Option<String>,
}

/// Append a new `new` entry whose id is allocated from its
/// claim; its body becomes its one rationale.
pub fn run_add(file: &mut FindingsFile, req: &AddRequest)
    requires
        old(file).items@.len() < usize::MAX,
    ensures
        final(file).schema_version == old(file).schema_version,
        final(file).items@.len() == old(file).items@.len() + 1,
        final(file).items@.drop_last() == old(file).items@,
        ({
            let e = final(file).items@.last();
            &&& is_allocated(id_views(old(file).items@), slug(req.claim@), e.item.id@)
            &&& e.item.claim@ == req.claim@
            &&& e.item.justifications@.len() == 1
            &&& e.item.justifications@[0]@ == (JustificationView::Rationale {
                text: with_trailing_newline(req.body@),
            })
            &&& e.item.status == FindingStatus::New
            &&& e.item.supersedes@.len() == 0
            &&& e.item.superseded_by is None
            &&& e.item.defeated_by is None
            &&& (match req.authored_at {
                Some(t) => e.item.authored_at@ == t@,
                None => exists|secs: u64| e.item.authored_at@ == crate::dates::utc_text(secs as nat),
            })
            &&& (match req.authored_in {
                Some(t) => e.item.authored_in@ == t@,
                None => e.item.authored_in@ == "unspecified"@,
            })
            &&& opt_view(e.component) == opt_view(req.component)
            &&& opt_view(e.raised_in) == opt_view(req.raised_in)
        }),
{
    let existing = id_list(&file.items);
    let id = allocate_id(req.claim.as_str(), &existing);
    let item = new_item(
        id,
        req.claim.as_str(),
        req.body.as_str(),
        FindingStatus::New,
        &req.authored_at,
        &req.authored_in,
    );
    let entry = FindingEntry {
        item,
        component: clone_opt(&req.component),
        raised_in: clone_opt(&req.raised_in),
    };
    let ghost pre = file.items@;
    file.items.push(entry);
    assert(file.items@.drop_last() =~= pre);
}

/// The entry with its status replaced.
pub open spec fn with_status(e: FindingEntry, s: FindingStatus) -> FindingEntry {
    FindingEntry { item: crate::plan_kg::Item { status: s, ..e.item }, ..e }
}

/// Move an entry to the named status: unknown words and ids are refused,
/// the current status is a no-op, and otherwise the move must be in the
/// transition table.
pub fn run_set_status(file: &mut FindingsFile, id: &str, status_str: &str) -> (r: Result<(), PlanError>)
    ensures
        FindingStatus::spec_parse(status_str@) is None ==> (r matches Err(e) && e.code
            == ErrorCode::InvalidInput && e.message@ == "unknown finding status "@
            + crate::text::debug_quoted(status_str@) + "; expected one of `new`, `promoted`, `wontfix`, `superseded`"@) && *final(file) == *old(file),
        FindingStatus::spec_parse(status_str@) is Some && !has_id(old(file).items@, id@) ==> (r matches Err(
            e,
        ) && e.code == ErrorCode::NotFound
            && e.message@ == "no finding with id "@ + crate::text::debug_quoted(id@)) && *final(file) == *old(file),
        FindingStatus::spec_parse(status_str@) matches Some(to) ==> forall|i: int|
            is_first_with_id(old(file).items@, id@, i) ==> {
                let from = old(file).items@[i].item.status;
                if from == to || spec_legal(from, to) {
                    &&& r is Ok
                    &&& final(file).schema_version == old(file).schema_version
                    &&& final(file).items@ == old(file).items@.update(i, with_status(old(file).items@[i], to))
                } else {
                    &&& r matches Err(e) && e.code == ErrorCode::InvalidInput && e.message@
                        == crate::plan_kg::transition_message("finding"@, id@, from.spec_str(), to.spec_str())
                    &&& *final(file) == *old(file)
                }
            },
{
    let to = match FindingStatus::parse(status_str) {
        Some(s) => s,
        None => {
            return Err(
                PlanError {
                    code: ErrorCode::InvalidInput,
                    message: crate::text::concat3("unknown finding status ", crate::text::debug_quote(status_str).as_str(), "; expected one of `new`, `promoted`, `wontfix`, `superseded`"),
                },
            );
        },
    };
    let i = match find_index(&file.items, id) {
        Some(i) => i,
        None => return Err(not_found(id)),
    };
    let mut item = crate::plan_kg::clone_item(&file.items[i].item);
    match set_item_status(&mut item, to, "finding") {
        Ok(()) => {},
        Err(e) => return Err(e),
    }
    let ghost pre = file.items@;
    file.items[i].item.status = item.status;
    assert(file.items@ =~= pre.update(i as int, with_status(pre[i as int], to)));
    Ok(())
}

} // verus!
