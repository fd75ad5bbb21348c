//! The `memory` verbs over an in-memory `MemoryFile`. Reading and writing
//! `memory.yaml` is the caller's part.

use vstd::prelude::*;

use crate::error::{ErrorCode, PlanError};
use crate::plan_kg::{
    clone_opt, new_item, opt_view, set_item_status, spec_legal, ItemStatus, JustificationView,
    MemoryStatus,
};
use crate::state::backlog::schema::{allocate_id, is_allocated, slug};
use crate::text::{str_eq, with_trailing_newline};


use super::schema::{
    entries_same, entry_same, find_index, has_id, id_list, id_views, is_first_with_id, MemoryEntry,
    MemoryFile, MEMORY_SCHEMA_VERSION,
};

verus! {

/// The formats the verbs emit.
#[derive(Debug, Clone, Copy, PartialEq, Eq, Structural)]
pub enum OutputFormat {
    Yaml,
    Json,
}

impl OutputFormat {
    /// The format with the given name.
    pub fn parse(input: &str) -> (r: Option<OutputFormat>)
        ensures
            r == (if input@ == "yaml"@ {
                Some(OutputFormat::Yaml)
            } else if input@ == "json"@ {
                Some(OutputFormat::Json)
            } else {
                None
            }),
    {
        if str_eq(input, "yaml") {
            Some(OutputFormat::Yaml)
        } else if str_eq(input, "json") {
            Some(OutputFormat::Json)
        } else {
            None
        }
    }
}

/// "no memory entry with id X".
pub fn not_found(id: &str) -> (e: PlanError)
    ensures
        e.code == ErrorCode::NotFound,
        e.message@ == "no memory entry with id "@ + crate::text::debug_quoted(id@),
{
    let q = crate::text::debug_quote(id);
    PlanError { code: ErrorCode::NotFound, message: crate::text::concat2("no memory entry with id ", q.as_str()) }
}

/// The first entry with id `id`.
pub fn find_entry<'a>(file: &'a MemoryFile, id: &str) -> (r: Result<&'a MemoryEntry, PlanError>)
    ensures
        match r {
            Ok(e) => exists|i: int| is_first_with_id(file.items@, id@, i) && *e == file.items@[i],
            Err(e) => !has_id(file.items@, id@) && e.code == ErrorCode::NotFound,
        },
{
    match find_index(&file.items, id) {
        Some(i) => Ok(&file.items[i]),
        None => Err(not_found(id)),
    }
}

fn copy_entries(items: &Vec<MemoryEntry>) -> (r: Vec<MemoryEntry>)
    ensures
        entries_same(r@, items@),
{
    let mut r: Vec<MemoryEntry> = Vec::new();
    let mut i: usize = 0;
    while i < items.len()
        invariant
            i <= items@.len(),
            r@.len() == i,
            forall|k: int| 0 <= k < i ==> entry_same(#[trigger] r@[k], items@[k]),
        decreases items.len() - i,
    {
        r.push(items[i].duplicate());
        i += 1;
    }
    r
}

/// The document `list` emits: the whole file.
pub fn run_list(file: &MemoryFile) -> (r: MemoryFile)
    ensures
        r.schema_version == file.schema_version,
        entries_same(r.items@, file.items@),
{
    MemoryFile { schema_version: file.schema_version, items: copy_entries(&file.items) }
}

/// The one-entry file `show` emits.
pub fn run_show(file: &MemoryFile, id: &str) -> (r: Result<MemoryFile, PlanError>)
    ensures
        match r {
            Ok(f) => f.schema_version == MEMORY_SCHEMA_VERSION && f.items@.len() == 1 && exists|i: int|
                is_first_with_id(file.items@, id@, i) && entry_same(f.items@[0], file.items@[i]),
            Err(e) => !has_id(file.items@, id@) && e.code == ErrorCode::NotFound,
        },
{
    let entry = find_entry(file, id)?;
    Ok(MemoryFile { schema_version: MEMORY_SCHEMA_VERSION, items: vec![entry.duplicate()] })
}

/// A request to add one entry.
#[derive(Debug)]
pub struct AddRequest {
    pub title: String,
    pub body: String,
    pub authored_at: Option<String>,
    pub authored_in: Option<String>,
    pub attribution: Option<String>,
}

/// Append a new `active` entry whose id is allocated from its
/// title; its body becomes its one rationale.
pub fn run_add(file: &mut MemoryFile, req: &AddRequest)
    requires
        old(file).items@.len() < usize::MAX,
    ensures
        final(file).schema_version == old(file).schema_version,
        final(file).items@.len() == old(file).items@.len() + 1,
        final(file).items@.drop_last() == old(file).items@,
        ({
            let e = final(file).items@.last();
            &&& is_allocated(id_views(old(file).items@), slug(req.title@), e.item.id@)
            &&& e.item.claim@ == req.title@
            &&& e.item.justifications@.len() == 1
            &&& e.item.justifications@[0]@ == (JustificationView::Rationale {
                text: with_trailing_newline(req.body@),
            })
            &&& e.item.status == MemoryStatus::Active
            &&& e.item.supersedes@.len() == 0
            &&& e.item.superseded_by is None
            &&& e.item.defeated_by is None
            &&& (match req.authored_at {
                Some(t) => e.item.authored_at@ == t@,
                None => exists|secs: u64| e.item.authored_at@ == crate::dates::utc_text(secs as nat),
            })
            &&& (match req.authored_in {
                Some(t) => e.item.authored_in@ == t@,
                None => e.item.authored_in@ == "unspecified"@,
            })
            &&& opt_view(e.attribution) == opt_view(req.attribution)
        }),
{
    let existing = id_list(&file.items);
    let id = allocate_id(req.title.as_str(), &existing);
    let item = new_item(
        id,
        req.title.as_str(),
        req.body.as_str(),
        MemoryStatus::Active,
        &req.authored_at,
        &req.authored_in,
    );
    let entry = MemoryEntry {
        item,
        attribution: clone_opt(&req.attribution),
    };
    let ghost pre = file.items@;
    file.items.push(entry);
    assert(file.items@.drop_last() =~= pre);
}

/// The entry with its status replaced.
pub open spec fn with_status(e: MemoryEntry, s: MemoryStatus) -> MemoryEntry {
    MemoryEntry { item: crate::plan_kg::Item { status: s, ..e.item }, ..e }
}

/// Move an entry to the named status: unknown words and ids are refused,
/// the current status is a no-op, and otherwise the move must be in the
/// transition table.
pub fn run_set_status(file: &mut MemoryFile, id: &str, status_str: &str) -> (r: Result<(), PlanError>)
    ensures
        MemoryStatus::spec_parse(status_str@) is None ==> (r matches Err(e) && e.code
            == ErrorCode::InvalidInput && e.message@ == "unknown memory status "@
            + crate::text::debug_quoted(status_str@) + "; expected one of `active`, `defeated`, `superseded`"@) && *final(file) == *old(file),
        MemoryStatus::spec_parse(status_str@) is Some && !has_id(old(file).items@, id@) ==> (r matches Err(
            e,
        ) && e.code == ErrorCode::NotFound
            && e.message@ == "no memory entry with id "@ + crate::text::debug_quoted(id@)) && *final(file) == *old(file),
        MemoryStatus::spec_parse(status_str@) matches Some(to) ==> forall|i: int|
            is_first_with_id(old(file).items@, id@, i) ==> {
                let from = old(file).items@[i].item.status;
                if from == to || spec_legal(from, to) {
                    &&& r is Ok
                    &&& final(file).schema_version == old(file).schema_version
                    &&& final(file).items@ == old(file).items@.update(i, with_status(old(file).items@[i], to))
                } else {
                    &&& r matches Err(e) && e.code == ErrorCode::InvalidInput && e.message@
                        == crate::plan_kg::transition_message("memory entry"@, id@, from.spec_str(), to.spec_str())
                    &&& *final(file) == *old(file)
                }
            },
{
    let to = match MemoryStatus::parse(status_str) {
        Some(s) => s,
        None => {
            return Err(
                PlanError {
                    code: ErrorCode::InvalidInput,
                    message: crate::text::concat3("unknown memory status ", crate::text::debug_quote(status_str).as_str(), "; expected one of `active`, `defeated`, `superseded`"),
                },
            );
        },
    };
    let i = match find_index(&file.items, id) {
        Some(i) => i,
        None => return Err(not_found(id)),
    };
    let mut item = crate::plan_kg::clone_item(&file.items[i].item);
    match set_item_status(&mut item, to, "memory entry") {
        Ok(()) => {},
        Err(e) => return Err(e),
    }
    let ghost pre = file.items@;
    file.items[i].item.status = item.status;
    assert(file.items@ =~= pre.update(i as int, with_status(pre[i as int], to)));
    Ok(())
}

/// Seed an empty memory with `seed`. A non-empty memory is refused.
pub fn run_init(existing: &mut MemoryFile, seed: MemoryFile) -> (r: Result<(), PlanError>)
    ensures
        r is Ok <==> old(existing).items@.len() == 0,
        r is Ok ==> *final(existing) == seed,
        r is Err ==> r->Err_0.code == ErrorCode::Conflict && *final(existing) == *old(existing),
{
    if existing.items.len() > 0 {
        let n = crate::text::decimal_string(existing.items.len() as u64);
        let msg = crate::text::concat3(
            "refusing to init: memory.yaml is non-empty (",
            n.as_str(),
            " entries). Use `add` for incremental inserts.",
        );
        return Err(PlanError { code: ErrorCode::Conflict, message: msg });
    }
    *existing = seed;
    Ok(())
}

/// The entry with its justifications replaced.
pub open spec fn with_justifications(e: MemoryEntry, js: Vec<crate::plan_kg::Justification>) -> MemoryEntry {
    MemoryEntry { item: crate::plan_kg::Item { justifications: js, ..e.item }, ..e }
}

/// The entry with its claim replaced.
pub open spec fn with_claim(e: MemoryEntry, c: String) -> MemoryEntry {
    MemoryEntry { item: crate::plan_kg::Item { claim: c, ..e.item }, ..e }
}

/// Rewrite an entry's body: its first rationale takes the new text (a
/// trailing newline ensured), or a rationale is put in front when it has
/// none.
pub fn run_set_body(file: &mut MemoryFile, id: &str, body: &str) -> (r: Result<(), PlanError>)
    ensures
        r is Ok <==> has_id(old(file).items@, id@),
        r is Err ==> r->Err_0.code == ErrorCode::NotFound && *final(file) == *old(file),
        r is Ok ==> exists|i: int|
            is_first_with_id(old(file).items@, id@, i) && final(file).items@ == old(file).items@.update(
                i,
                with_justifications(old(file).items@[i], final(file).items@[i].item.justifications),
            ) && (exists|t: String|
                t@ == with_trailing_newline(body@) && final(file).items@[i].item.justifications@
                    == crate::plan_kg::rationale_replaced(old(file).items@[i].item.justifications@, t))
                && final(file).schema_version == old(file).schema_version,
{
    let i = match find_index(&file.items, id) {
        Some(i) => i,
        None => return Err(not_found(id)),
    };
    let text = crate::text::ensure_trailing_newline(body);
    let mut js = crate::plan_kg::clone_justifications(&file.items[i].item.justifications);
    let ghost old_js = js@;
    let ghost t = text;
    crate::plan_kg::set_rationale(&mut js, text);
    let ghost pre = file.items@;
    file.items[i].item.justifications = js;
    assert(file.items@ =~= pre.update(
        i as int,
        with_justifications(pre[i as int], file.items@[i as int].item.justifications),
    ));
    Ok(())
}

/// Replace an entry's title; its id is kept.
pub fn run_set_title(file: &mut MemoryFile, id: &str, new_title: &str) -> (r: Result<(), PlanError>)
    ensures
        r is Ok <==> has_id(old(file).items@, id@),
        r is Err ==> r->Err_0.code == ErrorCode::NotFound && *final(file) == *old(file),
        r is Ok ==> exists|i: int|
            is_first_with_id(old(file).items@, id@, i) && final(file).items@ == old(file).items@.update(
                i,
                with_claim(old(file).items@[i], final(file).items@[i].item.claim),
            ) && final(file).items@[i].item.claim@ == new_title@ && final(file).schema_version == old(
                file,
            ).schema_version,
{
    let i = match find_index(&file.items, id) {
        Some(i) => i,
        None => return Err(not_found(id)),
    };
    let ghost pre = file.items@;
    file.items[i].item.claim = new_title.to_owned();
    assert(file.items@ =~= pre.update(i as int, with_claim(pre[i as int], file.items@[i as int].item.claim)));
    Ok(())
}

/// The entries whose id differs from `id`.
pub open spec fn without_id(items: Seq<MemoryEntry>, id: Seq<char>) -> Seq<MemoryEntry>
    decreases items.len(),
{
    if items.len() == 0 {
        seq![]
    } else {
        without_id(items.drop_last(), id) + if items.last().item.id@ == id {
            seq![]
        } else {
            seq![items.last()]
        }
    }
}

/// Remove every entry with id `id`; refused when there is none.
pub fn run_delete(file: &mut MemoryFile, id: &str) -> (r: Result<(), PlanError>)
    ensures
        r is Ok <==> has_id(old(file).items@, id@),
        r is Err ==> r->Err_0.code == ErrorCode::NotFound && *final(file) == *old(file),
        r is Ok ==> entries_same(final(file).items@, without_id(old(file).items@, id@))
            && final(file).schema_version == old(file).schema_version,
{
    if find_index(&file.items, id).is_none() {
        return Err(not_found(id));
    }
    let ids = id.to_owned();
    let mut kept: Vec<MemoryEntry> = Vec::new();
    let mut i: usize = 0;
    while i < file.items.len()
        invariant
            ids@ == id@,
            i <= file.items@.len(),
            entries_same(kept@, without_id(file.items@.take(i as int), id@)),
        decreases file.items.len() - i,
    {
        let ghost before = kept@;
        assert(file.items@.take(i + 1).drop_last() =~= file.items@.take(i as int));
        if file.items[i].item.id != ids {
            kept.push(file.items[i].duplicate());
            let ghost w = without_id(file.items@.take(i + 1), id@);
            assert(w =~= without_id(file.items@.take(i as int), id@).push(file.items@[i as int]));
        } else {
            assert(without_id(file.items@.take(i + 1), id@) =~= without_id(
                file.items@.take(i as int),
                id@,
            ));
        }
        i += 1;
    }
    assert(file.items@.take(file.items@.len() as int) =~= file.items@);
    file.items = kept;
    Ok(())
}

} // verus!
