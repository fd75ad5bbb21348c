//! The backlog verbs: projections (`list`, `show`) and mutations
//! (`add`, `init`, `set-status`, `set-results`, `set-description`,
//! `set-handoff`, `clear-handoff`, `set-title`, `set-dependencies`,
//! `reorder`, `delete`) over an in-memory `BacklogFile`. Reading and
//! writing `backlog.yaml` is the caller's part.

use vstd::prelude::*;

use crate::error::{ErrorCode, PlanError};
use crate::plan_kg::{
    clone_item, clone_justifications, clone_opt, clone_strings, item_same, rationale_replaced, set_item_status,
    set_rationale, spec_legal, BacklogStatus, Item, ItemStatus, Justification,
};
use crate::state::OutputFormat;
use crate::text::{
    chars_of, concat2, concat3, debug_quote, debug_quoted, is_blank, str_eq, trim, with_trailing_newline,
};

use super::schema::{
    allocate_id, contains_string, find_index, has_id, is_allocated, is_first_with_id, slug,
    views, BacklogEntry, BacklogFile, BACKLOG_SCHEMA_VERSION,
};

verus! {

/// The refusal for an id no item has.
pub open spec fn not_found_message(id: Seq<char>) -> Seq<char> {
    "no item with id "@ + debug_quoted(id) + " in backlog"@
}

/// "no item with id X in backlog".
pub fn not_found_in_backlog(id: &str) -> (e: PlanError)
    ensures
        e.code == ErrorCode::NotFound,
        e.message@ == not_found_message(id@),
{
    let q = debug_quote(id);
    PlanError { code: ErrorCode::NotFound, message: concat3("no item with id ", q.as_str(), " in backlog") }
}

// ----- copying ------------------------------------------------------------

/// The two entries hold the same content (lists compared element-wise).
pub open spec fn entry_same(a: BacklogEntry, b: BacklogEntry) -> bool {
    &&& item_same(a.item, b.item)
    &&& a.category == b.category
    &&& a.blocked_reason == b.blocked_reason
    &&& a.dependencies@ == b.dependencies@
    &&& a.results == b.results
    &&& a.handoff == b.handoff
}

impl BacklogEntry {
    /// A copy of this entry.
    pub fn duplicate(&self) -> (r: BacklogEntry)
        ensures
            entry_same(r, *self),
    {
        BacklogEntry {
            item: clone_item(&self.item),
            category: self.category.clone(),
            blocked_reason: clone_opt(&self.blocked_reason),
            dependencies: clone_strings(&self.dependencies),
            results: clone_opt(&self.results),
            handoff: clone_opt(&self.handoff),
        }
    }
}

// ----- list ---------------------------------------------------------------

/// Filter for `backlog list`.
#[derive(Debug)]
pub struct ListFilter {
    pub status: Option<BacklogStatus>,
    pub category: Option<String>,
    pub ready: bool,
    pub has_handoff: bool,
    pub missing_results: bool,
}

impl Default for ListFilter {
    fn default() -> (r: Self)
        ensures
            r.status is None,
            r.category is None,
            !r.ready,
            !r.has_handoff,
            !r.missing_results,
    {
        ListFilter {
            status: None,
            category: None,
            ready: false,
            has_handoff: false,
            missing_results: false,
        }
    }
}

/// `entry` passes every constraint set in `filter`, where `done` holds the
/// ids of the done items.
pub open spec fn spec_entry_matches(e: BacklogEntry, filter: ListFilter, done: Seq<Seq<char>>) -> bool {
    &&& (filter.status matches Some(s) ==> e.item.status == s)
    &&& (filter.category matches Some(c) ==> e.category@ == c@)
    &&& (filter.ready ==> e.item.status == BacklogStatus::Active && forall|j: int|
        0 <= j < e.dependencies@.len() ==> done.contains((#[trigger] e.dependencies@[j])@))
    &&& (filter.has_handoff ==> e.handoff is Some)
    &&& (filter.missing_results ==> e.item.status == BacklogStatus::Done && e.results is None)
}

/// The filter that sets nothing.
pub open spec fn no_filter() -> ListFilter {
    ListFilter { status: None, category: None, ready: false, has_handoff: false, missing_results: false }
}

/// The filter that sets only the status.
pub open spec fn only_status(s: Option<BacklogStatus>) -> ListFilter {
    ListFilter { status: s, ..no_filter() }
}

/// The filter that sets only the category.
pub open spec fn only_category(c: Option<String>) -> ListFilter {
    ListFilter { category: c, ..no_filter() }
}

/// The filter that sets only the flags given.
pub open spec fn only_flags(ready: bool, has_handoff: bool, missing_results: bool) -> ListFilter {
    ListFilter { ready, has_handoff, missing_results, ..no_filter() }
}

/// What each list filter keeps, taken alone: the empty filter keeps every
/// task; `--status s` the tasks with status `s`; `--category c` those of
/// category `c`; `--ready` the active tasks whose every dependency is
/// done; `--has-handoff` those with a hand-off; `--missing-results` the
/// done tasks without results. Filters set together keep what every one
/// of them keeps.
pub proof fn lemma_list_filters(e: BacklogEntry, done: Seq<Seq<char>>, f: ListFilter)
    ensures
        spec_entry_matches(e, no_filter(), done),
        forall|s: BacklogStatus| spec_entry_matches(e, #[trigger] only_status(Some(s)), done) <==> e.item.status == s,
        forall|c: String| spec_entry_matches(e, #[trigger] only_category(Some(c)), done) <==> e.category@ == c@,
        spec_entry_matches(e, only_flags(true, false, false), done) <==> e.item.status == BacklogStatus::Active
            && forall|j: int| 0 <= j < e.dependencies@.len() ==> done.contains((#[trigger] e.dependencies@[j])@),
        spec_entry_matches(e, only_flags(false, true, false), done) <==> e.handoff is Some,
        spec_entry_matches(e, only_flags(false, false, true), done) <==> e.item.status == BacklogStatus::Done
            && e.results is None,
        spec_entry_matches(e, f, done) <==> {
            &&& spec_entry_matches(e, only_status(f.status), done)
            &&& spec_entry_matches(e, only_category(f.category), done)
            &&& spec_entry_matches(e, only_flags(f.ready, false, false), done)
            &&& spec_entry_matches(e, only_flags(false, f.has_handoff, false), done)
            &&& spec_entry_matches(e, only_flags(false, false, f.missing_results), done)
        },
{
}

/// True iff `entry` passes every filter constraint set in `filter`;
/// `done_ids` are the ids of the done items.
pub fn entry_matches(entry: &BacklogEntry, filter: &ListFilter, done_ids: &Vec<String>) -> (r: bool)
    ensures
        r == spec_entry_matches(*entry, *filter, views(done_ids@)),
{
    if let Some(status) = filter.status {
        if entry.item.status != status {
            return false;
        }
    }
    if let Some(category) = &filter.category {
        if !(entry.category == *category) {
            return false;
        }
    }
    if filter.ready {
        if entry.item.status != BacklogStatus::Active {
            return false;
        }
        let mut j: usize = 0;
        while j < entry.dependencies.len()
            invariant
                filter.ready,
                j <= entry.dependencies@.len(),
                forall|k: int|
                    0 <= k < j ==> views(done_ids@).contains((#[trigger] entry.dependencies@[k])@),
            decreases entry.dependencies.len() - j,
        {
            if !contains_string(done_ids, &entry.dependencies[j]) {
                return false;
            }
            j += 1;
        }
    }
    if filter.has_handoff && entry.handoff.is_none() {
        return false;
    }
    if filter.missing_results && !(entry.item.status == BacklogStatus::Done
        && entry.results.is_none()) {
        return false;
    }
    true
}

/// The ids of the items whose status is `done`, in order.
pub open spec fn done_id_views(items: Seq<BacklogEntry>) -> Seq<Seq<char>>
    decreases items.len(),
{
    if items.len() == 0 {
        seq![]
    } else if items.last().item.status == BacklogStatus::Done {
        done_id_views(items.drop_last()).push(items.last().item.id@)
    } else {
        done_id_views(items.drop_last())
    }
}

proof fn lemma_done_id_views(items: Seq<BacklogEntry>, d: Seq<char>)
    ensures
        done_id_views(items).contains(d) <==> exists|k: int|
            0 <= k < items.len() && (#[trigger] items[k]).item.status == BacklogStatus::Done
                && items[k].item.id@ == d,
    decreases items.len(),
{
    if items.len() > 0 {
        let pre = items.drop_last();
        lemma_done_id_views(pre, d);
        if exists|k: int|
            0 <= k < pre.len() && (#[trigger] pre[k]).item.status == BacklogStatus::Done
                && pre[k].item.id@ == d {
            let k = choose|k: int|
                0 <= k < pre.len() && (#[trigger] pre[k]).item.status == BacklogStatus::Done
                    && pre[k].item.id@ == d;
            assert(items[k] == pre[k]);
        }
        if exists|k: int|
            0 <= k < items.len() && (#[trigger] items[k]).item.status == BacklogStatus::Done
                && items[k].item.id@ == d {
            let k = choose|k: int|
                0 <= k < items.len() && (#[trigger] items[k]).item.status == BacklogStatus::Done
                    && items[k].item.id@ == d;
            if k < items.len() - 1 {
                assert(pre[k] == items[k]);
            }
        }
        if items.last().item.status == BacklogStatus::Done {
            let s = done_id_views(pre);
            if s.push(items.last().item.id@).contains(d) && !s.contains(d) {
                assert(items.last().item.id@ == d) by {
                    let j = choose|j: int| 0 <= j < s.len() + 1 && s.push(items.last().item.id@)[j] == d;
                    if j < s.len() {
                        assert(s[j] == d);
                    }
                }
            }
            if s.contains(d) {
                let j = choose|j: int| 0 <= j < s.len() && s[j] == d;
                assert(s.push(items.last().item.id@)[j] == d);
            }
            if items.last().item.id@ == d {
                assert(s.push(items.last().item.id@)[s.len() as int] == d);
            }
        }
    }
}

/// The ids of the done items.
pub fn done_ids(backlog: &BacklogFile) -> (r: Vec<String>)
    ensures
        views(r@) == done_id_views(backlog.items@),
{
    let mut r: Vec<String> = Vec::new();
    let mut i: usize = 0;
    while i < backlog.items.len()
        invariant
            i <= backlog.items@.len(),
            views(r@) == done_id_views(backlog.items@.subrange(0, i as int)),
        decreases backlog.items.len() - i,
    {
        let ghost next = backlog.items@.subrange(0, i + 1);
        assert(next.drop_last() =~= backlog.items@.subrange(0, i as int));
        if backlog.items[i].item.status == BacklogStatus::Done {
            r.push(backlog.items[i].item.id.clone());
            assert(views(r@) =~= done_id_views(next));
        }
        i += 1;
    }
    assert(backlog.items@.subrange(0, backlog.items@.len() as int) =~= backlog.items@);
    r
}

/// The entries of `items` that pass `filter`, in order.
pub open spec fn filter_entries(items: Seq<BacklogEntry>, filter: ListFilter, done: Seq<
    Seq<char>,
>) -> Seq<BacklogEntry>
    decreases items.len(),
{
    if items.len() == 0 {
        seq![]
    } else if spec_entry_matches(items.last(), filter, done) {
        filter_entries(items.drop_last(), filter, done).push(items.last())
    } else {
        filter_entries(items.drop_last(), filter, done)
    }
}

/// Two entry lists hold the same content, position by position.
pub open spec fn entries_same(a: Seq<BacklogEntry>, b: Seq<BacklogEntry>) -> bool {
    a.len() == b.len() && forall|k: int| 0 <= k < a.len() ==> entry_same(#[trigger] a[k], b[k])
}

/// The projection `backlog list` emits: the items passing `filter`, in
/// their backlog order.
pub fn run_list(backlog: &BacklogFile, filter: &ListFilter) -> (r: BacklogFile)
    ensures
        r.schema_version == BACKLOG_SCHEMA_VERSION,
        entries_same(r.items@, filter_entries(backlog.items@, *filter, done_id_views(backlog.items@))),
{
    let done = done_ids(backlog);
    let mut items: Vec<BacklogEntry> = Vec::new();
    let mut i: usize = 0;
    while i < backlog.items.len()
        invariant
            i <= backlog.items@.len(),
            views(done@) == done_id_views(backlog.items@),
            entries_same(
                items@,
                filter_entries(
                    backlog.items@.subrange(0, i as int),
                    *filter,
                    done_id_views(backlog.items@),
                ),
            ),
        decreases backlog.items.len() - i,
    {
        let ghost next = backlog.items@.subrange(0, i + 1);
        assert(next.drop_last() =~= backlog.items@.subrange(0, i as int));
        if entry_matches(&backlog.items[i], filter, &done) {
            items.push(backlog.items[i].duplicate());
        }
        i += 1;
    }
    assert(backlog.items@.subrange(0, backlog.items@.len() as int) =~= backlog.items@);
    BacklogFile { schema_version: BACKLOG_SCHEMA_VERSION, items }
}

// ----- show ---------------------------------------------------------------

/// The first entry with id `id`.
pub fn find_entry<'a>(backlog: &'a BacklogFile, id: &str) -> (r: Result<&'a BacklogEntry, PlanError>)
    ensures
        match r {
            Ok(e) => exists|i: int| is_first_with_id(backlog.items@, id@, i) && *e == backlog.items@[i],
            Err(e) => !has_id(backlog.items@, id@) && e.code == ErrorCode::NotFound && e.message@
                == not_found_message(id@),
        },
{
    match find_index(&backlog.items, id) {
        Some(i) => Ok(&backlog.items[i]),
        None => Err(not_found_in_backlog(id)),
    }
}

/// The one-item file `backlog show` emits. Markdown is refused: it is
/// only offered by `list`.
pub fn run_show(backlog: &BacklogFile, id: &str, format: OutputFormat) -> (r: Result<
    BacklogFile,
    PlanError,
>)
    ensures
        format == OutputFormat::Markdown ==> (r matches Err(e) && e.code == ErrorCode::InvalidInput
            && e.message@ == "`backlog show` does not support --format markdown; use yaml or json"@),
        format != OutputFormat::Markdown ==> match r {
            Ok(f) => f.schema_version == BACKLOG_SCHEMA_VERSION && f.items@.len() == 1 && exists|
                i: int,
            | is_first_with_id(backlog.items@, id@, i) && entry_same(f.items@[0], backlog.items@[i]),
            Err(e) => !has_id(backlog.items@, id@) && e.code == ErrorCode::NotFound && e.message@
                == not_found_message(id@),
        },
{
    if format == OutputFormat::Markdown {
        return Err(
            PlanError {
                code: ErrorCode::InvalidInput,
                message: "`backlog show` does not support --format markdown; use yaml or json".to_owned(),
            },
        );
    }
    let entry = find_entry(backlog, id)?;
    Ok(BacklogFile { schema_version: BACKLOG_SCHEMA_VERSION, items: vec![entry.duplicate()] })
}

// ----- add / init ---------------------------------------------------------

/// A request to add one backlog item.
#[derive(Debug)]
pub struct AddRequest {
    pub title: String,
    pub category: String,
    pub dependencies: Vec<String>,
    pub description: String,
}

/// Every dependency names an existing item.
pub open spec fn deps_known(items: Seq<BacklogEntry>, deps: Seq<String>) -> bool {
    forall|j: int| 0 <= j < deps.len() ==> has_id(items, (#[trigger] deps[j])@)
}

/// The index of the first dependency that names no existing item.
pub open spec fn first_unknown(items: Seq<BacklogEntry>, deps: Seq<String>) -> int {
    choose|j: int| 0 <= j < deps.len() && !has_id(items, deps[j]@) && forall|k: int|
        0 <= k < j ==> has_id(items, (#[trigger] deps[k])@)
}

/// The refusal for a dependency that names no item: the dependency and
/// the known ids, in backlog order.
pub open spec fn unknown_dep_message(dep: Seq<char>, items: Seq<BacklogEntry>) -> Seq<char> {
    "dependency id "@ + debug_quoted(dep) + " does not exist in backlog; known ids: {"@
        + crate::text::debug_items(id_views(items)) + "}"@
}

fn unknown_dep_error(items: &Vec<BacklogEntry>, dep: &str) -> (e: PlanError)
    ensures
        e.code == ErrorCode::NotFound,
        e.message@ == unknown_dep_message(dep@, items@),
{
    let ids = entry_id_list(items);
    assert(views(ids@) =~= id_views(items@));
    let known = crate::text::debug_items_exec(&ids);
    let q = debug_quote(dep);
    let mut m = concat3("dependency id ", q.as_str(), " does not exist in backlog; known ids: {");
    crate::text::push_str(&mut m, known.as_str());
    crate::text::push_str(&mut m, "}");
    PlanError { code: ErrorCode::NotFound, message: m }
}

/// A first unknown dependency is the one `first_unknown` names.
proof fn lemma_first_unknown(items: Seq<BacklogEntry>, deps: Seq<String>, j: int)
    requires
        0 <= j < deps.len(),
        !has_id(items, deps[j]@),
        forall|k: int| 0 <= k < j ==> has_id(items, (#[trigger] deps[k])@),
    ensures
        first_unknown(items, deps) == j,
{
    let c = first_unknown(items, deps);
    assert(0 <= c < deps.len() && !has_id(items, deps[c]@));
    if c < j {
        assert(has_id(items, deps[c]@));
    } else if c > j {
        assert(has_id(items, deps[j]@));
    }
}

/// The first dependency that names no existing item, if any.
fn first_unknown_dep(items: &Vec<BacklogEntry>, deps: &Vec<String>) -> (r: Option<usize>)
    ensures
        match r {
            Some(j) => j < deps@.len() && !has_id(items@, deps@[j as int]@) && forall|k: int|
                0 <= k < j ==> has_id(items@, (#[trigger] deps@[k])@),
            None => deps_known(items@, deps@),
        },
{
    let mut j: usize = 0;
    while j < deps.len()
        invariant
            j <= deps@.len(),
            forall|k: int| 0 <= k < j ==> has_id(items@, (#[trigger] deps@[k])@),
        decreases deps.len() - j,
    {
        if find_index(items, deps[j].as_str()).is_none() {
            return Some(j);
        }
        j += 1;
    }
    None
}

/// The ids of `items`.
fn entry_id_list(items: &Vec<BacklogEntry>) -> (r: Vec<String>)
    ensures
        r@.len() == items@.len(),
        forall|k: int| 0 <= k < items@.len() ==> r@[k] == (#[trigger] items@[k]).item.id,
{
    let mut r: Vec<String> = Vec::new();
    let mut i: usize = 0;
    while i < items.len()
        invariant
            i <= items@.len(),
            r@.len() == i,
            forall|k: int| 0 <= k < i ==> r@[k] == (#[trigger] items@[k]).item.id,
        decreases items.len() - i,
    {
        r.push(items[i].item.id.clone());
        i += 1;
    }
    r
}

/// The ids of `items`, by view.
pub open spec fn id_views(items: Seq<BacklogEntry>) -> Seq<Seq<char>> {
    items.map_values(|e: BacklogEntry| e.item.id@)
}

/// The UTC wall-clock time as RFC 3339 text.
pub fn current_utc_rfc3339() -> (r: String)
    ensures
        exists|secs: u64| r@ == crate::dates::utc_text(secs as nat),
{
    crate::dates::current_utc_rfc3339()
}

/// Append a new active item whose id is allocated from its title. Every
/// dependency must name an existing item.
pub fn run_add(backlog: &mut BacklogFile, req: &AddRequest) -> (r: Result<(), PlanError>)
    requires
        old(backlog).items@.len() < usize::MAX,
    ensures
        r is Ok <==> deps_known(old(backlog).items@, req.dependencies@),
        r is Err ==> r->Err_0.code == ErrorCode::NotFound && *final(backlog) == *old(backlog)
            && r->Err_0.message@ == unknown_dep_message(
            req.dependencies@[first_unknown(old(backlog).items@, req.dependencies@)]@,
            old(backlog).items@,
        ),
        r is Ok ==> {
            let e = final(backlog).items@.last();
            &&& final(backlog).schema_version == old(backlog).schema_version
            &&& final(backlog).items@.len() == old(backlog).items@.len() + 1
            &&& final(backlog).items@.drop_last() == old(backlog).items@
            &&& is_allocated(id_views(old(backlog).items@), slug(req.title@), e.item.id@)
            &&& e.item.claim@ == req.title@
            &&& e.item.justifications@.len() == 1
            &&& e.item.justifications@[0]@ == crate::plan_kg::JustificationView::Rationale {
                text: with_trailing_newline(req.description@),
            }
            &&& e.item.status == BacklogStatus::Active
            &&& e.item.supersedes@.len() == 0
            &&& e.item.superseded_by is None
            &&& e.item.defeated_by is None
            &&& exists|secs: u64| e.item.authored_at@ == crate::dates::utc_text(secs as nat)
            &&& e.item.authored_in@ == "unspecified"@
            &&& e.category@ == req.category@
            &&& e.blocked_reason is None
            &&& e.dependencies@ == req.dependencies@
            &&& e.results is None
            &&& e.handoff is None
        },
{
    if let Some(j) = first_unknown_dep(&backlog.items, &req.dependencies) {
        proof {
            lemma_first_unknown(backlog.items@, req.dependencies@, j as int);
        }
        return Err(unknown_dep_error(&backlog.items, req.dependencies[j].as_str()));
    }
    let existing = entry_id_list(&backlog.items);
    assert(views(existing@) =~= id_views(backlog.items@));
    let id = allocate_id(req.title.as_str(), &existing);
    let text = crate::text::ensure_trailing_newline(req.description.as_str());
    let entry = BacklogEntry {
        item: Item {
            id,
            claim: req.title.clone(),
            justifications: vec![Justification::Rationale { text }],
            status: BacklogStatus::Active,
            supersedes: Vec::new(),
            superseded_by: None,
            defeated_by: None,
            authored_at: current_utc_rfc3339(),
            authored_in: "unspecified".to_owned(),
        },
        category: req.category.clone(),
        blocked_reason: None,
        dependencies: clone_strings(&req.dependencies),
        results: None,
        handoff: None,
    };
    let ghost pre = backlog.items@;
    backlog.items.push(entry);
    assert(backlog.items@.drop_last() =~= pre);
    Ok(())
}

/// Seed an empty backlog with `seed`. A non-empty backlog is refused.
pub fn run_init(existing: &mut BacklogFile, seed: BacklogFile) -> (r: Result<(), PlanError>)
    ensures
        r is Ok <==> old(existing).items@.len() == 0,
        r is Ok ==> *final(existing) == seed,
        r is Err ==> r->Err_0.code == ErrorCode::Conflict && *final(existing) == *old(existing),
{
    if existing.items.len() > 0 {
        let n = crate::text::decimal_string(existing.items.len() as u64);
        let msg = crate::text::concat3(
            "refusing to init: backlog.yaml is non-empty (",
            n.as_str(),
            " items). Use `add` for incremental inserts.",
        );
        return Err(PlanError { code: ErrorCode::Conflict, message: msg });
    }
    *existing = seed;
    Ok(())
}

// ----- field mutations ----------------------------------------------------

/// `e` with status and blocked reason replaced.
pub open spec fn with_status(e: BacklogEntry, s: BacklogStatus, reason: Option<String>) -> BacklogEntry {
    BacklogEntry { item: Item { status: s, ..e.item }, blocked_reason: reason, ..e }
}

/// `e` with its results replaced.
pub open spec fn with_results(e: BacklogEntry, results: Option<String>) -> BacklogEntry {
    BacklogEntry { results, ..e }
}

/// `e` with its hand-off replaced.
pub open spec fn with_handoff(e: BacklogEntry, handoff: Option<String>) -> BacklogEntry {
    BacklogEntry { handoff, ..e }
}

/// `e` with its claim replaced.
pub open spec fn with_claim(e: BacklogEntry, claim: String) -> BacklogEntry {
    BacklogEntry { item: Item { claim, ..e.item }, ..e }
}

/// `e` with its justifications replaced.
pub open spec fn with_justifications(e: BacklogEntry, js: Vec<Justification>) -> BacklogEntry {
    BacklogEntry { item: Item { justifications: js, ..e.item }, ..e }
}

/// `e` with its dependencies replaced.
pub open spec fn with_dependencies(e: BacklogEntry, deps: Vec<String>) -> BacklogEntry {
    BacklogEntry { dependencies: deps, ..e }
}

/// Set an item's status through the backlog transition table. `blocked`
/// needs a reason; leaving `blocked` clears the reason. Setting the
/// current status is a legal no-op (the reason is still rewritten).
pub fn run_set_status(backlog: &mut BacklogFile, id: &str, status: BacklogStatus, reason: Option<&str>) -> (r:
    Result<(), PlanError>)
    ensures
        status == BacklogStatus::Blocked && reason is None ==> (r matches Err(e) && e.code
            == ErrorCode::InvalidInput && e.message@ == "--reason <text> is required when setting status to `blocked`"@)
            && *final(backlog) == *old(backlog),
        !(status == BacklogStatus::Blocked && reason is None) && !has_id(old(backlog).items@, id@)
            ==> (r matches Err(e) && e.code == ErrorCode::NotFound && e.message@ == not_found_message(id@))
            && *final(backlog) == *old(backlog),
        !(status == BacklogStatus::Blocked && reason is None) ==> forall|i: int|
            is_first_with_id(old(backlog).items@, id@, i) ==> {
                let from = old(backlog).items@[i].item.status;
                if from == status || spec_legal(from, status) {
                    &&& r is Ok
                    &&& final(backlog).schema_version == old(backlog).schema_version
                    &&& final(backlog).items@ == old(backlog).items@.update(
                        i,
                        with_status(
                            old(backlog).items@[i],
                            status,
                            final(backlog).items@[i].blocked_reason,
                        ),
                    )
                    &&& if status == BacklogStatus::Blocked {
                        final(backlog).items@[i].blocked_reason matches Some(s) && s@
                            == reason->0@
                    } else {
                        final(backlog).items@[i].blocked_reason is None
                    }
                } else {
                    &&& r matches Err(e) && e.code == ErrorCode::InvalidInput && e.message@
                        == crate::plan_kg::transition_message("backlog item"@, id@, from.spec_str(), status.spec_str())
                    &&& *final(backlog) == *old(backlog)
                }
            },
{
    if status == BacklogStatus::Blocked && reason.is_none() {
        return Err(
            PlanError {
                code: ErrorCode::InvalidInput,
                message: "--reason <text> is required when setting status to `blocked`".to_owned(),
            },
        );
    }
    let i = match find_index(&backlog.items, id) {
        Some(i) => i,
        None => return Err(not_found_in_backlog(id)),
    };
    let mut item = clone_item(&backlog.items[i].item);
    match set_item_status(&mut item, status, "backlog item") {
        Ok(()) => {},
        Err(e) => return Err(e),
    }
    let new_reason = if status == BacklogStatus::Blocked {
        match reason {
            Some(text) => Some(text.to_owned()),
            None => None,
        }
    } else {
        None
    };
    let ghost pre = backlog.items@;
    backlog.items[i].item.status = item.status;
    backlog.items[i].blocked_reason = new_reason;
    assert(backlog.items@ =~= pre.update(
        i as int,
        with_status(pre[i as int], status, backlog.items@[i as int].blocked_reason),
    ));
    Ok(())
}

/// Record an item's results (a trailing newline is ensured).
pub fn run_set_results(backlog: &mut BacklogFile, id: &str, body: &str) -> (r: Result<(), PlanError>)
    ensures
        r is Ok <==> has_id(old(backlog).items@, id@),
        r is Err ==> r->Err_0.code == ErrorCode::NotFound && *final(backlog) == *old(backlog)
            && r->Err_0.message@ == not_found_message(id@),
        r is Ok ==> exists|i: int|
            is_first_with_id(old(backlog).items@, id@, i) && final(backlog).items@ == old(backlog).items@.update(i, with_results(old(backlog).items@[i], final(backlog).items@[i].results))
                && (final(backlog).items@[i].results matches Some(s) && s@ == with_trailing_newline(
                body@,
            )) && final(backlog).schema_version == old(backlog).schema_version,
{
    let i = match find_index(&backlog.items, id) {
        Some(i) => i,
        None => return Err(not_found_in_backlog(id)),
    };
    let ghost pre = backlog.items@;
    backlog.items[i].results = Some(crate::text::ensure_trailing_newline(body));
    assert(backlog.items@ =~= pre.update(
        i as int,
        with_results(pre[i as int], backlog.items@[i as int].results),
    ));
    Ok(())
}

/// Record an item's hand-off (a trailing newline is ensured).
pub fn run_set_handoff(backlog: &mut BacklogFile, id: &str, body: &str) -> (r: Result<(), PlanError>)
    ensures
        r is Ok <==> has_id(old(backlog).items@, id@),
        r is Err ==> r->Err_0.code == ErrorCode::NotFound && *final(backlog) == *old(backlog)
            && r->Err_0.message@ == not_found_message(id@),
        r is Ok ==> exists|i: int|
            is_first_with_id(old(backlog).items@, id@, i) && final(backlog).items@ == old(backlog).items@.update(i, with_handoff(old(backlog).items@[i], final(backlog).items@[i].handoff))
                && (final(backlog).items@[i].handoff matches Some(s) && s@ == with_trailing_newline(
                body@,
            )) && final(backlog).schema_version == old(backlog).schema_version,
{
    let i = match find_index(&backlog.items, id) {
        Some(i) => i,
        None => return Err(not_found_in_backlog(id)),
    };
    let ghost pre = backlog.items@;
    backlog.items[i].handoff = Some(crate::text::ensure_trailing_newline(body));
    assert(backlog.items@ =~= pre.update(
        i as int,
        with_handoff(pre[i as int], backlog.items@[i as int].handoff),
    ));
    Ok(())
}

/// Clear an item's hand-off.
pub fn run_clear_handoff(backlog: &mut BacklogFile, id: &str) -> (r: Result<(), PlanError>)
    ensures
        r is Ok <==> has_id(old(backlog).items@, id@),
        r is Err ==> r->Err_0.code == ErrorCode::NotFound && *final(backlog) == *old(backlog)
            && r->Err_0.message@ == not_found_message(id@),
        r is Ok ==> exists|i: int|
            is_first_with_id(old(backlog).items@, id@, i) && final(backlog).items@ == old(backlog).items@.update(i, with_handoff(old(backlog).items@[i], None))
                && final(backlog).schema_version == old(backlog).schema_version,
{
    let i = match find_index(&backlog.items, id) {
        Some(i) => i,
        None => return Err(not_found_in_backlog(id)),
    };
    let ghost pre = backlog.items@;
    backlog.items[i].handoff = None;
    assert(backlog.items@ =~= pre.update(i as int, with_handoff(pre[i as int], None)));
    Ok(())
}

/// Replace an item's title (its claim); the id is kept.
pub fn run_set_title(backlog: &mut BacklogFile, id: &str, new_title: &str) -> (r: Result<
    (),
    PlanError,
>)
    ensures
        r is Ok <==> has_id(old(backlog).items@, id@),
        r is Err ==> r->Err_0.code == ErrorCode::NotFound && *final(backlog) == *old(backlog)
            && r->Err_0.message@ == not_found_message(id@),
        r is Ok ==> exists|i: int|
            is_first_with_id(old(backlog).items@, id@, i) && final(backlog).items@ == old(backlog).items@.update(i, with_claim(old(backlog).items@[i], final(backlog).items@[i].item.claim))
                && final(backlog).items@[i].item.claim@ == new_title@ && final(backlog).schema_version == old(backlog).schema_version,
{
    let i = match find_index(&backlog.items, id) {
        Some(i) => i,
        None => return Err(not_found_in_backlog(id)),
    };
    let ghost pre = backlog.items@;
    backlog.items[i].item.claim = new_title.to_owned();
    assert(backlog.items@ =~= pre.update(
        i as int,
        with_claim(pre[i as int], backlog.items@[i as int].item.claim),
    ));
    Ok(())
}

/// Rewrite an item's description (its first rationale, or a new one in
/// front). The body must not be blank.
pub fn run_set_description(backlog: &mut BacklogFile, id: &str, body: &str) -> (r: Result<
    (),
    PlanError,
>)
    ensures
        trim(body@).len() == 0 ==> (r matches Err(e) && e.code == ErrorCode::InvalidInput && e.message@
            == "description body must not be empty or whitespace-only"@) && *final(backlog) == *old(backlog),
        trim(body@).len() > 0 && !has_id(old(backlog).items@, id@) ==> (r matches Err(e)
            && e.code == ErrorCode::NotFound && e.message@ == not_found_message(id@)) && *final(backlog)
            == *old(backlog),
        trim(body@).len() > 0 && has_id(old(backlog).items@, id@) ==> r is Ok && exists|i: int|
            is_first_with_id(old(backlog).items@, id@, i) && final(backlog).items@ == old(
                backlog,
            ).items@.update(
                i,
                with_justifications(
                    old(backlog).items@[i],
                    final(backlog).items@[i].item.justifications,
                ),
            ) && exists|text: String|
                text@ == with_trailing_newline(body@) && final(backlog).items@[i].item.justifications@
                    == rationale_replaced(old(backlog).items@[i].item.justifications@, text)
                    && final(backlog).schema_version == old(backlog).schema_version,
{
    let bc = chars_of(body);
    if is_blank(bc.as_slice()) {
        return Err(
            PlanError {
                code: ErrorCode::InvalidInput,
                message: "description body must not be empty or whitespace-only".to_owned(),
            },
        );
    }
    let i = match find_index(&backlog.items, id) {
        Some(i) => i,
        None => return Err(not_found_in_backlog(id)),
    };
    let text = crate::text::ensure_trailing_newline(body);
    let ghost t = text;
    let ghost pre = backlog.items@;
    set_rationale(&mut backlog.items[i].item.justifications, text);
    assert(backlog.items@ =~= pre.update(
        i as int,
        with_justifications(pre[i as int], backlog.items@[i as int].item.justifications),
    ));
    Ok(())
}

/// Where `reorder` puts the moved item relative to the target.
#[derive(Debug, Clone, Copy, PartialEq, Eq, Structural)]
pub enum ReorderPosition {
    Before,
    After,
}

impl ReorderPosition {
    /// `before` or `after`.
    pub fn parse(input: &str) -> (r: Option<ReorderPosition>)
        ensures
            r == (if input@ == "before"@ {
                Some(ReorderPosition::Before)
            } else if input@ == "after"@ {
                Some(ReorderPosition::After)
            } else {
                None
            }),
    {
        if str_eq(input, "before") {
            Some(ReorderPosition::Before)
        } else if str_eq(input, "after") {
            Some(ReorderPosition::After)
        } else {
            None
        }
    }
}

/// Move item `id` directly before or after item `target_id`.
pub fn run_reorder(backlog: &mut BacklogFile, id: &str, position: ReorderPosition, target_id: &str) -> (r:
    Result<(), PlanError>)
    ensures
        id@ == target_id@ ==> (r matches Err(e) && e.code == ErrorCode::InvalidInput && e.message@
            == "cannot reorder an item relative to itself"@),
        r is Err ==> *final(backlog) == *old(backlog),
        id@ != target_id@ && !has_id(old(backlog).items@, id@) ==> (r matches Err(e) && e.code
            == ErrorCode::NotFound && e.message@ == not_found_message(id@)),
        id@ != target_id@ ==> forall|s: int|
            is_first_with_id(old(backlog).items@, id@, s) ==> {
                let rest = old(backlog).items@.remove(s);
                &&& (!has_id(rest, target_id@) ==> (r matches Err(e) && e.code
                    == ErrorCode::NotFound && e.message@ == "no target item with id "@ + debug_quoted(
                    target_id@,
                ) + " in backlog"@))
                &&& forall|t: int|
                    is_first_with_id(rest, target_id@, t) ==> r is Ok && final(backlog).items@
                        == rest.insert(
                        if position == ReorderPosition::Before {
                            t
                        } else {
                            t + 1
                        },
                        old(backlog).items@[s],
                    ) && final(backlog).schema_version == old(backlog).schema_version
            },
{
    if str_eq(id, target_id) {
        return Err(
            PlanError {
                code: ErrorCode::InvalidInput,
                message: "cannot reorder an item relative to itself".to_owned(),
            },
        );
    }
    let s = match find_index(&backlog.items, id) {
        Some(s) => s,
        None => return Err(not_found_in_backlog(id)),
    };
    let t0 = match find_index(&backlog.items, target_id) {
        Some(t0) => t0,
        None => {
            proof {
                let rest = backlog.items@.remove(s as int);
                if has_id(rest, target_id@) {
                    let k = choose|k: int|
                        0 <= k < rest.len() && (#[trigger] rest[k]).item.id@ == target_id@;
                    if k < s {
                        assert(backlog.items@[k] == rest[k]);
                    } else {
                        assert(backlog.items@[k + 1] == rest[k]);
                    }
                }
            }
            return Err(
                PlanError {
                    code: ErrorCode::NotFound,
                    message: concat3("no target item with id ", debug_quote(target_id).as_str(), " in backlog"),
                },
            );
        },
    };
    let ghost pre = backlog.items@;
    let t = if t0 < s {
        t0
    } else {
        t0 - 1
    };
    proof {
        let rest = pre.remove(s as int);
        assert(is_first_with_id(rest, target_id@, t as int)) by {
            assert forall|k: int| 0 <= k < t implies (#[trigger] rest[k]).item.id@ != target_id@ by {
                if k < s {
                    assert(rest[k] == pre[k]);
                } else {
                    assert(rest[k] == pre[k + 1]);
                }
            }
            if t0 < s {
                assert(rest[t as int] == pre[t0 as int]);
            } else {
                assert(rest[t as int] == pre[t0 as int]);
            }
        }
        assert forall|u: int| is_first_with_id(rest, target_id@, u) implies u == t by {
            if u < t {
                assert(rest[u].item.id@ != target_id@);
            } else if u > t {
                assert(rest[t as int].item.id@ == target_id@);
            }
        }
    }
    let entry = backlog.items.remove(s);
    assert(t < backlog.items@.len());
    let at = match position {
        ReorderPosition::Before => t,
        ReorderPosition::After => t + 1,
    };
    backlog.items.insert(at, entry);
    Ok(())
}

/// `deps` without every entry equal to `id`.
pub open spec fn without_dep(deps: Seq<Seq<char>>, id: Seq<char>) -> Seq<Seq<char>>
    decreases deps.len(),
{
    if deps.len() == 0 {
        seq![]
    } else if deps.last() == id {
        without_dep(deps.drop_last(), id)
    } else {
        without_dep(deps.drop_last(), id).push(deps.last())
    }
}

/// `items` without every entry whose id is `id`.
pub open spec fn without_item(items: Seq<BacklogEntry>, id: Seq<char>) -> Seq<BacklogEntry>
    decreases items.len(),
{
    if items.len() == 0 {
        seq![]
    } else if items.last().item.id@ == id {
        without_item(items.drop_last(), id)
    } else {
        without_item(items.drop_last(), id).push(items.last())
    }
}

/// Some item lists `id` among its dependencies.
pub open spec fn has_dependent(items: Seq<BacklogEntry>, id: Seq<char>) -> bool {
    exists|k: int| 0 <= k < items.len() && views((#[trigger] items[k]).dependencies@).contains(id)
}

/// `deps` without `id`.
fn strip_dep(deps: &Vec<String>, id: &String) -> (r: Vec<String>)
    ensures
        views(r@) == without_dep(views(deps@), id@),
{
    let mut r: Vec<String> = Vec::new();
    let mut i: usize = 0;
    while i < deps.len()
        invariant
            i <= deps@.len(),
            views(r@) == without_dep(views(deps@.subrange(0, i as int)), id@),
        decreases deps.len() - i,
    {
        let ghost next = deps@.subrange(0, i + 1);
        assert(views(next).drop_last() =~= views(deps@.subrange(0, i as int)));
        if !(deps[i] == *id) {
            r.push(deps[i].clone());
            assert(views(r@) =~= without_dep(views(next), id@));
        }
        i += 1;
    }
    assert(deps@.subrange(0, deps@.len() as int) =~= deps@);
    r
}

/// The ids of the items listing `id` among their dependencies, in order.
pub open spec fn dependents(items: Seq<BacklogEntry>, id: Seq<char>) -> Seq<Seq<char>>
    decreases items.len(),
{
    if items.len() == 0 {
        seq![]
    } else {
        dependents(items.drop_last(), id) + if views(items.last().dependencies@).contains(id) {
            seq![items.last().item.id@]
        } else {
            seq![]
        }
    }
}

/// No dependents exactly when no item lists `id`.
proof fn lemma_dependents_empty(items: Seq<BacklogEntry>, id: Seq<char>)
    ensures
        dependents(items, id).len() == 0 <==> !has_dependent(items, id),
    decreases items.len(),
{
    if items.len() > 0 {
        let p = items.drop_last();
        lemma_dependents_empty(p, id);
        if has_dependent(p, id) {
            let k = choose|k: int| 0 <= k < p.len() && views((#[trigger] p[k]).dependencies@).contains(id);
            assert(items[k] == p[k]);
        }
        if has_dependent(items, id) && !views(items.last().dependencies@).contains(id) {
            let k = choose|k: int| 0 <= k < items.len() && views((#[trigger] items[k]).dependencies@).contains(id);
            assert(p[k] == items[k]);
        }
    }
}

/// The ids of the items listing `id` among their dependencies.
fn dependents_of(items: &Vec<BacklogEntry>, id: &String) -> (r: Vec<String>)
    ensures
        views(r@) == dependents(items@, id@),
        r@.len() == 0 <==> !has_dependent(items@, id@),
{
    let mut r: Vec<String> = Vec::new();
    let mut i: usize = 0;
    while i < items.len()
        invariant
            i <= items@.len(),
            views(r@) == dependents(items@.subrange(0, i as int), id@),
        decreases items.len() - i,
    {
        let ghost next = items@.subrange(0, i + 1);
        assert(next.drop_last() =~= items@.subrange(0, i as int));
        assert(next.last() == items@[i as int]);
        let ghost before = views(r@);
        if contains_string(&items[i].dependencies, id) {
            r.push(items[i].item.id.clone());
            assert(views(r@) =~= before + seq![items@[i as int].item.id@]);
        } else {
            assert(views(r@) =~= before + seq![]);
        }
        i += 1;
    }
    assert(items@.subrange(0, items@.len() as int) =~= items@);
    proof {
        lemma_dependents_empty(items@, id@);
    }
    r
}

/// The refusal to delete an item others depend on.
pub open spec fn delete_refusal(id: Seq<char>, deps: Seq<Seq<char>>) -> Seq<char> {
    "refusing to delete "@ + id + ": item is a dependency of "@ + crate::text::debug_list(deps)
        + ". Rerun with --force to cascade-remove the dep references."@
}

/// Delete item `id`. An item other items depend on is refused unless
/// `force`, which first removes the dependency references.
pub fn run_delete(backlog: &mut BacklogFile, id: &str, force: bool) -> (r: Result<(), PlanError>)
    ensures
        has_dependent(old(backlog).items@, id@) && !force ==> (r matches Err(e) && e.code
            == ErrorCode::Conflict && e.message@ == delete_refusal(id@, dependents(old(backlog).items@, id@))),
        !(has_dependent(old(backlog).items@, id@) && !force) && !has_id(old(backlog).items@, id@)
            ==> (r matches Err(e) && e.code == ErrorCode::NotFound && e.message@ == not_found_message(id@)),
        r is Ok <==> has_id(old(backlog).items@, id@) && !(has_dependent(old(backlog).items@, id@) && !force),
        r is Err ==> *final(backlog) == *old(backlog),
        r is Ok ==> {
            let kept = without_item(old(backlog).items@, id@);
            &&& !(has_dependent(old(backlog).items@, id@) && !force)
            &&& has_id(old(backlog).items@, id@)
            &&& final(backlog).schema_version == old(backlog).schema_version
            &&& final(backlog).items@.len() == kept.len()
            &&& forall|k: int|
                0 <= k < kept.len() ==> {
                    let a = #[trigger] final(backlog).items@[k];
                    let b = kept[k];
                    &&& item_same(a.item, b.item)
                    &&& a.category == b.category
                    &&& a.blocked_reason == b.blocked_reason
                    &&& a.results == b.results
                    &&& a.handoff == b.handoff
                    &&& if force {
                        views(a.dependencies@) == without_dep(views(b.dependencies@), id@)
                    } else {
                        a.dependencies@ == b.dependencies@
                    }
                }
        },
{
    let ids = id.to_owned();
    let dependents = dependents_of(&backlog.items, &ids);
    if dependents.len() > 0 && !force {
        let list = crate::text::debug_list_exec(&dependents);
        let mut msg = concat3("refusing to delete ", id, ": item is a dependency of ");
        crate::text::push_str(&mut msg, list.as_str());
        crate::text::push_str(&mut msg, ". Rerun with --force to cascade-remove the dep references.");
        return Err(PlanError { code: ErrorCode::Conflict, message: msg });
    }
    if find_index(&backlog.items, id).is_none() {
        return Err(not_found_in_backlog(id));
    }
    let mut kept: Vec<BacklogEntry> = Vec::new();
    let mut i: usize = 0;
    while i < backlog.items.len()
        invariant
            i <= backlog.items@.len(),
            ids@ == id@,
            kept@.len() == without_item(backlog.items@.subrange(0, i as int), id@).len(),
            forall|k: int|
                0 <= k < kept@.len() ==> {
                    let a = #[trigger] kept@[k];
                    let b = without_item(backlog.items@.subrange(0, i as int), id@)[k];
                    &&& item_same(a.item, b.item)
                    &&& a.category == b.category
                    &&& a.blocked_reason == b.blocked_reason
                    &&& a.results == b.results
                    &&& a.handoff == b.handoff
                    &&& if force {
                        views(a.dependencies@) == without_dep(views(b.dependencies@), id@)
                    } else {
                        a.dependencies@ == b.dependencies@
                    }
                },
        decreases backlog.items.len() - i,
    {
        let ghost next = backlog.items@.subrange(0, i + 1);
        assert(next.drop_last() =~= backlog.items@.subrange(0, i as int));
        if !(backlog.items[i].item.id == ids) {
            let mut e = backlog.items[i].duplicate();
            if force {
                e.dependencies = strip_dep(&backlog.items[i].dependencies, &ids);
            }
            kept.push(e);
        }
        i += 1;
    }
    assert(backlog.items@.subrange(0, backlog.items@.len() as int) =~= backlog.items@);
    backlog.items = kept;
    Ok(())
}

// ----- dependency graph ---------------------------------------------------

/// The index of the first item with id `x` (meaningful when one exists).
pub open spec fn first_id_index(items: Seq<BacklogEntry>, x: Seq<char>) -> int {
    choose|i: int| is_first_with_id(items, x, i)
}

/// The dependencies of node `x`: those of the first item with id `x`, or
/// none when no item has that id.
pub open spec fn successors(items: Seq<BacklogEntry>, x: Seq<char>) -> Seq<Seq<char>> {
    if has_id(items, x) {
        views(items[first_id_index(items, x)].dependencies@)
    } else {
        seq![]
    }
}

/// `p` follows dependency edges.
pub open spec fn is_dep_path(items: Seq<BacklogEntry>, p: Seq<Seq<char>>) -> bool {
    &&& p.len() >= 1
    &&& forall|k: int| 0 <= k < p.len() - 1 ==> successors(items, #[trigger] p[k]).contains(p[k + 1])
}

/// Following dependency edges from `from` can reach `to`.
pub open spec fn dep_reachable(items: Seq<BacklogEntry>, from: Seq<char>, to: Seq<char>) -> bool {
    exists|p: Seq<Seq<char>>| is_dep_path(items, p) && p[0] == from && p.last() == to
}

/// The first item with an id is found at its first index.
pub proof fn lemma_first_index_unique(items: Seq<BacklogEntry>, x: Seq<char>, i: int)
    requires
        is_first_with_id(items, x, i),
    ensures
        first_id_index(items, x) == i,
        has_id(items, x),
{
    let c = first_id_index(items, x);
    assert(is_first_with_id(items, x, c));
    if c < i {
        assert(items[c].item.id@ != x);
    } else if c > i {
        assert(items[i].item.id@ != x);
    }
}

/// Number of `false` entries.
pub open spec fn count_false(v: Seq<bool>) -> nat
    decreases v.len(),
{
    if v.len() == 0 {
        0
    } else {
        count_false(v.drop_last()) + if v.last() {
            0nat
        } else {
            1nat
        }
    }
}

proof fn lemma_count_false_mark(v: Seq<bool>, j: int)
    requires
        0 <= j < v.len(),
        !v[j],
    ensures
        count_false(v.update(j, true)) + 1 == count_false(v),
    decreases v.len(),
{
    let w = v.update(j, true);
    if j == v.len() - 1 {
        assert(w.drop_last() =~= v.drop_last());
    } else {
        assert(w.drop_last() =~= v.drop_last().update(j, true));
        lemma_count_false_mark(v.drop_last(), j);
    }
}

/// `dep` differs from `to`, and if it names an item, that item is marked.
pub open spec fn dep_ok(items: Seq<BacklogEntry>, to: Seq<char>, marked: Seq<bool>, dep: Seq<char>) -> bool {
    dep != to && (has_id(items, dep) ==> marked[first_id_index(items, dep)])
}

/// Every dependency of item `j` is `dep_ok`.
pub open spec fn processed(items: Seq<BacklogEntry>, to: Seq<char>, marked: Seq<bool>, j: int) -> bool {
    forall|d: int|
        0 <= d < items[j].dependencies@.len() ==> dep_ok(items, to, marked, (#[trigger] items[j].dependencies@[d])@)
}

/// When some item has the id, the first index names the first such item.
pub proof fn lemma_first_exists(items: Seq<BacklogEntry>, x: Seq<char>, k: int)
    requires
        0 <= k < items.len(),
        items[k].item.id@ == x,
    ensures
        is_first_with_id(items, x, first_id_index(items, x)),
    decreases k,
{
    if exists|k2: int| 0 <= k2 < k && (#[trigger] items[k2]).item.id@ == x {
        let k2 = choose|k2: int| 0 <= k2 < k && (#[trigger] items[k2]).item.id@ == x;
        lemma_first_exists(items, x, k2);
    } else {
        assert(is_first_with_id(items, x, k));
    }
}

proof fn lemma_dep_ok_grows(items: Seq<BacklogEntry>, to: Seq<char>, m0: Seq<bool>, m1: Seq<bool>, dep: Seq<char>)
    requires
        m0.len() == items.len(),
        m1.len() == items.len(),
        forall|j: int| 0 <= j < items.len() && #[trigger] m0[j] ==> m1[j],
        dep_ok(items, to, m0, dep),
    ensures
        dep_ok(items, to, m1, dep),
{
    if has_id(items, dep) {
        let k = choose|k: int| 0 <= k < items.len() && (#[trigger] items[k]).item.id@ == dep;
        lemma_first_exists(items, dep, k);
        assert(m0[first_id_index(items, dep)]);
    }
}

proof fn lemma_processed_grows(items: Seq<BacklogEntry>, to: Seq<char>, m0: Seq<bool>, m1: Seq<bool>, j: int)
    requires
        m0.len() == items.len(),
        m1.len() == items.len(),
        forall|j: int| 0 <= j < items.len() && #[trigger] m0[j] ==> m1[j],
        processed(items, to, m0, j),
    ensures
        processed(items, to, m1, j),
{
    assert forall|d: int| 0 <= d < items[j].dependencies@.len() implies dep_ok(
        items,
        to,
        m1,
        (#[trigger] items[j].dependencies@[d])@,
    ) by {
        lemma_dep_ok_grows(items, to, m0, m1, items[j].dependencies@[d]@);
    }
}

/// Every marked item has been processed.
pub open spec fn closed(items: Seq<BacklogEntry>, to: Seq<char>, marked: Seq<bool>) -> bool {
    &&& marked.len() == items.len()
    &&& forall|j: int| 0 <= j < items.len() && #[trigger] marked[j] ==> processed(items, to, marked, j)
}

proof fn lemma_path_extend(items: Seq<BacklogEntry>, from: Seq<char>, x: Seq<char>, y: Seq<char>)
    requires
        dep_reachable(items, from, x),
        successors(items, x).contains(y),
    ensures
        dep_reachable(items, from, y),
{
    let p = choose|p: Seq<Seq<char>>| is_dep_path(items, p) && p[0] == from && p.last() == x;
    let q = p.push(y);
    assert forall|k: int| 0 <= k < q.len() - 1 implies successors(items, #[trigger] q[k]).contains(
        q[k + 1],
    ) by {
        if k < p.len() - 1 {
            assert(q[k] == p[k] && q[k + 1] == p[k + 1]);
        } else {
            assert(q[k] == x);
        }
    }
    assert(is_dep_path(items, q) && q[0] == from && q.last() == y);
}

proof fn lemma_closed_unreachable(
    items: Seq<BacklogEntry>,
    from: Seq<char>,
    to: Seq<char>,
    marked: Seq<bool>,
)
    requires
        from != to,
        closed(items, to, marked),
        has_id(items, from) ==> marked[first_id_index(items, from)],
    ensures
        !dep_reachable(items, from, to),
{
    if dep_reachable(items, from, to) {
        let p = choose|p: Seq<Seq<char>>| is_dep_path(items, p) && p[0] == from && p.last() == to;
        lemma_walk(items, from, to, marked, p, p.len() - 1);
        assert(p.len() >= 2);
        assert(p[p.len() - 1] != to);
    }
}

proof fn lemma_walk(
    items: Seq<BacklogEntry>,
    from: Seq<char>,
    to: Seq<char>,
    marked: Seq<bool>,
    p: Seq<Seq<char>>,
    k: int,
)
    requires
        closed(items, to, marked),
        has_id(items, from) ==> marked[first_id_index(items, from)],
        is_dep_path(items, p),
        p[0] == from,
        0 <= k < p.len(),
    ensures
        k > 0 ==> p[k] != to,
        has_id(items, p[k]) ==> marked[first_id_index(items, p[k])],
    decreases k,
{
    if k > 0 {
        lemma_walk(items, from, to, marked, p, k - 1);
        let x = p[k - 1];
        assert(successors(items, x).contains(p[k]));
        assert(has_id(items, x));
        let k0 = choose|k0: int| 0 <= k0 < items.len() && (#[trigger] items[k0]).item.id@ == x;
        lemma_first_exists(items, x, k0);
        let j = first_id_index(items, x);
        assert(marked[j]);
        assert(processed(items, to, marked, j));
        let ds = items[j].dependencies@;
        let d = choose|d: int| 0 <= d < views(ds).len() && views(ds)[d] == p[k];
        assert(ds[d]@ == p[k]);
    }
}

/// Following dependency edges from `from` can reach `to` (a worklist
/// search; cycles in the graph are tolerated).
pub fn dependency_path_exists(backlog: &BacklogFile, from: &str, to: &str) -> (r: bool)
    ensures
        r == dep_reachable(backlog.items@, from@, to@),
{
    let ghost items = backlog.items@;
    if str_eq(from, to) {
        let ghost p = seq![from@];
        assert(is_dep_path(items, p) && p[0] == from@ && p.last() == to@);
        return true;
    }
    let to_s = to.to_owned();
    let n = backlog.items.len();
    let mut marked: Vec<bool> = Vec::new();
    while marked.len() < n
        invariant
            marked@.len() <= n,
            forall|k: int| 0 <= k < marked@.len() ==> !marked@[k],
        decreases n - marked.len(),
    {
        marked.push(false);
    }
    let start = match find_index(&backlog.items, from) {
        Some(i) => i,
        None => {
            proof {
                lemma_closed_unreachable(items, from@, to@, marked@);
            }
            return false;
        },
    };
    proof {
        lemma_first_index_unique(items, from@, start as int);
        let p = seq![from@];
        assert(is_dep_path(items, p) && p[0] == from@ && p.last() == items[start as int].item.id@);
    }
    marked.set(start, true);
    let mut order: Vec<usize> = Vec::new();
    order.push(start);
    proof {
        assert(order@[0] == start);
    }
    let mut head: usize = 0;
    while head < order.len()
        invariant
            n == items.len(),
            items == backlog.items@,
            to_s@ == to@,
            from@ != to@,
            start < n,
            is_first_with_id(items, from@, start as int),
            marked@[start as int],
            marked@.len() == n,
            head <= order@.len(),
            forall|k: int| 0 <= k < order@.len() ==> (#[trigger] order@[k]) < n && marked@[order@[k] as int],
            forall|j: int|
                0 <= j < n && #[trigger] marked@[j] ==> is_first_with_id(items, items[j].item.id@, j)
                    && dep_reachable(items, from@, items[j].item.id@) && order@.contains(j as usize),
            forall|k: int| 0 <= k < head ==> processed(items, to@, marked@, #[trigger] order@[k] as int),
        decreases count_false(marked@), order@.len() - head,
    {
        let i = order[head];
        let ghost before = marked@;
        let ghost order_before = order@;
        let deps = &backlog.items[i].dependencies;
        let mut d: usize = 0;
        while d < deps.len()
            invariant
                n == items.len(),
                items == backlog.items@,
                to_s@ == to@,
                from@ != to@,
                i < n,
                head < order@.len(),
                order@[head as int] == i,
                deps == backlog.items@[i as int].dependencies,
                d <= deps@.len(),
                marked@.len() == n,
                marked@[start as int],
                is_first_with_id(items, from@, start as int),
                forall|j: int| 0 <= j < n && #[trigger] before[j] ==> marked@[j],
                count_false(marked@) <= count_false(before),
                count_false(marked@) == count_false(before) ==> order@ == order_before,
                order_before.len() <= order@.len(),
                forall|k: int| 0 <= k < order_before.len() ==> order@[k] == order_before[k],
                forall|k: int| 0 <= k < order@.len() ==> (#[trigger] order@[k]) < n && marked@[order@[k] as int],
                forall|j: int|
                    0 <= j < n && #[trigger] marked@[j] ==> is_first_with_id(items, items[j].item.id@, j)
                        && dep_reachable(items, from@, items[j].item.id@) && order@.contains(j as usize),
                forall|k: int| 0 <= k < head ==> processed(items, to@, marked@, #[trigger] order@[k] as int),
                forall|k: int| 0 <= k < d ==> dep_ok(items, to@, marked@, (#[trigger] deps@[k])@),
            decreases deps.len() - d,
        {
            let ghost dep = deps@[d as int]@;
            proof {
                assert(marked@[i as int]);
                lemma_first_index_unique(items, items[i as int].item.id@, i as int);
                assert(views(deps@)[d as int] == dep);
                assert(successors(items, items[i as int].item.id@).contains(dep));
                lemma_path_extend(items, from@, items[i as int].item.id@, dep);
            }
            if deps[d] == to_s {
                return true;
            }
            match find_index(&backlog.items, deps[d].as_str()) {
                Some(j) => {
                    proof {
                        lemma_first_index_unique(items, dep, j as int);
                    }
                    if !marked[j] {
                        let ghost m0 = marked@;
                        let ghost o0 = order@;
                        proof {
                            lemma_count_false_mark(marked@, j as int);
                        }
                        marked.set(j, true);
                        order.push(j);
                        proof {
                            assert(order@[o0.len() as int] == j);
                            assert forall|x: int| 0 <= x < n && #[trigger] m0[x] implies marked@[x] by {}
                            assert forall|k: int| 0 <= k < head implies processed(
                                items,
                                to@,
                                marked@,
                                #[trigger] order@[k] as int,
                            ) by {
                                assert(order@[k] == o0[k]);
                                assert(processed(items, to@, m0, o0[k] as int));
                                lemma_processed_grows(items, to@, m0, marked@, o0[k] as int);
                            }
                            assert forall|k: int| 0 <= k < d implies dep_ok(
                                items,
                                to@,
                                marked@,
                                (#[trigger] deps@[k])@,
                            ) by {
                                lemma_dep_ok_grows(items, to@, m0, marked@, deps@[k]@);
                            }
                            assert forall|jj: int|
                                0 <= jj < n && #[trigger] marked@[jj] implies is_first_with_id(
                                items,
                                items[jj].item.id@,
                                jj,
                            ) && dep_reachable(items, from@, items[jj].item.id@) && order@.contains(
                                jj as usize,
                            ) by {
                                if jj != j as int {
                                    assert(m0[jj]);
                                    let w = choose|w: int| 0 <= w < o0.len() && o0[w] == jj as usize;
                                    assert(order@[w] == jj as usize);
                                } else {
                                    assert(order@[o0.len() as int] == jj as usize);
                                }
                            }
                            assert forall|k: int| 0 <= k < order@.len() implies (#[trigger] order@[k]) < n
                                && marked@[order@[k] as int] by {
                                if k < o0.len() {
                                    assert(order@[k] == o0[k]);
                                }
                            }
                        }
                    }
                },
                None => {},
            }
            assert(dep_ok(items, to@, marked@, deps@[d as int]@));
            d += 1;
        }
        proof {
            assert(processed(items, to@, marked@, i as int));
        }
        head += 1;
    }
    proof {
        assert forall|j: int| 0 <= j < items.len() && #[trigger] marked@[j] implies processed(
            items,
            to@,
            marked@,
            j,
        ) by {
            let w = choose|w: int| 0 <= w < order@.len() && order@[w] == j as usize;
            assert(processed(items, to@, marked@, order@[w] as int));
        }
        lemma_first_index_unique(items, from@, start as int);
        lemma_closed_unreachable(items, from@, to@, marked@);
    }
    false
}

/// Replace an item's dependencies. Refuses a self-reference, an unknown
/// id, or a list that would close a dependency cycle.
pub fn run_set_dependencies(backlog: &mut BacklogFile, id: &str, deps: &Vec<String>) -> (r: Result<
    (),
    PlanError,
>)
    ensures
        r is Err ==> *final(backlog) == *old(backlog),
        r is Ok <==> {
            &&& has_id(old(backlog).items@, id@)
            &&& !views(deps@).contains(id@)
            &&& deps_known(old(backlog).items@, deps@)
            &&& forall|j: int|
                0 <= j < deps@.len() ==> !dep_reachable(old(backlog).items@, (#[trigger] deps@[j])@, id@)
        },
        !has_id(old(backlog).items@, id@) ==> (r matches Err(e) && e.code == ErrorCode::NotFound
            && e.message@ == not_found_message(id@)),
        has_id(old(backlog).items@, id@) && views(deps@).contains(id@) ==> (r matches Err(e)
            && e.code == ErrorCode::InvalidInput && e.message@ == "item "@ + debug_quoted(id@)
            + " cannot depend on itself"@),
        has_id(old(backlog).items@, id@) && !views(deps@).contains(id@) && !deps_known(old(backlog).items@, deps@)
            ==> (r matches Err(e) && e.code == ErrorCode::NotFound && e.message@ == unknown_dep_message(
            deps@[first_unknown(old(backlog).items@, deps@)]@,
            old(backlog).items@,
        )),
        has_id(old(backlog).items@, id@) && !views(deps@).contains(id@) && deps_known(old(backlog).items@, deps@)
            && (exists|j: int| 0 <= j < deps@.len() && dep_reachable(old(backlog).items@, (#[trigger] deps@[j])@, id@))
            ==> (r matches Err(e) && e.code == ErrorCode::InvalidInput && exists|j: int|
            0 <= j < deps@.len() && dep_reachable(old(backlog).items@, deps@[j]@, id@) && (forall|k: int|
                0 <= k < j ==> !dep_reachable(old(backlog).items@, (#[trigger] deps@[k])@, id@)) && e.message@
                == "refusing to set dependencies on "@ + debug_quoted(id@) + ": would create a cycle through "@
                + debug_quoted(deps@[j]@)),
        r is Ok ==> exists|i: int|
            is_first_with_id(old(backlog).items@, id@, i) && final(backlog).items@ == old(
                backlog,
            ).items@.update(i, with_dependencies(old(backlog).items@[i], final(backlog).items@[i].dependencies))
                && final(backlog).items@[i].dependencies@ == deps@ && final(backlog).schema_version
                == old(backlog).schema_version,
{
    let t = match find_index(&backlog.items, id) {
        Some(t) => t,
        None => return Err(not_found_in_backlog(id)),
    };
    let ids = id.to_owned();
    if contains_string(deps, &ids) {
        return Err(
            PlanError {
                code: ErrorCode::InvalidInput,
                message: concat3("item ", debug_quote(id).as_str(), " cannot depend on itself"),
            },
        );
    }
    if let Some(j) = first_unknown_dep(&backlog.items, deps) {
        proof {
            lemma_first_unknown(backlog.items@, deps@, j as int);
        }
        return Err(unknown_dep_error(&backlog.items, deps[j].as_str()));
    }
    let mut j: usize = 0;
    while j < deps.len()
        invariant
            *backlog == *old(backlog),
            has_id(backlog.items@, id@),
            !views(deps@).contains(id@),
            deps_known(backlog.items@, deps@),
            is_first_with_id(backlog.items@, id@, t as int),
            j <= deps@.len(),
            forall|k: int| 0 <= k < j ==> !dep_reachable(backlog.items@, (#[trigger] deps@[k])@, id@),
        decreases deps.len() - j,
    {
        if dependency_path_exists(backlog, deps[j].as_str(), id) {
            let mut msg = concat3("refusing to set dependencies on ", debug_quote(id).as_str(), ": would create a cycle through ");
            crate::text::push_str(&mut msg, debug_quote(deps[j].as_str()).as_str());
            let e = PlanError { code: ErrorCode::InvalidInput, message: msg };
            assert(0 <= j < deps@.len() && dep_reachable(backlog.items@, deps@[j as int]@, id@) && (forall|k: int|
                0 <= k < j ==> !dep_reachable(backlog.items@, (#[trigger] deps@[k])@, id@)) && e.message@
                == "refusing to set dependencies on "@ + debug_quoted(id@) + ": would create a cycle through "@
                + debug_quoted(deps@[j as int]@));
            return Err(e);
        }
        j += 1;
    }
    let ghost pre = backlog.items@;
    backlog.items[t].dependencies = clone_strings(deps);
    assert(backlog.items@ =~= pre.update(
        t as int,
        with_dependencies(pre[t as int], backlog.items@[t as int].dependencies),
    ));
    Ok(())
}

} // verus!
