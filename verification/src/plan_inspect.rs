//! Read-only queries across a plan's four typed stores (intents, backlog,
//! memory, findings): list every item, find one by id without knowing
//! its kind, and filter by status or by justification kind, within one
//! kind or across all of them. Loading the files is the caller's part.

use vstd::prelude::*;

use crate::error::{ErrorCode, PlanError};
use crate::plan_kg::{
    BacklogStatus, FindingStatus, IntentStatus, Item, ItemStatus, Justification, MemoryStatus,
};
use crate::state::backlog::schema::{BacklogEntry, BacklogFile, BACKLOG_SCHEMA_VERSION};
use crate::state::findings::schema::{FindingEntry, FindingsFile, FINDINGS_SCHEMA_VERSION};
use crate::state::intents::schema::{IntentEntry, IntentsFile, INTENTS_SCHEMA_VERSION};
use crate::state::memory::schema::{MemoryEntry, MemoryFile, MEMORY_SCHEMA_VERSION};
use crate::text::str_eq;

verus! {

// ----- selectors ------------------------------------------------------------

/// The kinds of plan item.
#[derive(Debug, Clone, Copy, PartialEq, Eq, Structural)]
pub enum PlanItemKind {
    Intent,
    BacklogItem,
    MemoryEntry,
    Finding,
}

/// The kind a `--kind` word names.
pub open spec fn kind_named(s: Seq<char>) -> Option<PlanItemKind> {
    if s == "intent"@ {
        Some(PlanItemKind::Intent)
    } else if s == "backlog-item"@ {
        Some(PlanItemKind::BacklogItem)
    } else if s == "memory-entry"@ {
        Some(PlanItemKind::MemoryEntry)
    } else if s == "finding"@ {
        Some(PlanItemKind::Finding)
    } else {
        None
    }
}

impl PlanItemKind {
    /// `intent`, `backlog-item`, `memory-entry` or `finding`; anything else
    /// is refused.
    pub fn parse(input: &str) -> (r: Result<PlanItemKind, PlanError>)
        ensures
            match kind_named(input@) {
                Some(k) => r == Ok::<PlanItemKind, PlanError>(k),
                None => r matches Err(e) && e.code == ErrorCode::InvalidInput && e.message@ == "unknown --kind "@
                    + crate::text::debug_quoted(input@) + "; expected one of `intent`, `backlog-item`, `memory-entry`, `finding`"@,
            },
    {
        if str_eq(input, "intent") {
            Ok(PlanItemKind::Intent)
        } else if str_eq(input, "backlog-item") {
            Ok(PlanItemKind::BacklogItem)
        } else if str_eq(input, "memory-entry") {
            Ok(PlanItemKind::MemoryEntry)
        } else if str_eq(input, "finding") {
            Ok(PlanItemKind::Finding)
        } else {
            Err(
                PlanError {
                    code: ErrorCode::InvalidInput,
                    message: crate::text::concat3(
                        "unknown --kind ",
                        crate::text::debug_quote(input).as_str(),
                        "; expected one of `intent`, `backlog-item`, `memory-entry`, `finding`",
                    ),
                },
            )
        }
    }
}

/// One of the six justification shapes, without data.
#[derive(Debug, Clone, Copy, PartialEq, Eq, Structural)]
pub enum JustificationKindFilter {
    CodeAnchor,
    Rationale,
    ServesIntent,
    Defeats,
    Supersedes,
    External,
}

/// The justification has the shape `jk` selects.
pub open spec fn kind_matches(jk: JustificationKindFilter, j: Justification) -> bool {
    match jk {
        JustificationKindFilter::CodeAnchor => j is CodeAnchor,
        JustificationKindFilter::Rationale => j is Rationale,
        JustificationKindFilter::ServesIntent => j is ServesIntent,
        JustificationKindFilter::Defeats => j is Defeats,
        JustificationKindFilter::Supersedes => j is Supersedes,
        JustificationKindFilter::External => j is External,
    }
}

/// The shape a `--justification-kind` word names.
pub open spec fn justification_kind_named(s: Seq<char>) -> Option<JustificationKindFilter> {
    if s == "code-anchor"@ {
        Some(JustificationKindFilter::CodeAnchor)
    } else if s == "rationale"@ {
        Some(JustificationKindFilter::Rationale)
    } else if s == "serves-intent"@ {
        Some(JustificationKindFilter::ServesIntent)
    } else if s == "defeats"@ {
        Some(JustificationKindFilter::Defeats)
    } else if s == "supersedes"@ {
        Some(JustificationKindFilter::Supersedes)
    } else if s == "external"@ {
        Some(JustificationKindFilter::External)
    } else {
        None
    }
}

impl JustificationKindFilter {
    /// `code-anchor`, `rationale`, `serves-intent`, `defeats`,
    /// `supersedes` or `external`; anything else is refused.
    pub fn parse(input: &str) -> (r: Result<JustificationKindFilter, PlanError>)
        ensures
            match justification_kind_named(input@) {
                Some(k) => r == Ok::<JustificationKindFilter, PlanError>(k),
                None => r matches Err(e) && e.code == ErrorCode::InvalidInput && e.message@ == "unknown --justification-kind "@
                    + crate::text::debug_quoted(input@) + "; expected one of `code-anchor`, `rationale`, `serves-intent`, `defeats`, `supersedes`, `external`"@,
            },
    {
        if str_eq(input, "code-anchor") {
            Ok(JustificationKindFilter::CodeAnchor)
        } else if str_eq(input, "rationale") {
            Ok(JustificationKindFilter::Rationale)
        } else if str_eq(input, "serves-intent") {
            Ok(JustificationKindFilter::ServesIntent)
        } else if str_eq(input, "defeats") {
            Ok(JustificationKindFilter::Defeats)
        } else if str_eq(input, "supersedes") {
            Ok(JustificationKindFilter::Supersedes)
        } else if str_eq(input, "external") {
            Ok(JustificationKindFilter::External)
        } else {
            Err(
                PlanError {
                    code: ErrorCode::InvalidInput,
                    message: crate::text::concat3(
                        "unknown --justification-kind ",
                        crate::text::debug_quote(input).as_str(),
                        "; expected one of `code-anchor`, `rationale`, `serves-intent`, `defeats`, `supersedes`, `external`",
                    ),
                },
            )
        }
    }

    /// The justification has the selected shape.
    pub fn matches(self, j: &Justification) -> (r: bool)
        ensures
            r == kind_matches(self, *j),
    {
        match (self, j) {
            (JustificationKindFilter::CodeAnchor, Justification::CodeAnchor { .. }) => true,
            (JustificationKindFilter::Rationale, Justification::Rationale { .. }) => true,
            (JustificationKindFilter::ServesIntent, Justification::ServesIntent { .. }) => true,
            (JustificationKindFilter::Defeats, Justification::Defeats { .. }) => true,
            (JustificationKindFilter::Supersedes, Justification::Supersedes { .. }) => true,
            (JustificationKindFilter::External, Justification::External { .. }) => true,
            _ => false,
        }
    }
}

/// Output formats of the inspect verbs.
#[derive(Debug, Clone, Copy, PartialEq, Eq, Structural)]
pub enum OutputFormat {
    Yaml,
    Json,
}

impl OutputFormat {
    /// `yaml` or `json`.
    pub fn parse(input: &str) -> (r: Option<OutputFormat>)
        ensures
            r == (if input@ == "yaml"@ {
                Some(OutputFormat::Yaml)
            } else if input@ == "json"@ {
                Some(OutputFormat::Json)
            } else {
                None
            }),
    {
        if str_eq(input, "yaml") {
            Some(OutputFormat::Yaml)
        } else if str_eq(input, "json") {
            Some(OutputFormat::Json)
        } else {
            None
        }
    }
}

// ----- entries of any kind --------------------------------------------------

/// What the filters need of an entry: its item, and a faithful copy.
pub trait KindEntry: Sized {
    type St: ItemStatus;

    spec fn spec_item(&self) -> Item<Self::St>;

    spec fn spec_same(a: Self, b: Self) -> bool;

    fn item_ref(&self) -> (r: &Item<Self::St>)
        ensures
            *r == self.spec_item(),
    ;

    fn dup(&self) -> (r: Self)
        ensures
            Self::spec_same(r, *self),
    ;
}

impl KindEntry for IntentEntry {
    type St = IntentStatus;

    open spec fn spec_item(&self) -> Item<IntentStatus> {
        self.item
    }

    open spec fn spec_same(a: Self, b: Self) -> bool {
        crate::state::intents::schema::entry_same(a, b)
    }

    fn item_ref(&self) -> (r: &Item<IntentStatus>) {
        &self.item
    }

    fn dup(&self) -> (r: Self) {
        self.duplicate()
    }
}

impl KindEntry for BacklogEntry {
    type St = BacklogStatus;

    open spec fn spec_item(&self) -> Item<BacklogStatus> {
        self.item
    }

    open spec fn spec_same(a: Self, b: Self) -> bool {
        crate::state::backlog::verbs::entry_same(a, b)
    }

    fn item_ref(&self) -> (r: &Item<BacklogStatus>) {
        &self.item
    }

    fn dup(&self) -> (r: Self) {
        self.duplicate()
    }
}

impl KindEntry for MemoryEntry {
    type St = MemoryStatus;

    open spec fn spec_item(&self) -> Item<MemoryStatus> {
        self.item
    }

    open spec fn spec_same(a: Self, b: Self) -> bool {
        crate::state::memory::schema::entry_same(a, b)
    }

    fn item_ref(&self) -> (r: &Item<MemoryStatus>) {
        &self.item
    }

    fn dup(&self) -> (r: Self) {
        self.duplicate()
    }
}

impl KindEntry for FindingEntry {
    type St = FindingStatus;

    open spec fn spec_item(&self) -> Item<FindingStatus> {
        self.item
    }

    open spec fn spec_same(a: Self, b: Self) -> bool {
        crate::state::findings::schema::entry_same(a, b)
    }

    fn item_ref(&self) -> (r: &Item<FindingStatus>) {
        &self.item
    }

    fn dup(&self) -> (r: Self) {
        self.duplicate()
    }
}

/// Two lists hold faithful copies of each other, position by position.
pub open spec fn all_same<E: KindEntry>(a: Seq<E>, b: Seq<E>) -> bool {
    a.len() == b.len() && forall|i: int| 0 <= i < a.len() ==> E::spec_same(#[trigger] a[i], b[i])
}

/// The entries with status `s`, in order.
pub open spec fn with_status<E: KindEntry>(items: Seq<E>, s: E::St) -> Seq<E>
    decreases items.len(),
{
    if items.len() == 0 {
        seq![]
    } else {
        with_status(items.drop_last(), s) + if items.last().spec_item().status == s {
            seq![items.last()]
        } else {
            seq![]
        }
    }
}

/// Some justification of the item has the shape `jk`.
pub open spec fn justified_by<S>(item: Item<S>, jk: JustificationKindFilter) -> bool {
    exists|k: int| 0 <= k < item.justifications@.len() && kind_matches(jk, #[trigger] item.justifications@[k])
}

/// The entries with a justification of shape `jk`, in order.
pub open spec fn with_justification<E: KindEntry>(items: Seq<E>, jk: JustificationKindFilter) -> Seq<E>
    decreases items.len(),
{
    if items.len() == 0 {
        seq![]
    } else {
        with_justification(items.drop_last(), jk) + if justified_by(items.last().spec_item(), jk) {
            seq![items.last()]
        } else {
            seq![]
        }
    }
}

/// Copies of the entries with status `s`, in order.
pub fn filter_by_status<E: KindEntry>(items: &Vec<E>, s: E::St) -> (r: Vec<E>)
    ensures
        all_same(r@, with_status(items@, s)),
{
    let mut r: Vec<E> = Vec::new();
    let mut i: usize = 0;
    while i < items.len()
        invariant
            i <= items@.len(),
            all_same(r@, with_status(items@.take(i as int), s)),
        decreases items.len() - i,
    {
        assert(items@.take(i + 1).drop_last() =~= items@.take(i as int));
        let ghost before = r@;
        if items[i].item_ref().status.same(s) {
            r.push(items[i].dup());
            assert(with_status(items@.take(i + 1), s) =~= with_status(items@.take(i as int), s).push(
                items@[i as int],
            ));
        } else {
            assert(with_status(items@.take(i + 1), s) =~= with_status(items@.take(i as int), s));
        }
        i += 1;
    }
    assert(items@.take(items@.len() as int) =~= items@);
    r
}

fn has_justification<S>(item: &Item<S>, jk: JustificationKindFilter) -> (r: bool)
    ensures
        r == justified_by(*item, jk),
{
    let mut k: usize = 0;
    while k < item.justifications.len()
        invariant
            k <= item.justifications@.len(),
            forall|m: int| 0 <= m < k ==> !kind_matches(jk, #[trigger] item.justifications@[m]),
        decreases item.justifications.len() - k,
    {
        if jk.matches(&item.justifications[k]) {
            return true;
        }
        k += 1;
    }
    false
}

/// Copies of the entries with a justification of shape `jk`, in order.
pub fn filter_by_justification<E: KindEntry>(items: &Vec<E>, jk: JustificationKindFilter) -> (r: Vec<E>)
    ensures
        all_same(r@, with_justification(items@, jk)),
{
    let mut r: Vec<E> = Vec::new();
    let mut i: usize = 0;
    while i < items.len()
        invariant
            i <= items@.len(),
            all_same(r@, with_justification(items@.take(i as int), jk)),
        decreases items.len() - i,
    {
        assert(items@.take(i + 1).drop_last() =~= items@.take(i as int));
        if has_justification(items[i].item_ref(), jk) {
            r.push(items[i].dup());
            assert(with_justification(items@.take(i + 1), jk) =~= with_justification(
                items@.take(i as int),
                jk,
            ).push(items@[i as int]));
        } else {
            assert(with_justification(items@.take(i + 1), jk) =~= with_justification(
                items@.take(i as int),
                jk,
            ));
        }
        i += 1;
    }
    assert(items@.take(items@.len() as int) =~= items@);
    r
}

/// The intents with status `status`.
pub fn filter_intents_by_status(file: &IntentsFile, status: IntentStatus) -> (r: Vec<IntentEntry>)
    ensures
        all_same(r@, with_status(file.items@, status)),
{
    filter_by_status(&file.items, status)
}

/// The backlog items with status `status`.
pub fn filter_backlog_by_status(file: &BacklogFile, status: BacklogStatus) -> (r: Vec<BacklogEntry>)
    ensures
        all_same(r@, with_status(file.items@, status)),
{
    filter_by_status(&file.items, status)
}

/// The memory entries with status `status`.
pub fn filter_memory_by_status(file: &MemoryFile, status: MemoryStatus) -> (r: Vec<MemoryEntry>)
    ensures
        all_same(r@, with_status(file.items@, status)),
{
    filter_by_status(&file.items, status)
}

/// The findings with status `status`.
pub fn filter_findings_by_status(file: &FindingsFile, status: FindingStatus) -> (r: Vec<FindingEntry>)
    ensures
        all_same(r@, with_status(file.items@, status)),
{
    filter_by_status(&file.items, status)
}

/// The intents with a justification of shape `jk`.
pub fn filter_intents_by_justification(file: &IntentsFile, jk: JustificationKindFilter) -> (r: Vec<
    IntentEntry,
>)
    ensures
        all_same(r@, with_justification(file.items@, jk)),
{
    filter_by_justification(&file.items, jk)
}

/// The backlog items with a justification of shape `jk`.
pub fn filter_backlog_by_justification(file: &BacklogFile, jk: JustificationKindFilter) -> (r: Vec<
    BacklogEntry,
>)
    ensures
        all_same(r@, with_justification(file.items@, jk)),
{
    filter_by_justification(&file.items, jk)
}

/// The memory entries with a justification of shape `jk`.
pub fn filter_memory_by_justification(file: &MemoryFile, jk: JustificationKindFilter) -> (r: Vec<
    MemoryEntry,
>)
    ensures
        all_same(r@, with_justification(file.items@, jk)),
{
    filter_by_justification(&file.items, jk)
}

/// The findings with a justification of shape `jk`.
pub fn filter_findings_by_justification(file: &FindingsFile, jk: JustificationKindFilter) -> (r: Vec<
    FindingEntry,
>)
    ensures
        all_same(r@, with_justification(file.items@, jk)),
{
    filter_by_justification(&file.items, jk)
}

// ----- cross-kind output ------------------------------------------------------

/// One entry of any kind.
#[derive(Debug)]
pub enum AnyEntry {
    Intent(IntentEntry),
    Backlog(BacklogEntry),
    Memory(MemoryEntry),
    Finding(FindingEntry),
}

/// The id of an entry of any kind.
pub open spec fn any_id(e: AnyEntry) -> Seq<char> {
    match e {
        AnyEntry::Intent(x) => x.item.id@,
        AnyEntry::Backlog(x) => x.item.id@,
        AnyEntry::Memory(x) => x.item.id@,
        AnyEntry::Finding(x) => x.item.id@,
    }
}

impl AnyEntry {
    /// The entry's id.
    pub fn id(&self) -> (r: &str)
        ensures
            r@ == any_id(*self),
    {
        match self {
            AnyEntry::Intent(e) => e.item.id.as_str(),
            AnyEntry::Backlog(e) => e.item.id.as_str(),
            AnyEntry::Memory(e) => e.item.id.as_str(),
            AnyEntry::Finding(e) => e.item.id.as_str(),
        }
    }

    /// The entry's kind word.
    pub fn kind_str(&self) -> (r: &'static str)
        ensures
            r@ == (match *self {
                AnyEntry::Intent(_) => "intent"@,
                AnyEntry::Backlog(_) => "backlog-item"@,
                AnyEntry::Memory(_) => "memory-entry"@,
                AnyEntry::Finding(_) => "finding"@,
            }),
    {
        match self {
            AnyEntry::Intent(_) => "intent",
            AnyEntry::Backlog(_) => "backlog-item",
            AnyEntry::Memory(_) => "memory-entry",
            AnyEntry::Finding(_) => "finding",
        }
    }
}

/// The two entries are faithful copies of each other.
pub open spec fn any_same(a: AnyEntry, b: AnyEntry) -> bool {
    match (a, b) {
        (AnyEntry::Intent(x), AnyEntry::Intent(y)) => IntentEntry::spec_same(x, y),
        (AnyEntry::Backlog(x), AnyEntry::Backlog(y)) => BacklogEntry::spec_same(x, y),
        (AnyEntry::Memory(x), AnyEntry::Memory(y)) => MemoryEntry::spec_same(x, y),
        (AnyEntry::Finding(x), AnyEntry::Finding(y)) => FindingEntry::spec_same(x, y),
        _ => false,
    }
}

/// The two lists hold entries of the same content, position by position.
pub open spec fn anys_same(a: Seq<AnyEntry>, b: Seq<AnyEntry>) -> bool {
    a.len() == b.len() && forall|i: int| 0 <= i < a.len() ==> any_same(#[trigger] a[i], b[i])
}

/// Intents as entries of any kind.
pub open spec fn any_intents(s: Seq<IntentEntry>) -> Seq<AnyEntry> {
    s.map_values(|e: IntentEntry| AnyEntry::Intent(e))
}

/// Backlog items as entries of any kind.
pub open spec fn any_backlog(s: Seq<BacklogEntry>) -> Seq<AnyEntry> {
    s.map_values(|e: BacklogEntry| AnyEntry::Backlog(e))
}

/// Memory entries as entries of any kind.
pub open spec fn any_memory(s: Seq<MemoryEntry>) -> Seq<AnyEntry> {
    s.map_values(|e: MemoryEntry| AnyEntry::Memory(e))
}

/// Findings as entries of any kind.
pub open spec fn any_findings(s: Seq<FindingEntry>) -> Seq<AnyEntry> {
    s.map_values(|e: FindingEntry| AnyEntry::Finding(e))
}

/// A single `items:` list spanning every kind.
#[derive(Debug)]
pub struct AnyItemsFile {
    pub items: Vec<AnyEntry>,
}

fn append_intents(out: &mut Vec<AnyEntry>, src: &Vec<IntentEntry>)
    ensures
        anys_same(final(out)@, old(out)@ + any_intents(src@)),
{
    let ghost base = out@;
    let mut i: usize = 0;
    while i < src.len()
        invariant
            i <= src@.len(),
            base == old(out)@,
            anys_same(out@, base + any_intents(src@.take(i as int))),
        decreases src.len() - i,
    {
        out.push(AnyEntry::Intent(src[i].duplicate()));
        assert(any_intents(src@.take(i + 1)) =~= any_intents(src@.take(i as int)).push(
            AnyEntry::Intent(src@[i as int]),
        ));
        i += 1;
    }
    assert(src@.take(src@.len() as int) =~= src@);
}

fn append_backlog(out: &mut Vec<AnyEntry>, src: &Vec<BacklogEntry>)
    ensures
        anys_same(final(out)@, old(out)@ + any_backlog(src@)),
{
    let ghost base = out@;
    let mut i: usize = 0;
    while i < src.len()
        invariant
            i <= src@.len(),
            base == old(out)@,
            anys_same(out@, base + any_backlog(src@.take(i as int))),
        decreases src.len() - i,
    {
        out.push(AnyEntry::Backlog(src[i].duplicate()));
        assert(any_backlog(src@.take(i + 1)) =~= any_backlog(src@.take(i as int)).push(
            AnyEntry::Backlog(src@[i as int]),
        ));
        i += 1;
    }
    assert(src@.take(src@.len() as int) =~= src@);
}

fn append_memory(out: &mut Vec<AnyEntry>, src: &Vec<MemoryEntry>)
    ensures
        anys_same(final(out)@, old(out)@ + any_memory(src@)),
{
    let ghost base = out@;
    let mut i: usize = 0;
    while i < src.len()
        invariant
            i <= src@.len(),
            base == old(out)@,
            anys_same(out@, base + any_memory(src@.take(i as int))),
        decreases src.len() - i,
    {
        out.push(AnyEntry::Memory(src[i].duplicate()));
        assert(any_memory(src@.take(i + 1)) =~= any_memory(src@.take(i as int)).push(
            AnyEntry::Memory(src@[i as int]),
        ));
        i += 1;
    }
    assert(src@.take(src@.len() as int) =~= src@);
}

fn append_findings(out: &mut Vec<AnyEntry>, src: &Vec<FindingEntry>)
    ensures
        anys_same(final(out)@, old(out)@ + any_findings(src@)),
{
    let ghost base = out@;
    let mut i: usize = 0;
    while i < src.len()
        invariant
            i <= src@.len(),
            base == old(out)@,
            anys_same(out@, base + any_findings(src@.take(i as int))),
        decreases src.len() - i,
    {
        out.push(AnyEntry::Finding(src[i].duplicate()));
        assert(any_findings(src@.take(i + 1)) =~= any_findings(src@.take(i as int)).push(
            AnyEntry::Finding(src@[i as int]),
        ));
        i += 1;
    }
    assert(src@.take(src@.len() as int) =~= src@);
}

proof fn lemma_anys_step(h0: Seq<AnyEntry>, hnew: Seq<AnyEntry>, q: Seq<AnyEntry>, a: Seq<AnyEntry>, b: Seq<AnyEntry>)
    requires
        anys_same(h0, q),
        anys_same(hnew, h0 + a),
        anys_same(a, b),
    ensures
        anys_same(hnew, q + b),
{
    assert forall|i: int| 0 <= i < hnew.len() implies any_same(#[trigger] hnew[i], (q + b)[i]) by {
        if i < h0.len() {
            assert((h0 + a)[i] == h0[i]);
            assert((q + b)[i] == q[i]);
        } else {
            assert((h0 + a)[i] == a[i - h0.len()]);
            assert((q + b)[i] == b[i - q.len()]);
        }
    }
}

proof fn lemma_any_intents_same(a: Seq<IntentEntry>, b: Seq<IntentEntry>)
    requires
        all_same(a, b),
    ensures
        anys_same(any_intents(a), any_intents(b)),
{
    assert forall|i: int| 0 <= i < a.len() implies any_same(#[trigger] any_intents(a)[i], any_intents(b)[i]) by {
        assert(IntentEntry::spec_same(a[i], b[i]));
    }
}

proof fn lemma_any_backlog_same(a: Seq<BacklogEntry>, b: Seq<BacklogEntry>)
    requires
        all_same(a, b),
    ensures
        anys_same(any_backlog(a), any_backlog(b)),
{
    assert forall|i: int| 0 <= i < a.len() implies any_same(#[trigger] any_backlog(a)[i], any_backlog(b)[i]) by {
        assert(BacklogEntry::spec_same(a[i], b[i]));
    }
}

proof fn lemma_any_memory_same(a: Seq<MemoryEntry>, b: Seq<MemoryEntry>)
    requires
        all_same(a, b),
    ensures
        anys_same(any_memory(a), any_memory(b)),
{
    assert forall|i: int| 0 <= i < a.len() implies any_same(#[trigger] any_memory(a)[i], any_memory(b)[i]) by {
        assert(MemoryEntry::spec_same(a[i], b[i]));
    }
}

proof fn lemma_any_findings_same(a: Seq<FindingEntry>, b: Seq<FindingEntry>)
    requires
        all_same(a, b),
    ensures
        anys_same(any_findings(a), any_findings(b)),
{
    assert forall|i: int| 0 <= i < a.len() implies any_same(#[trigger] any_findings(a)[i], any_findings(b)[i]) by {
        assert(FindingEntry::spec_same(a[i], b[i]));
    }
}

// ----- the verbs --------------------------------------------------------------

/// The four stores of one plan.
#[derive(Debug)]
pub struct PlanFiles {
    pub intents: IntentsFile,
    pub backlog: BacklogFile,
    pub memory: MemoryFile,
    pub findings: FindingsFile,
}

/// What an inspect verb emits: one kind's file shape, or one list
/// spanning every kind.
#[derive(Debug)]
pub enum InspectOutput {
    Intents(IntentsFile),
    Backlog(BacklogFile),
    Memory(MemoryFile),
    Findings(FindingsFile),
    Any(AnyItemsFile),
}

fn copy_all<E: KindEntry>(items: &Vec<E>) -> (r: Vec<E>)
    ensures
        all_same(r@, items@),
{
    let mut r: Vec<E> = Vec::new();
    let mut i: usize = 0;
    while i < items.len()
        invariant
            i <= items@.len(),
            r@.len() == i,
            forall|k: int| 0 <= k < i ==> E::spec_same(#[trigger] r@[k], items@[k]),
        decreases items.len() - i,
    {
        r.push(items[i].dup());
        i += 1;
    }
    r
}

/// Every item of every kind: intents, then backlog, memory and findings.
pub open spec fn all_items(files: PlanFiles) -> Seq<AnyEntry> {
    any_intents(files.intents.items@) + any_backlog(files.backlog.items@) + any_memory(
        files.memory.items@,
    ) + any_findings(files.findings.items@)
}

/// One kind's whole file, or every item of every kind.
pub fn run_list_items(files: &PlanFiles, kind: Option<PlanItemKind>) -> (r: InspectOutput)
    ensures
        match kind {
            Some(PlanItemKind::Intent) => r matches InspectOutput::Intents(f) && f.schema_version
                == files.intents.schema_version && all_same(f.items@, files.intents.items@),
            Some(PlanItemKind::BacklogItem) => r matches InspectOutput::Backlog(f) && f.schema_version
                == files.backlog.schema_version && all_same(f.items@, files.backlog.items@),
            Some(PlanItemKind::MemoryEntry) => r matches InspectOutput::Memory(f) && f.schema_version
                == files.memory.schema_version && all_same(f.items@, files.memory.items@),
            Some(PlanItemKind::Finding) => r matches InspectOutput::Findings(f) && f.schema_version
                == files.findings.schema_version && all_same(f.items@, files.findings.items@),
            None => r matches InspectOutput::Any(a) && anys_same(a.items@, all_items(*files)),
        },
{
    match kind {
        Some(PlanItemKind::Intent) => InspectOutput::Intents(
            IntentsFile {
                schema_version: files.intents.schema_version,
                items: copy_all(&files.intents.items),
            },
        ),
        Some(PlanItemKind::BacklogItem) => InspectOutput::Backlog(
            BacklogFile {
                schema_version: files.backlog.schema_version,
                items: copy_all(&files.backlog.items),
            },
        ),
        Some(PlanItemKind::MemoryEntry) => InspectOutput::Memory(
            MemoryFile { schema_version: files.memory.schema_version, items: copy_all(&files.memory.items) },
        ),
        Some(PlanItemKind::Finding) => InspectOutput::Findings(
            FindingsFile {
                schema_version: files.findings.schema_version,
                items: copy_all(&files.findings.items),
            },
        ),
        None => {
            let mut items: Vec<AnyEntry> = Vec::new();
            append_intents(&mut items, &files.intents.items);
            append_backlog(&mut items, &files.backlog.items);
            append_memory(&mut items, &files.memory.items);
            append_findings(&mut items, &files.findings.items);
            assert(Seq::<AnyEntry>::empty() + any_intents(files.intents.items@) =~= any_intents(
                files.intents.items@,
            ));
            InspectOutput::Any(AnyItemsFile { items })
        },
    }
}

/// The first entry with id `id` in each kind that has one, as a
/// cross-kind list.
pub open spec fn id_hits(files: PlanFiles, id: Seq<char>) -> Seq<AnyEntry> {
    let i = files.intents.items@;
    let b = files.backlog.items@;
    let m = files.memory.items@;
    let f = files.findings.items@;
    (if crate::state::intents::schema::has_id(i, id) {
        seq![AnyEntry::Intent(i[choose|k: int| crate::state::intents::schema::is_first_with_id(i, id, k)])]
    } else {
        seq![]
    }) + (if crate::state::backlog::schema::has_id(b, id) {
        seq![AnyEntry::Backlog(b[choose|k: int| crate::state::backlog::schema::is_first_with_id(b, id, k)])]
    } else {
        seq![]
    }) + (if crate::state::memory::schema::has_id(m, id) {
        seq![AnyEntry::Memory(m[choose|k: int| crate::state::memory::schema::is_first_with_id(m, id, k)])]
    } else {
        seq![]
    }) + (if crate::state::findings::schema::has_id(f, id) {
        seq![AnyEntry::Finding(f[choose|k: int| crate::state::findings::schema::is_first_with_id(f, id, k)])]
    } else {
        seq![]
    })
}

/// The kind words of the stores that hold an item with id `id`, in the
/// order intents, backlog, memory, findings.
pub open spec fn id_hit_kinds(files: PlanFiles, id: Seq<char>) -> Seq<Seq<char>> {
    (if crate::state::intents::schema::has_id(files.intents.items@, id) {
        seq!["intent"@]
    } else {
        seq![]
    }) + (if crate::state::backlog::schema::has_id(files.backlog.items@, id) {
        seq!["backlog-item"@]
    } else {
        seq![]
    }) + (if crate::state::memory::schema::has_id(files.memory.items@, id) {
        seq!["memory-entry"@]
    } else {
        seq![]
    }) + (if crate::state::findings::schema::has_id(files.findings.items@, id) {
        seq!["finding"@]
    } else {
        seq![]
    })
}

/// The refusal of an id that no store holds.
pub open spec fn show_not_found_message(id: Seq<char>) -> Seq<char> {
    "no item with id "@ + crate::text::debug_quoted(id)
        + " in any of intents.yaml, backlog.yaml, memory.yaml, findings.yaml"@
}

/// The refusal of an id that several stores hold: the number of matches
/// and the kinds, listed as `debug_list` prints them.
pub open spec fn ambiguous_message(id: Seq<char>, kinds: Seq<Seq<char>>) -> Seq<char> {
    "id "@ + crate::text::debug_quoted(id) + " is ambiguous: "@ + crate::text::decimal(kinds.len())
        + " matches across kinds "@ + crate::text::debug_list(kinds)
        + ". Use the per-kind verb (`state intents show`, `state backlog show`, `state memory show`, `state findings show`) to disambiguate."@
}

/// The item with id `id`, whatever its kind: refused when no kind has it
/// (not found) or when more than one does (ambiguous).
pub fn run_show_item(files: &PlanFiles, id: &str) -> (r: Result<AnyEntry, PlanError>)
    ensures
        id_hits(*files, id@).len() == 0 ==> (r matches Err(e) && e.code == ErrorCode::NotFound
            && e.message@ == show_not_found_message(id@)),
        id_hits(*files, id@).len() == 1 ==> (r matches Ok(e) && any_same(e, id_hits(*files, id@)[0])),
        id_hits(*files, id@).len() > 1 ==> (r matches Err(e) && e.code == ErrorCode::InvalidInput
            && e.message@ == ambiguous_message(id@, id_hit_kinds(*files, id@))),
{
    let mut hits: Vec<AnyEntry> = Vec::new();
    let mut kinds: Vec<String> = Vec::new();
    let ghost i_items = files.intents.items@;
    let ghost b_items = files.backlog.items@;
    let ghost m_items = files.memory.items@;
    let ghost f_items = files.findings.items@;
    let ghost p1 = if crate::state::intents::schema::has_id(i_items, id@) {
        seq![AnyEntry::Intent(i_items[choose|k: int| crate::state::intents::schema::is_first_with_id(i_items, id@, k)])]
    } else {
        Seq::<AnyEntry>::empty()
    };
    match crate::state::intents::schema::find_index(&files.intents.items, id) {
        Some(k) => {
            proof {
                let c = choose|c: int| crate::state::intents::schema::is_first_with_id(i_items, id@, c);
                assert(crate::state::intents::schema::is_first_with_id(i_items, id@, k as int));
                assert(c == k) by {
                    if c < k {
                        assert(i_items[c].item.id@ != id@);
                    } else if c > k {
                        assert(i_items[k as int].item.id@ != id@);
                    }
                }
            }
            hits.push(AnyEntry::Intent(files.intents.items[k].duplicate()));
            kinds.push(crate::text::owned("intent"));
        },
        None => {},
    }
    assert(anys_same(hits@, p1));
    let ghost p2 = if crate::state::backlog::schema::has_id(b_items, id@) {
        seq![AnyEntry::Backlog(b_items[choose|k: int| crate::state::backlog::schema::is_first_with_id(b_items, id@, k)])]
    } else {
        Seq::<AnyEntry>::empty()
    };
    let ghost h1 = hits@;
    match crate::state::backlog::schema::find_index(&files.backlog.items, id) {
        Some(k) => {
            proof {
                let c = choose|c: int| crate::state::backlog::schema::is_first_with_id(b_items, id@, c);
                assert(crate::state::backlog::schema::is_first_with_id(b_items, id@, k as int));
                assert(c == k) by {
                    if c < k {
                        assert(b_items[c].item.id@ != id@);
                    } else if c > k {
                        assert(b_items[k as int].item.id@ != id@);
                    }
                }
            }
            hits.push(AnyEntry::Backlog(files.backlog.items[k].duplicate()));
            kinds.push(crate::text::owned("backlog-item"));
        },
        None => {},
    }
    assert(anys_same(hits@, p1 + p2)) by {
        assert(hits@.subrange(0, h1.len() as int) =~= h1);
    }
    let ghost p3 = if crate::state::memory::schema::has_id(m_items, id@) {
        seq![AnyEntry::Memory(m_items[choose|k: int| crate::state::memory::schema::is_first_with_id(m_items, id@, k)])]
    } else {
        Seq::<AnyEntry>::empty()
    };
    let ghost h2 = hits@;
    match crate::state::memory::schema::find_index(&files.memory.items, id) {
        Some(k) => {
            proof {
                let c = choose|c: int| crate::state::memory::schema::is_first_with_id(m_items, id@, c);
                assert(crate::state::memory::schema::is_first_with_id(m_items, id@, k as int));
                assert(c == k) by {
                    if c < k {
                        assert(m_items[c].item.id@ != id@);
                    } else if c > k {
                        assert(m_items[k as int].item.id@ != id@);
                    }
                }
            }
            hits.push(AnyEntry::Memory(files.memory.items[k].duplicate()));
            kinds.push(crate::text::owned("memory-entry"));
        },
        None => {},
    }
    assert(anys_same(hits@, p1 + p2 + p3)) by {
        assert(hits@.subrange(0, h2.len() as int) =~= h2);
    }
    let ghost p4 = if crate::state::findings::schema::has_id(f_items, id@) {
        seq![AnyEntry::Finding(f_items[choose|k: int| crate::state::findings::schema::is_first_with_id(f_items, id@, k)])]
    } else {
        Seq::<AnyEntry>::empty()
    };
    let ghost h3 = hits@;
    match crate::state::findings::schema::find_index(&files.findings.items, id) {
        Some(k) => {
            proof {
                let c = choose|c: int| crate::state::findings::schema::is_first_with_id(f_items, id@, c);
                assert(crate::state::findings::schema::is_first_with_id(f_items, id@, k as int));
                assert(c == k) by {
                    if c < k {
                        assert(f_items[c].item.id@ != id@);
                    } else if c > k {
                        assert(f_items[k as int].item.id@ != id@);
                    }
                }
            }
            hits.push(AnyEntry::Finding(files.findings.items[k].duplicate()));
            kinds.push(crate::text::owned("finding"));
        },
        None => {},
    }
    assert(anys_same(hits@, p1 + p2 + p3 + p4)) by {
        assert(hits@.subrange(0, h3.len() as int) =~= h3);
    }
    assert(p1 + p2 + p3 + p4 =~= id_hits(*files, id@));
    assert(crate::text::views(kinds@) =~= id_hit_kinds(*files, id@));
    if hits.len() == 0 {
        return Err(
            PlanError {
                code: ErrorCode::NotFound,
                message: {
                    let q = crate::text::debug_quote(id);
                    crate::text::concat3(
                        "no item with id ",
                        q.as_str(),
                        " in any of intents.yaml, backlog.yaml, memory.yaml, findings.yaml",
                    )
                },
            },
        );
    }
    if hits.len() > 1 {
        let n = crate::text::decimal_string(kinds.len() as u64);
        let q = crate::text::debug_quote(id);
        let listed = crate::text::debug_list_exec(&kinds);
        let mut msg = crate::text::concat3("id ", q.as_str(), " is ambiguous: ");
        crate::text::push_str(&mut msg, n.as_str());
        crate::text::push_str(&mut msg, " matches across kinds ");
        crate::text::push_str(&mut msg, listed.as_str());
        crate::text::push_str(
            &mut msg,
            ". Use the per-kind verb (`state intents show`, `state backlog show`, `state memory show`, `state findings show`) to disambiguate.",
        );
        return Err(PlanError { code: ErrorCode::InvalidInput, message: msg });
    }
    let e = hits.pop().unwrap();
    Ok(e)
}

/// The items of every kind whose vocabulary has the word `status`, in the
/// order intents, backlog, memory, findings.
pub open spec fn status_hits(files: PlanFiles, status: Seq<char>) -> Seq<AnyEntry> {
    (match IntentStatus::spec_parse(status) {
        Some(s) => any_intents(with_status(files.intents.items@, s)),
        None => seq![],
    }) + (match BacklogStatus::spec_parse(status) {
        Some(s) => any_backlog(with_status(files.backlog.items@, s)),
        None => seq![],
    }) + (match MemoryStatus::spec_parse(status) {
        Some(s) => any_memory(with_status(files.memory.items@, s)),
        None => seq![],
    }) + (match FindingStatus::spec_parse(status) {
        Some(s) => any_findings(with_status(files.findings.items@, s)),
        None => seq![],
    })
}

/// Some kind's vocabulary has the word.
pub open spec fn some_kind_accepts(status: Seq<char>) -> bool {
    IntentStatus::spec_parse(status) is Some || BacklogStatus::spec_parse(status) is Some
        || MemoryStatus::spec_parse(status) is Some || FindingStatus::spec_parse(status) is Some
}

/// The status words of each kind, as the refusals list them.
pub const INTENT_STATUS_WORDS: &'static str = "[\"active\", \"satisfied\", \"defeated\", \"superseded\"]";
/// The backlog status vocabulary as error messages list it.
pub const BACKLOG_STATUS_WORDS: &'static str = "[\"active\", \"done\", \"defeated\", \"superseded\", \"blocked\"]";
/// The memory status vocabulary as error messages list it.
pub const MEMORY_STATUS_WORDS: &'static str = "[\"active\", \"defeated\", \"superseded\"]";
/// The finding status vocabulary as error messages list it.
pub const FINDING_STATUS_WORDS: &'static str = "[\"new\", \"promoted\", \"wontfix\", \"superseded\"]";

/// The refusal of a status word that one kind's vocabulary lacks.
pub open spec fn unknown_status_message(kind_word: Seq<char>, status: Seq<char>, words: Seq<char>) -> Seq<
    char,
> {
    "unknown "@ + kind_word + " status "@ + crate::text::debug_quoted(status) + "; expected one of "@ + words
}

/// The refusal of a status word that no kind's vocabulary has; it lists
/// every vocabulary.
pub open spec fn no_vocabulary_message(status: Seq<char>) -> Seq<char> {
    "status "@ + crate::text::debug_quoted(status) + " is not a member of any kind's vocabulary. Intent: "@
        + INTENT_STATUS_WORDS@ + "; backlog-item: "@ + BACKLOG_STATUS_WORDS@ + "; memory-entry: "@
        + MEMORY_STATUS_WORDS@ + "; finding: "@ + FINDING_STATUS_WORDS@ + "."@
}

fn unknown_status(kind_word: &str, status: &str, words: &str) -> (e: PlanError)
    ensures
        e.code == ErrorCode::InvalidInput,
        e.message@ == unknown_status_message(kind_word@, status@, words@),
{
    let mut m = crate::text::concat3("unknown ", kind_word, " status ");
    let q = crate::text::debug_quote(status);
    crate::text::push_str(&mut m, q.as_str());
    crate::text::push_str(&mut m, "; expected one of ");
    crate::text::push_str(&mut m, words);
    PlanError { code: ErrorCode::InvalidInput, message: m }
}

/// The items of one kind, or of every kind, with the given status word.
/// An unknown word is refused: for one kind, when its vocabulary lacks
/// it; across kinds, when no vocabulary has it.
pub fn run_query_by_status(files: &PlanFiles, kind: Option<PlanItemKind>, status: &str) -> (r: Result<
    InspectOutput,
    PlanError,
>)
    ensures
        match kind {
            Some(PlanItemKind::Intent) => match IntentStatus::spec_parse(status@) {
                None => r matches Err(e) && e.code == ErrorCode::InvalidInput && e.message@
                    == unknown_status_message("intent"@, status@, INTENT_STATUS_WORDS@),
                Some(s) => r matches Ok(InspectOutput::Intents(f)) && f.schema_version
                    == INTENTS_SCHEMA_VERSION && all_same(f.items@, with_status(files.intents.items@, s)),
            },
            Some(PlanItemKind::BacklogItem) => match BacklogStatus::spec_parse(status@) {
                None => r matches Err(e) && e.code == ErrorCode::InvalidInput && e.message@
                    == unknown_status_message("backlog-item"@, status@, BACKLOG_STATUS_WORDS@),
                Some(s) => r matches Ok(InspectOutput::Backlog(f)) && f.schema_version
                    == BACKLOG_SCHEMA_VERSION && all_same(f.items@, with_status(files.backlog.items@, s)),
            },
            Some(PlanItemKind::MemoryEntry) => match MemoryStatus::spec_parse(status@) {
                None => r matches Err(e) && e.code == ErrorCode::InvalidInput && e.message@
                    == unknown_status_message("memory-entry"@, status@, MEMORY_STATUS_WORDS@),
                Some(s) => r matches Ok(InspectOutput::Memory(f)) && f.schema_version
                    == MEMORY_SCHEMA_VERSION && all_same(f.items@, with_status(files.memory.items@, s)),
            },
            Some(PlanItemKind::Finding) => match FindingStatus::spec_parse(status@) {
                None => r matches Err(e) && e.code == ErrorCode::InvalidInput && e.message@
                    == unknown_status_message("finding"@, status@, FINDING_STATUS_WORDS@),
                Some(s) => r matches Ok(InspectOutput::Findings(f)) && f.schema_version
                    == FINDINGS_SCHEMA_VERSION && all_same(f.items@, with_status(files.findings.items@, s)),
            },
            None => if some_kind_accepts(status@) {
                r matches Ok(InspectOutput::Any(a)) && anys_same(a.items@, status_hits(*files, status@))
            } else {
                r matches Err(e) && e.code == ErrorCode::InvalidInput && e.message@ == no_vocabulary_message(
                    status@,
                )
            },
        },
{
    match kind {
        Some(PlanItemKind::Intent) => {
            let s = match IntentStatus::parse(status) {
                Some(s) => s,
                None => return Err(unknown_status("intent", status, INTENT_STATUS_WORDS)),
            };
            let items = filter_intents_by_status(&files.intents, s);
            Ok(InspectOutput::Intents(IntentsFile { schema_version: INTENTS_SCHEMA_VERSION, items }))
        },
        Some(PlanItemKind::BacklogItem) => {
            let s = match BacklogStatus::parse(status) {
                Some(s) => s,
                None => return Err(unknown_status("backlog-item", status, BACKLOG_STATUS_WORDS)),
            };
            let items = filter_backlog_by_status(&files.backlog, s);
            Ok(InspectOutput::Backlog(BacklogFile { schema_version: BACKLOG_SCHEMA_VERSION, items }))
        },
        Some(PlanItemKind::MemoryEntry) => {
            let s = match MemoryStatus::parse(status) {
                Some(s) => s,
                None => return Err(unknown_status("memory-entry", status, MEMORY_STATUS_WORDS)),
            };
            let items = filter_memory_by_status(&files.memory, s);
            Ok(InspectOutput::Memory(MemoryFile { schema_version: MEMORY_SCHEMA_VERSION, items }))
        },
        Some(PlanItemKind::Finding) => {
            let s = match FindingStatus::parse(status) {
                Some(s) => s,
                None => return Err(unknown_status("finding", status, FINDING_STATUS_WORDS)),
            };
            let items = filter_findings_by_status(&files.findings, s);
            Ok(InspectOutput::Findings(FindingsFile { schema_version: FINDINGS_SCHEMA_VERSION, items }))
        },
        None => {
            let mut hits: Vec<AnyEntry> = Vec::new();
            let ghost q0 = Seq::<AnyEntry>::empty();
            let ghost q1 = match IntentStatus::spec_parse(status@) {
                Some(s) => any_intents(with_status(files.intents.items@, s)),
                None => Seq::<AnyEntry>::empty(),
            };
            let ghost h0 = hits@;
            match IntentStatus::parse(status) {
                Some(s) => {
                    let v = filter_intents_by_status(&files.intents, s);
                    append_intents(&mut hits, &v);
                    proof {
                        lemma_any_intents_same(v@, with_status(files.intents.items@, s));
                        lemma_anys_step(h0, hits@, q0, any_intents(v@), q1);
                    }
                },
                None => {},
            }
            assert(anys_same(hits@, q0 + q1)) by {
                if IntentStatus::spec_parse(status@) is None {
                    assert(q0 + q1 =~= q0);
                }
            }
            let ghost q2 = match BacklogStatus::spec_parse(status@) {
                Some(s) => any_backlog(with_status(files.backlog.items@, s)),
                None => Seq::<AnyEntry>::empty(),
            };
            let ghost h1 = hits@;
            match BacklogStatus::parse(status) {
                Some(s) => {
                    let v = filter_backlog_by_status(&files.backlog, s);
                    append_backlog(&mut hits, &v);
                    proof {
                        lemma_any_backlog_same(v@, with_status(files.backlog.items@, s));
                        lemma_anys_step(h1, hits@, q0 + q1, any_backlog(v@), q2);
                    }
                },
                None => {},
            }
            assert(anys_same(hits@, q0 + q1 + q2)) by {
                if BacklogStatus::spec_parse(status@) is None {
                    assert(q0 + q1 + q2 =~= q0 + q1);
                }
            }
            let ghost q3 = match MemoryStatus::spec_parse(status@) {
                Some(s) => any_memory(with_status(files.memory.items@, s)),
                None => Seq::<AnyEntry>::empty(),
            };
            let ghost h2 = hits@;
            match MemoryStatus::parse(status) {
                Some(s) => {
                    let v = filter_memory_by_status(&files.memory, s);
                    append_memory(&mut hits, &v);
                    proof {
                        lemma_any_memory_same(v@, with_status(files.memory.items@, s));
                        lemma_anys_step(h2, hits@, q0 + q1 + q2, any_memory(v@), q3);
                    }
                },
                None => {},
            }
            assert(anys_same(hits@, q0 + q1 + q2 + q3)) by {
                if MemoryStatus::spec_parse(status@) is None {
                    assert(q0 + q1 + q2 + q3 =~= q0 + q1 + q2);
                }
            }
            let ghost q4 = match FindingStatus::spec_parse(status@) {
                Some(s) => any_findings(with_status(files.findings.items@, s)),
                None => Seq::<AnyEntry>::empty(),
            };
            let ghost h3 = hits@;
            match FindingStatus::parse(status) {
                Some(s) => {
                    let v = filter_findings_by_status(&files.findings, s);
                    append_findings(&mut hits, &v);
                    proof {
                        lemma_any_findings_same(v@, with_status(files.findings.items@, s));
                        lemma_anys_step(h3, hits@, q0 + q1 + q2 + q3, any_findings(v@), q4);
                    }
                },
                None => {},
            }
            assert(anys_same(hits@, q0 + q1 + q2 + q3 + q4)) by {
                if FindingStatus::spec_parse(status@) is None {
                    assert(q0 + q1 + q2 + q3 + q4 =~= q0 + q1 + q2 + q3);
                }
            }
            assert(q0 + q1 + q2 + q3 + q4 =~= status_hits(*files, status@));
            let accepted = IntentStatus::parse(status).is_some() || BacklogStatus::parse(status).is_some()
                || MemoryStatus::parse(status).is_some() || FindingStatus::parse(status).is_some();
            if !accepted {
                let mut m = crate::text::owned("status ");
                let q = crate::text::debug_quote(status);
                crate::text::push_str(&mut m, q.as_str());
                crate::text::push_str(&mut m, " is not a member of any kind's vocabulary. Intent: ");
                crate::text::push_str(&mut m, INTENT_STATUS_WORDS);
                crate::text::push_str(&mut m, "; backlog-item: ");
                crate::text::push_str(&mut m, BACKLOG_STATUS_WORDS);
                crate::text::push_str(&mut m, "; memory-entry: ");
                crate::text::push_str(&mut m, MEMORY_STATUS_WORDS);
                crate::text::push_str(&mut m, "; finding: ");
                crate::text::push_str(&mut m, FINDING_STATUS_WORDS);
                crate::text::push_str(&mut m, ".");
                return Err(PlanError { code: ErrorCode::InvalidInput, message: m });
            }
            Ok(InspectOutput::Any(AnyItemsFile { items: hits }))
        },
    }
}

/// The items of one kind, or of every kind, with a justification of
/// shape `jk`.
pub open spec fn justification_hits(files: PlanFiles, jk: JustificationKindFilter) -> Seq<AnyEntry> {
    any_intents(with_justification(files.intents.items@, jk)) + any_backlog(
        with_justification(files.backlog.items@, jk),
    ) + any_memory(with_justification(files.memory.items@, jk)) + any_findings(
        with_justification(files.findings.items@, jk),
    )
}

/// The items of one kind, or of every kind, that carry at least one
/// justification of kind `jk`.
pub fn run_query_by_justification(files: &PlanFiles, kind: Option<PlanItemKind>, jk: JustificationKindFilter) -> (r: InspectOutput)
    ensures
        match kind {
            Some(PlanItemKind::Intent) => r matches InspectOutput::Intents(f) && f.schema_version
                == INTENTS_SCHEMA_VERSION && all_same(f.items@, with_justification(files.intents.items@, jk)),
            Some(PlanItemKind::BacklogItem) => r matches InspectOutput::Backlog(f) && f.schema_version
                == BACKLOG_SCHEMA_VERSION && all_same(f.items@, with_justification(files.backlog.items@, jk)),
            Some(PlanItemKind::MemoryEntry) => r matches InspectOutput::Memory(f) && f.schema_version
                == MEMORY_SCHEMA_VERSION && all_same(f.items@, with_justification(files.memory.items@, jk)),
            Some(PlanItemKind::Finding) => r matches InspectOutput::Findings(f) && f.schema_version
                == FINDINGS_SCHEMA_VERSION && all_same(f.items@, with_justification(files.findings.items@, jk)),
            None => r matches InspectOutput::Any(a) && anys_same(a.items@, justification_hits(*files, jk)),
        },
{
    match kind {
        Some(PlanItemKind::Intent) => InspectOutput::Intents(
            IntentsFile {
                schema_version: INTENTS_SCHEMA_VERSION,
                items: filter_intents_by_justification(&files.intents, jk),
            },
        ),
        Some(PlanItemKind::BacklogItem) => InspectOutput::Backlog(
            BacklogFile {
                schema_version: BACKLOG_SCHEMA_VERSION,
                items: filter_backlog_by_justification(&files.backlog, jk),
            },
        ),
        Some(PlanItemKind::MemoryEntry) => InspectOutput::Memory(
            MemoryFile {
                schema_version: MEMORY_SCHEMA_VERSION,
                items: filter_memory_by_justification(&files.memory, jk),
            },
        ),
        Some(PlanItemKind::Finding) => InspectOutput::Findings(
            FindingsFile {
                schema_version: FINDINGS_SCHEMA_VERSION,
                items: filter_findings_by_justification(&files.findings, jk),
            },
        ),
        None => {
            let mut hits: Vec<AnyEntry> = Vec::new();
            let ghost q0 = Seq::<AnyEntry>::empty();
            let ghost h0 = hits@;
            let v1 = filter_intents_by_justification(&files.intents, jk);
            append_intents(&mut hits, &v1);
            let ghost q1 = any_intents(with_justification(files.intents.items@, jk));
            proof {
                lemma_any_intents_same(v1@, with_justification(files.intents.items@, jk));
                lemma_anys_step(h0, hits@, q0, any_intents(v1@), q1);
            }
            let ghost h1 = hits@;
            let v2 = filter_backlog_by_justification(&files.backlog, jk);
            append_backlog(&mut hits, &v2);
            let ghost q2 = any_backlog(with_justification(files.backlog.items@, jk));
            proof {
                lemma_any_backlog_same(v2@, with_justification(files.backlog.items@, jk));
                lemma_anys_step(h1, hits@, q0 + q1, any_backlog(v2@), q2);
            }
            let ghost h2 = hits@;
            let v3 = filter_memory_by_justification(&files.memory, jk);
            append_memory(&mut hits, &v3);
            let ghost q3 = any_memory(with_justification(files.memory.items@, jk));
            proof {
                lemma_any_memory_same(v3@, with_justification(files.memory.items@, jk));
                lemma_anys_step(h2, hits@, q0 + q1 + q2, any_memory(v3@), q3);
            }
            let ghost h3 = hits@;
            let v4 = filter_findings_by_justification(&files.findings, jk);
            append_findings(&mut hits, &v4);
            let ghost q4 = any_findings(with_justification(files.findings.items@, jk));
            proof {
                lemma_any_findings_same(v4@, with_justification(files.findings.items@, jk));
                lemma_anys_step(h3, hits@, q0 + q1 + q2 + q3, any_findings(v4@), q4);
                assert(q0 + q1 + q2 + q3 + q4 =~= justification_hits(*files, jk));
            }
            InspectOutput::Any(AnyItemsFile { items: hits })
        },
    }
}

} // verus!
