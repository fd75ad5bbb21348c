//! Plan-side vocabulary: the four item kinds (intent, backlog item,
//! memory entry, finding), their status enums with transition tables,
//! and the item record they share.
//!
//! Status vocabularies:
//!
//! - **Intent:** `active | satisfied | defeated | superseded`
//! - **Backlog item:** `active | done | defeated | superseded | blocked`
//! - **Memory entry:** `active | defeated | superseded | legacy`
//! - **Finding:** `new | promoted | wontfix | superseded`

use vstd::prelude::*;

use crate::error::{ErrorCode, PlanError};
use crate::text::{concat3, str_eq};

verus! {

/// The behaviour every status enum shares: its wire words, which states
/// are terminal, and which transitions are legal.
pub trait ItemStatus: Sized + Copy {
    /// The wire word of this status.
    spec fn spec_str(self) -> Seq<char>;

    /// The status whose wire word is `s`, if any.
    spec fn spec_parse(s: Seq<char>) -> Option<Self>;

    /// Terminal statuses never transition out.
    spec fn spec_terminal(self) -> bool;

    /// The transition table, in declaration order.
    spec fn spec_transitions() -> Seq<(Self, Self)>;

    fn as_str(self) -> (r: &'static str)
        ensures
            r@ == self.spec_str(),
    ;

    fn parse(s: &str) -> (r: Option<Self>)
        ensures
            r == Self::spec_parse(s@),
    ;

    fn is_terminal(self) -> (r: bool)
        ensures
            r == self.spec_terminal(),
    ;

    fn transitions() -> (r: Vec<(Self, Self)>)
        ensures
            r@ == Self::spec_transitions(),
    ;

    fn same(self, other: Self) -> (r: bool)
        ensures
            r == (self == other),
    ;
}

/// `from → to` appears in the transition table of the status type.
pub open spec fn spec_legal<S: ItemStatus>(from: S, to: S) -> bool {
    S::spec_transitions().contains((from, to))
}

/// Whether `from → to` is in the transition table.
pub fn is_legal_transition<S: ItemStatus>(from: S, to: S) -> (r: bool)
    ensures
        r == spec_legal(from, to),
{
    let table = S::transitions();
    let mut i: usize = 0;
    while i < table.len()
        invariant
            table@ == S::spec_transitions(),
            i <= table@.len(),
            forall|k: int| 0 <= k < i ==> table@[k] != (from, to),
        decreases table.len() - i,
    {
        let (f, t) = table[i];
        if f.same(from) && t.same(to) {
            assert(table@[i as int] == (from, to));
            return true;
        }
        i += 1;
    }
    assert(!S::spec_transitions().contains((from, to)));
    false
}

// ----- Intent -------------------------------------------------------------

/// The status of an intent.
#[derive(Debug, Clone, Copy, PartialEq, Eq, Structural)]
pub enum IntentStatus {
    Active,
    Satisfied,
    Defeated,
    Superseded,
}

impl ItemStatus for IntentStatus {
    open spec fn spec_str(self) -> Seq<char> {
        match self {
            IntentStatus::Active => "active"@,
            IntentStatus::Satisfied => "satisfied"@,
            IntentStatus::Defeated => "defeated"@,
            IntentStatus::Superseded => "superseded"@,
        }
    }

    open spec fn spec_parse(s: Seq<char>) -> Option<Self> {
        if s == "active"@ {
            Some(IntentStatus::Active)
        } else if s == "satisfied"@ {
            Some(IntentStatus::Satisfied)
        } else if s == "defeated"@ {
            Some(IntentStatus::Defeated)
        } else if s == "superseded"@ {
            Some(IntentStatus::Superseded)
        } else {
            None
        }
    }

    open spec fn spec_terminal(self) -> bool {
        !(self is Active)
    }

    open spec fn spec_transitions() -> Seq<(Self, Self)> {
        seq![
            (IntentStatus::Active, IntentStatus::Satisfied),
            (IntentStatus::Active, IntentStatus::Defeated),
            (IntentStatus::Active, IntentStatus::Superseded),
        ]
    }

    fn as_str(self) -> (r: &'static str) {
        match self {
            IntentStatus::Active => "active",
            IntentStatus::Satisfied => "satisfied",
            IntentStatus::Defeated => "defeated",
            IntentStatus::Superseded => "superseded",
        }
    }

    fn parse(s: &str) -> (r: Option<Self>) {
        if str_eq(s, "active") {
            Some(IntentStatus::Active)
        } else if str_eq(s, "satisfied") {
            Some(IntentStatus::Satisfied)
        } else if str_eq(s, "defeated") {
            Some(IntentStatus::Defeated)
        } else if str_eq(s, "superseded") {
            Some(IntentStatus::Superseded)
        } else {
            None
        }
    }

    fn is_terminal(self) -> (r: bool) {
        !matches!(self, IntentStatus::Active)
    }

    fn transitions() -> (r: Vec<(Self, Self)>) {
        let r = vec![
            (IntentStatus::Active, IntentStatus::Satisfied),
            (IntentStatus::Active, IntentStatus::Defeated),
            (IntentStatus::Active, IntentStatus::Superseded),
        ];
        assert(r@ =~= Self::spec_transitions());
        r
    }

    fn same(self, other: Self) -> (r: bool) {
        self == other
    }
}

/// Kind tag for intents.
pub struct IntentKind;

impl IntentKind {
    pub fn kind_str() -> (r: &'static str)
        ensures
            r@ == "intent"@,
    {
        "intent"
    }
}

// ----- Backlog item -------------------------------------------------------

/// The status of a backlog item.
#[derive(Debug, Clone, Copy, PartialEq, Eq, Structural)]
pub enum BacklogStatus {
    Active,
    Done,
    Defeated,
    Superseded,
    Blocked,
}

impl ItemStatus for BacklogStatus {
    open spec fn spec_str(self) -> Seq<char> {
        match self {
            BacklogStatus::Active => "active"@,
            BacklogStatus::Done => "done"@,
            BacklogStatus::Defeated => "defeated"@,
            BacklogStatus::Superseded => "superseded"@,
            BacklogStatus::Blocked => "blocked"@,
        }
    }

    open spec fn spec_parse(s: Seq<char>) -> Option<Self> {
        if s == "active"@ {
            Some(BacklogStatus::Active)
        } else if s == "done"@ {
            Some(BacklogStatus::Done)
        } else if s == "defeated"@ {
            Some(BacklogStatus::Defeated)
        } else if s == "superseded"@ {
            Some(BacklogStatus::Superseded)
        } else if s == "blocked"@ {
            Some(BacklogStatus::Blocked)
        } else {
            None
        }
    }

    open spec fn spec_terminal(self) -> bool {
        !(self is Active || self is Blocked)
    }

    open spec fn spec_transitions() -> Seq<(Self, Self)> {
        seq![
            (BacklogStatus::Active, BacklogStatus::Done),
            (BacklogStatus::Active, BacklogStatus::Defeated),
            (BacklogStatus::Active, BacklogStatus::Superseded),
            (BacklogStatus::Active, BacklogStatus::Blocked),
            (BacklogStatus::Blocked, BacklogStatus::Active),
            (BacklogStatus::Blocked, BacklogStatus::Done),
            (BacklogStatus::Blocked, BacklogStatus::Defeated),
            (BacklogStatus::Blocked, BacklogStatus::Superseded),
        ]
    }

    fn as_str(self) -> (r: &'static str) {
        match self {
            BacklogStatus::Active => "active",
            BacklogStatus::Done => "done",
            BacklogStatus::Defeated => "defeated",
            BacklogStatus::Superseded => "superseded",
            BacklogStatus::Blocked => "blocked",
        }
    }

    fn parse(s: &str) -> (r: Option<Self>) {
        if str_eq(s, "active") {
            Some(BacklogStatus::Active)
        } else if str_eq(s, "done") {
            Some(BacklogStatus::Done)
        } else if str_eq(s, "defeated") {
            Some(BacklogStatus::Defeated)
        } else if str_eq(s, "superseded") {
            Some(BacklogStatus::Superseded)
        } else if str_eq(s, "blocked") {
            Some(BacklogStatus::Blocked)
        } else {
            None
        }
    }

    fn is_terminal(self) -> (r: bool) {
        !matches!(self, BacklogStatus::Active | BacklogStatus::Blocked)
    }

    fn transitions() -> (r: Vec<(Self, Self)>) {
        let r = vec![
            (BacklogStatus::Active, BacklogStatus::Done),
            (BacklogStatus::Active, BacklogStatus::Defeated),
            (BacklogStatus::Active, BacklogStatus::Superseded),
            (BacklogStatus::Active, BacklogStatus::Blocked),
            (BacklogStatus::Blocked, BacklogStatus::Active),
            (BacklogStatus::Blocked, BacklogStatus::Done),
            (BacklogStatus::Blocked, BacklogStatus::Defeated),
            (BacklogStatus::Blocked, BacklogStatus::Superseded),
        ];
        assert(r@ =~= Self::spec_transitions());
        r
    }

    fn same(self, other: Self) -> (r: bool) {
        self == other
    }
}

/// Kind tag for backlog items.
pub struct BacklogItemKind;

impl BacklogItemKind {
    pub fn kind_str() -> (r: &'static str)
        ensures
            r@ == "backlog-item"@,
    {
        "backlog-item"
    }
}

// ----- Memory entry -------------------------------------------------------

/// The status of a memory entry.
#[derive(Debug, Clone, Copy, PartialEq, Eq, Structural)]
pub enum MemoryStatus {
    Active,
    Defeated,
    Superseded,
    /// Migrated from an older plan layout without attribution; awaits
    /// curation (re-attribute to active, or defeat).
    Legacy,
}

impl ItemStatus for MemoryStatus {
    open spec fn spec_str(self) -> Seq<char> {
        match self {
            MemoryStatus::Active => "active"@,
            MemoryStatus::Defeated => "defeated"@,
            MemoryStatus::Superseded => "superseded"@,
            MemoryStatus::Legacy => "legacy"@,
        }
    }

    open spec fn spec_parse(s: Seq<char>) -> Option<Self> {
        if s == "active"@ {
            Some(MemoryStatus::Active)
        } else if s == "defeated"@ {
            Some(MemoryStatus::Defeated)
        } else if s == "superseded"@ {
            Some(MemoryStatus::Superseded)
        } else if s == "legacy"@ {
            Some(MemoryStatus::Legacy)
        } else {
            None
        }
    }

    open spec fn spec_terminal(self) -> bool {
        self is Defeated || self is Superseded
    }

    open spec fn spec_transitions() -> Seq<(Self, Self)> {
        seq![
            (MemoryStatus::Active, MemoryStatus::Defeated),
            (MemoryStatus::Active, MemoryStatus::Superseded),
            (MemoryStatus::Legacy, MemoryStatus::Active),
            (MemoryStatus::Legacy, MemoryStatus::Defeated),
        ]
    }

    fn as_str(self) -> (r: &'static str) {
        match self {
            MemoryStatus::Active => "active",
            MemoryStatus::Defeated => "defeated",
            MemoryStatus::Superseded => "superseded",
            MemoryStatus::Legacy => "legacy",
        }
    }

    fn parse(s: &str) -> (r: Option<Self>) {
        if str_eq(s, "active") {
            Some(MemoryStatus::Active)
        } else if str_eq(s, "defeated") {
            Some(MemoryStatus::Defeated)
        } else if str_eq(s, "superseded") {
            Some(MemoryStatus::Superseded)
        } else if str_eq(s, "legacy") {
            Some(MemoryStatus::Legacy)
        } else {
            None
        }
    }

    fn is_terminal(self) -> (r: bool) {
        matches!(self, MemoryStatus::Defeated | MemoryStatus::Superseded)
    }

    fn transitions() -> (r: Vec<(Self, Self)>) {
        let r = vec![
            (MemoryStatus::Active, MemoryStatus::Defeated),
            (MemoryStatus::Active, MemoryStatus::Superseded),
            (MemoryStatus::Legacy, MemoryStatus::Active),
            (MemoryStatus::Legacy, MemoryStatus::Defeated),
        ];
        assert(r@ =~= Self::spec_transitions());
        r
    }

    fn same(self, other: Self) -> (r: bool) {
        self == other
    }
}

/// Kind tag for memory entries.
pub struct MemoryEntryKind;

impl MemoryEntryKind {
    pub fn kind_str() -> (r: &'static str)
        ensures
            r@ == "memory-entry"@,
    {
        "memory-entry"
    }
}

// ----- Finding ------------------------------------------------------------

/// The status of a finding.
#[derive(Debug, Clone, Copy, PartialEq, Eq, Structural)]
pub enum FindingStatus {
    New,
    Promoted,
    Wontfix,
    Superseded,
}

impl ItemStatus for FindingStatus {
    open spec fn spec_str(self) -> Seq<char> {
        match self {
            FindingStatus::New => "new"@,
            FindingStatus::Promoted => "promoted"@,
            FindingStatus::Wontfix => "wontfix"@,
            FindingStatus::Superseded => "superseded"@,
        }
    }

    open spec fn spec_parse(s: Seq<char>) -> Option<Self> {
        if s == "new"@ {
            Some(FindingStatus::New)
        } else if s == "promoted"@ {
            Some(FindingStatus::Promoted)
        } else if s == "wontfix"@ {
            Some(FindingStatus::Wontfix)
        } else if s == "superseded"@ {
            Some(FindingStatus::Superseded)
        } else {
            None
        }
    }

    open spec fn spec_terminal(self) -> bool {
        !(self is New)
    }

    open spec fn spec_transitions() -> Seq<(Self, Self)> {
        seq![
            (FindingStatus::New, FindingStatus::Promoted),
            (FindingStatus::New, FindingStatus::Wontfix),
            (FindingStatus::New, FindingStatus::Superseded),
        ]
    }

    fn as_str(self) -> (r: &'static str) {
        match self {
            FindingStatus::New => "new",
            FindingStatus::Promoted => "promoted",
            FindingStatus::Wontfix => "wontfix",
            FindingStatus::Superseded => "superseded",
        }
    }

    fn parse(s: &str) -> (r: Option<Self>) {
        if str_eq(s, "new") {
            Some(FindingStatus::New)
        } else if str_eq(s, "promoted") {
            Some(FindingStatus::Promoted)
        } else if str_eq(s, "wontfix") {
            Some(FindingStatus::Wontfix)
        } else if str_eq(s, "superseded") {
            Some(FindingStatus::Superseded)
        } else {
            None
        }
    }

    fn is_terminal(self) -> (r: bool) {
        !matches!(self, FindingStatus::New)
    }

    fn transitions() -> (r: Vec<(Self, Self)>) {
        let r = vec![
            (FindingStatus::New, FindingStatus::Promoted),
            (FindingStatus::New, FindingStatus::Wontfix),
            (FindingStatus::New, FindingStatus::Superseded),
        ];
        assert(r@ =~= Self::spec_transitions());
        r
    }

    fn same(self, other: Self) -> (r: bool) {
        self == other
    }
}

/// Kind tag for findings.
pub struct FindingKind;

impl FindingKind {
    pub fn kind_str() -> (r: &'static str)
        ensures
            r@ == "finding"@,
    {
        "finding"
    }
}

// ----- Laws of the vocabularies -------------------------------------------

/// Terminal statuses have no outgoing transition: every row of every
/// transition table starts from a non-terminal status.
pub proof fn lemma_transitions_leave_non_terminal_states()
    ensures
        forall|i: int|
            0 <= i < IntentStatus::spec_transitions().len() ==> !(
            #[trigger] IntentStatus::spec_transitions()[i]).0.spec_terminal(),
        forall|i: int|
            0 <= i < BacklogStatus::spec_transitions().len() ==> !(
            #[trigger] BacklogStatus::spec_transitions()[i]).0.spec_terminal(),
        forall|i: int|
            0 <= i < MemoryStatus::spec_transitions().len() ==> !(
            #[trigger] MemoryStatus::spec_transitions()[i]).0.spec_terminal(),
        forall|i: int|
            0 <= i < FindingStatus::spec_transitions().len() ==> !(
            #[trigger] FindingStatus::spec_transitions()[i]).0.spec_terminal(),
{
}

/// A backlog task that is open (active or blocked) may move to any other
/// status, done included; a closed task (done, defeated, superseded)
/// never moves.
pub proof fn lemma_backlog_transitions(from: BacklogStatus, to: BacklogStatus)
    ensures
        spec_legal(from, to) <==> (from == BacklogStatus::Active || from == BacklogStatus::Blocked) && from != to,
{
    let t = BacklogStatus::spec_transitions();
    if (from == BacklogStatus::Active || from == BacklogStatus::Blocked) && from != to {
        let k: int = match (from, to) {
            (BacklogStatus::Active, BacklogStatus::Done) => 0,
            (BacklogStatus::Active, BacklogStatus::Defeated) => 1,
            (BacklogStatus::Active, BacklogStatus::Superseded) => 2,
            (BacklogStatus::Active, BacklogStatus::Blocked) => 3,
            (BacklogStatus::Blocked, BacklogStatus::Active) => 4,
            (BacklogStatus::Blocked, BacklogStatus::Done) => 5,
            (BacklogStatus::Blocked, BacklogStatus::Defeated) => 6,
            _ => 7,
        };
        assert(t[k] == (from, to));
    }
}

/// An active intent may move to any other status; nothing else moves.
pub proof fn lemma_intent_transitions(from: IntentStatus, to: IntentStatus)
    ensures
        spec_legal(from, to) <==> from == IntentStatus::Active && to != IntentStatus::Active,
{
    let t = IntentStatus::spec_transitions();
    if from == IntentStatus::Active && to != IntentStatus::Active {
        let k: int = match to {
            IntentStatus::Satisfied => 0,
            IntentStatus::Defeated => 1,
            _ => 2,
        };
        assert(t[k] == (from, to));
    }
}

/// A new finding may move to any other status; nothing else moves.
pub proof fn lemma_finding_transitions(from: FindingStatus, to: FindingStatus)
    ensures
        spec_legal(from, to) <==> from == FindingStatus::New && to != FindingStatus::New,
{
    let t = FindingStatus::spec_transitions();
    if from == FindingStatus::New && to != FindingStatus::New {
        let k: int = match to {
            FindingStatus::Promoted => 0,
            FindingStatus::Wontfix => 1,
            _ => 2,
        };
        assert(t[k] == (from, to));
    }
}

/// An active memory entry may be defeated or superseded; a legacy one
/// may be curated back to active or defeated; defeated and superseded
/// entries never move, and nothing moves to legacy.
pub proof fn lemma_memory_transitions(from: MemoryStatus, to: MemoryStatus)
    ensures
        spec_legal(from, to) <==> (from == MemoryStatus::Active && (to == MemoryStatus::Defeated || to
            == MemoryStatus::Superseded)) || (from == MemoryStatus::Legacy && (to == MemoryStatus::Active || to
            == MemoryStatus::Defeated)),
{
    let t = MemoryStatus::spec_transitions();
    if from == MemoryStatus::Active && to == MemoryStatus::Defeated {
        assert(t[0] == (from, to));
    } else if from == MemoryStatus::Active && to == MemoryStatus::Superseded {
        assert(t[1] == (from, to));
    } else if from == MemoryStatus::Legacy && to == MemoryStatus::Active {
        assert(t[2] == (from, to));
    } else if from == MemoryStatus::Legacy && to == MemoryStatus::Defeated {
        assert(t[3] == (from, to));
    }
}

/// Parsing a status's wire word gives back that status, for every kind.
pub proof fn lemma_status_words_round_trip()
    ensures
        forall|s: IntentStatus| IntentStatus::spec_parse(#[trigger] s.spec_str()) == Some(s),
        forall|s: BacklogStatus| BacklogStatus::spec_parse(#[trigger] s.spec_str()) == Some(s),
        forall|s: MemoryStatus| MemoryStatus::spec_parse(#[trigger] s.spec_str()) == Some(s),
        forall|s: FindingStatus| FindingStatus::spec_parse(#[trigger] s.spec_str()) == Some(s),
{
    reveal_strlit("active");
    reveal_strlit("satisfied");
    reveal_strlit("defeated");
    reveal_strlit("superseded");
    reveal_strlit("done");
    reveal_strlit("blocked");
    reveal_strlit("legacy");
    reveal_strlit("new");
    reveal_strlit("promoted");
    reveal_strlit("wontfix");
    assert("active"@.len() == 6);
    assert("satisfied"@.len() == 9);
    assert("defeated"@.len() == 8);
    assert("superseded"@.len() == 10);
    assert("done"@.len() == 4);
    assert("blocked"@.len() == 7);
    assert("legacy"@.len() == 6);
    assert("active"@[0] != "legacy"@[0]);
    assert("new"@.len() == 3);
    assert("promoted"@.len() == 8);
    assert("wontfix"@.len() == 7);
    assert("defeated"@[0] != "promoted"@[0]);
}

// ----- Items ----------------------------------------------------------------

/// One reason an item is believed.
#[derive(Debug)]
pub enum Justification {
    /// A code location whose content backed the claim when it was made.
    CodeAnchor { component: String, path: String, lines: Option<String>, sha_at_assertion: String },
    /// Free prose.
    Rationale { text: String },
    /// The item serves the named intent.
    ServesIntent { intent_id: String },
    /// The item defeats the named item.
    Defeats { item_id: String },
    /// The item supersedes the named item.
    Supersedes { item_id: String },
    /// An external reference.
    External { uri: String },
}

/// The content of a justification, with every string taken by its view.
pub enum JustificationView {
    CodeAnchor {
        component: Seq<char>,
        path: Seq<char>,
        lines: Option<Seq<char>>,
        sha_at_assertion: Seq<char>,
    },
    Rationale { text: Seq<char> },
    ServesIntent { intent_id: Seq<char> },
    Defeats { item_id: Seq<char> },
    Supersedes { item_id: Seq<char> },
    External { uri: Seq<char> },
}

/// The view of an optional string.
pub open spec fn opt_view(o: Option<String>) -> Option<Seq<char>> {
    match o {
        Some(s) => Some(s@),
        None => None,
    }
}

impl View for Justification {
    type V = JustificationView;

    open spec fn view(&self) -> JustificationView {
        match self {
            Justification::CodeAnchor { component, path, lines, sha_at_assertion } =>
                JustificationView::CodeAnchor {
                component: component@,
                path: path@,
                lines: opt_view(*lines),
                sha_at_assertion: sha_at_assertion@,
            },
            Justification::Rationale { text } => JustificationView::Rationale { text: text@ },
            Justification::ServesIntent { intent_id } => JustificationView::ServesIntent {
                intent_id: intent_id@,
            },
            Justification::Defeats { item_id } => JustificationView::Defeats { item_id: item_id@ },
            Justification::Supersedes { item_id } => JustificationView::Supersedes {
                item_id: item_id@,
            },
            Justification::External { uri } => JustificationView::External { uri: uri@ },
        }
    }
}

/// An optional string copy.
pub fn clone_opt(o: &Option<String>) -> (r: Option<String>)
    ensures
        r == *o,
{
    match o {
        Some(s) => Some(s.clone()),
        None => None,
    }
}

/// The optional strings hold the same characters.
pub fn opt_eq(a: &Option<String>, b: &Option<String>) -> (r: bool)
    ensures
        r == (opt_view(*a) == opt_view(*b)),
{
    match (a, b) {
        (Some(x), Some(y)) => *x == *y,
        (None, None) => true,
        _ => false,
    }
}

impl Justification {
    /// A copy of this justification.
    pub fn duplicate(&self) -> (r: Justification)
        ensures
            r == *self,
    {
        match self {
            Justification::CodeAnchor { component, path, lines, sha_at_assertion } =>
                Justification::CodeAnchor {
                component: component.clone(),
                path: path.clone(),
                lines: clone_opt(lines),
                sha_at_assertion: sha_at_assertion.clone(),
            },
            Justification::Rationale { text } => Justification::Rationale { text: text.clone() },
            Justification::ServesIntent { intent_id } => Justification::ServesIntent {
                intent_id: intent_id.clone(),
            },
            Justification::Defeats { item_id } => Justification::Defeats {
                item_id: item_id.clone(),
            },
            Justification::Supersedes { item_id } => Justification::Supersedes {
                item_id: item_id.clone(),
            },
            Justification::External { uri } => Justification::External { uri: uri.clone() },
        }
    }

    /// The two justifications have the same content.
    pub fn same_content(&self, other: &Justification) -> (r: bool)
        ensures
            r == (self@ == other@),
    {
        match (self, other) {
            (
                Justification::CodeAnchor { component: c1, path: p1, lines: l1, sha_at_assertion: s1 },
                Justification::CodeAnchor { component: c2, path: p2, lines: l2, sha_at_assertion: s2 },
            ) => *c1 == *c2 && *p1 == *p2 && opt_eq(l1, l2) && *s1 == *s2,
            (Justification::Rationale { text: a }, Justification::Rationale { text: b }) => *a
                == *b,
            (
                Justification::ServesIntent { intent_id: a },
                Justification::ServesIntent { intent_id: b },
            ) => *a == *b,
            (Justification::Defeats { item_id: a }, Justification::Defeats { item_id: b }) => *a
                == *b,
            (Justification::Supersedes { item_id: a }, Justification::Supersedes { item_id: b }) =>
                *a == *b,
            (Justification::External { uri: a }, Justification::External { uri: b }) => *a == *b,
            _ => false,
        }
    }
}

/// A copy of a list of strings.
pub fn clone_strings(v: &Vec<String>) -> (r: Vec<String>)
    ensures
        r@ == v@,
{
    let mut r: Vec<String> = Vec::new();
    let mut i: usize = 0;
    while i < v.len()
        invariant
            i <= v@.len(),
            r@ == v@.subrange(0, i as int),
        decreases v.len() - i,
    {
        r.push(v[i].clone());
        i += 1;
        assert(r@ =~= v@.subrange(0, i as int));
    }
    assert(r@ =~= v@);
    r
}

/// A copy of a list of justifications.
pub fn clone_justifications(v: &Vec<Justification>) -> (r: Vec<Justification>)
    ensures
        r@ == v@,
{
    let mut r: Vec<Justification> = Vec::new();
    let mut i: usize = 0;
    while i < v.len()
        invariant
            i <= v@.len(),
            r@ == v@.subrange(0, i as int),
        decreases v.len() - i,
    {
        r.push(v[i].duplicate());
        i += 1;
        assert(r@ =~= v@.subrange(0, i as int));
    }
    assert(r@ =~= v@);
    r
}

/// The two lists of justifications have the same content, in order.
pub fn justifications_same(a: &Vec<Justification>, b: &Vec<Justification>) -> (r: bool)
    ensures
        r == (a@.map_values(|j: Justification| j@) == b@.map_values(|j: Justification| j@)),
{
    let ghost va = a@.map_values(|j: Justification| j@);
    let ghost vb = b@.map_values(|j: Justification| j@);
    if a.len() != b.len() {
        assert(va.len() != vb.len());
        return false;
    }
    let mut i: usize = 0;
    while i < a.len()
        invariant
            a@.len() == b@.len(),
            i <= a@.len(),
            va == a@.map_values(|j: Justification| j@),
            vb == b@.map_values(|j: Justification| j@),
            forall|k: int| 0 <= k < i ==> va[k] == vb[k],
        decreases a.len() - i,
    {
        if !a[i].same_content(&b[i]) {
            assert(va[i as int] != vb[i as int]);
            return false;
        }
        i += 1;
    }
    assert(va =~= vb);
    true
}

/// `k` is the position of the first `Rationale` justification.
pub open spec fn is_first_rationale(js: Seq<Justification>, k: int) -> bool {
    &&& 0 <= k < js.len()
    &&& js[k] is Rationale
    &&& forall|m: int| 0 <= m < k ==> !((#[trigger] js[m]) is Rationale)
}

/// `js` with its first rationale replaced by `Rationale { text }`, or
/// with that rationale put in front when there is none.
pub open spec fn rationale_replaced(js: Seq<Justification>, text: String) -> Seq<Justification> {
    if exists|k: int| is_first_rationale(js, k) {
        js.update(choose|k: int| is_first_rationale(js, k), Justification::Rationale { text })
    } else {
        seq![Justification::Rationale { text }] + js
    }
}

/// Replace the first rationale's text, or insert a rationale in front.
pub fn set_rationale(js: &mut Vec<Justification>, text: String)
    ensures
        final(js)@ == rationale_replaced(old(js)@, text),
{
    let mut k: usize = 0;
    while k < js.len()
        invariant
            k <= js@.len(),
            js@ == old(js)@,
            forall|m: int| 0 <= m < k ==> !((#[trigger] js@[m]) is Rationale),
        decreases js.len() - k,
    {
        if matches!(js[k], Justification::Rationale { .. }) {
            assert(is_first_rationale(js@, k as int));
            proof {
                let c = choose|c: int| is_first_rationale(old(js)@, c);
                if c < k {
                    assert(!(js@[c] is Rationale));
                } else if c > k {
                    assert(!(js@[k as int] is Rationale));
                }
            }
            js.set(k, Justification::Rationale { text });
            return;
        }
        k += 1;
    }
    js.insert(0, Justification::Rationale { text });
    assert(js@ =~= rationale_replaced(old(js)@, text)) by {
        assert(!exists|k: int| is_first_rationale(old(js)@, k));
    }
}

/// A typed plan item: identity, claim, justifications, status,
/// supersession and defeat links, and provenance.
#[derive(Debug)]
pub struct Item<S> {
    pub id: String,
    pub claim: String,
    pub justifications: Vec<Justification>,
    pub status: S,
    pub supersedes: Vec<String>,
    pub superseded_by: Option<String>,
    pub defeated_by: Option<String>,
    pub authored_at: String,
    pub authored_in: String,
}

/// The two items hold the same content (lists compared element-wise).
pub open spec fn item_same<S>(a: Item<S>, b: Item<S>) -> bool {
    &&& a.id == b.id
    &&& a.claim == b.claim
    &&& a.justifications@ == b.justifications@
    &&& a.status == b.status
    &&& a.supersedes@ == b.supersedes@
    &&& a.superseded_by == b.superseded_by
    &&& a.defeated_by == b.defeated_by
    &&& a.authored_at == b.authored_at
    &&& a.authored_in == b.authored_in
}

/// A copy of an item.
pub fn clone_item<S: ItemStatus>(it: &Item<S>) -> (r: Item<S>)
    ensures
        item_same(r, *it),
{
    Item {
        id: it.id.clone(),
        claim: it.claim.clone(),
        justifications: clone_justifications(&it.justifications),
        status: it.status,
        supersedes: clone_strings(&it.supersedes),
        superseded_by: clone_opt(&it.superseded_by),
        defeated_by: clone_opt(&it.defeated_by),
        authored_at: it.authored_at.clone(),
        authored_in: it.authored_in.clone(),
    }
}

/// A fresh item with a single rationale: its id, claim, body (newline
/// terminated), status and provenance; an absent authoring time is the
/// current UTC time, an absent authoring context `unspecified`.
pub fn new_item<S: ItemStatus>(
    id: String,
    claim: &str,
    body: &str,
    status: S,
    authored_at: &Option<String>,
    authored_in: &Option<String>,
) -> (r: Item<S>)
    ensures
        r.id == id,
        r.claim@ == claim@,
        r.justifications@.len() == 1,
        r.justifications@[0]@ == (JustificationView::Rationale {
            text: crate::text::with_trailing_newline(body@),
        }),
        r.status == status,
        r.supersedes@.len() == 0,
        r.superseded_by is None,
        r.defeated_by is None,
        (match authored_at {
            Some(t) => r.authored_at@ == t@,
            None => exists|secs: u64| r.authored_at@ == crate::dates::utc_text(secs as nat),
        }),
        (match authored_in {
            Some(t) => r.authored_in@ == t@,
            None => r.authored_in@ == "unspecified"@,
        }),
{
    let text = crate::text::ensure_trailing_newline(body);
    let at = match authored_at {
        Some(t) => t.clone(),
        None => crate::dates::current_utc_rfc3339(),
    };
    let inn = match authored_in {
        Some(t) => t.clone(),
        None => "unspecified".to_owned(),
    };
    let mut js: Vec<Justification> = Vec::new();
    js.push(Justification::Rationale { text });
    Item {
        id,
        claim: claim.to_owned(),
        justifications: js,
        status,
        supersedes: Vec::new(),
        superseded_by: None,
        defeated_by: None,
        authored_at: at,
        authored_in: inn,
    }
}

/// The refusal of a move that the transition table does not hold:
/// `illegal status transition for <kind> "<id>": `from` → `to` is not in
/// the transition table`, the id quoted as `debug_quoted` says.
pub open spec fn transition_message(kind: Seq<char>, id: Seq<char>, from: Seq<char>, to: Seq<char>) -> Seq<
    char,
> {
    "illegal status transition for "@ + kind + " "@ + crate::text::debug_quoted(id) + ": `"@ + from
        + "` → `"@ + to + "` is not in the transition table"@
}

/// Moves an item to status `to`: a no-op when it already has that status,
/// the new status when `from → to` is in the table, an error otherwise.
pub fn set_item_status<S: ItemStatus>(item: &mut Item<S>, to: S, kind_label: &str) -> (r: Result<
    (),
    PlanError,
>)
    ensures
        r is Ok <==> (old(item).status == to || spec_legal(old(item).status, to)),
        r is Ok ==> final(item).status == to,
        r is Err ==> r->Err_0.code == ErrorCode::InvalidInput && final(item).status == old(item).status,
        r matches Err(e) ==> e.message@ == transition_message(
            kind_label@,
            old(item).id@,
            old(item).status.spec_str(),
            to.spec_str(),
        ),
        final(item).id == old(item).id,
        final(item).claim == old(item).claim,
        final(item).justifications == old(item).justifications,
        final(item).supersedes == old(item).supersedes,
        final(item).superseded_by == old(item).superseded_by,
        final(item).defeated_by == old(item).defeated_by,
        final(item).authored_at == old(item).authored_at,
        final(item).authored_in == old(item).authored_in,
{
    let from = item.status;
    if from.same(to) {
        return Ok(());
    }
    if !is_legal_transition(from, to) {
        let q = crate::text::debug_quote(item.id.as_str());
        let mut msg = concat3("illegal status transition for ", kind_label, " ");
        msg.append(q.as_str());
        msg.append(": `");
        msg.append(from.as_str());
        msg.append("` → `");
        msg.append(to.as_str());
        msg.append("` is not in the transition table");
        return Err(PlanError { code: ErrorCode::InvalidInput, message: msg });
    }
    item.status = to;
    Ok(())
}

} // verus!
