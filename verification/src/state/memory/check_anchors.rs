//! The bounded truth-maintenance check on memory: every code anchor of an
//! active entry names a file whose current blob hash should still be the
//! one recorded when the entry was asserted.
//!
//! The library lists the anchors to look at and turns what was observed of
//! each file (missing, or present with some blob hash) into the report;
//! looking at the working tree is the caller's part.

use vstd::prelude::*;

use crate::plan_kg::{clone_opt, opt_view, Justification, JustificationView, MemoryStatus};
use crate::text::owned;

use super::schema::{MemoryEntry, MemoryFile};

verus! {

broadcast use vstd::string::group_string_axioms;

/// The schema version of a suspect report.
pub const REPORT_SCHEMA_VERSION: u32 = 1;

/// Why an anchor is suspect.
#[derive(Debug, Clone, Copy, PartialEq, Eq, Structural)]
pub enum SuspectReason {
    /// The file the anchor names does not exist under the project root.
    PathMissing,
    /// The file exists but its blob hash differs from the recorded one.
    ShaMismatch,
}

/// A code anchor of an active entry, with the id of the entry.
#[derive(Debug)]
pub struct AnchorRef {
    pub entry_id: String,
    pub component: String,
    pub path: String,
    pub lines: Option<String>,
    pub expected_sha: String,
}

/// An anchor as the contracts see it.
pub ghost struct AnchorView {
    pub entry_id: Seq<char>,
    pub component: Seq<char>,
    pub path: Seq<char>,
    pub lines: Option<Seq<char>>,
    pub expected_sha: Seq<char>,
}

impl View for AnchorRef {
    type V = AnchorView;

    open spec fn view(&self) -> AnchorView {
        AnchorView {
            entry_id: self.entry_id@,
            component: self.component@,
            path: self.path@,
            lines: opt_view(self.lines),
            expected_sha: self.expected_sha@,
        }
    }
}

/// What was seen of an anchor's file.
#[derive(Debug)]
pub enum AnchorObservation {
    /// No file at the anchor's path.
    Missing,
    /// The file exists; `sha` is the blob hash of its current content.
    Present { sha: String },
}

/// An anchor whose file is missing or has changed.
#[derive(Debug)]
pub struct Suspect {
    pub entry_id: String,
    pub component: String,
    pub path: String,
    pub lines: Option<String>,
    pub expected_sha: String,
    pub actual_sha: Option<String>,
    pub reason: SuspectReason,
}

/// A suspect as the contracts see it.
pub ghost struct SuspectView {
    pub anchor: AnchorView,
    pub actual_sha: Option<Seq<char>>,
    pub reason: SuspectReason,
}

impl View for Suspect {
    type V = SuspectView;

    open spec fn view(&self) -> SuspectView {
        SuspectView {
            anchor: AnchorView {
                entry_id: self.entry_id@,
                component: self.component@,
                path: self.path@,
                lines: opt_view(self.lines),
                expected_sha: self.expected_sha@,
            },
            actual_sha: opt_view(self.actual_sha),
            reason: self.reason,
        }
    }
}

/// The outcome of a check: how many anchors were looked at, and which are
/// suspect.
#[derive(Debug)]
pub struct SuspectReport {
    pub schema_version: u32,
    pub checked: usize,
    pub suspects: Vec<Suspect>,
}

impl SuspectReport {
    /// A report of nothing checked.
    pub fn empty() -> (r: Self)
        ensures
            r.schema_version == REPORT_SCHEMA_VERSION,
            r.checked == 0,
            r.suspects@.len() == 0,
    {
        SuspectReport { schema_version: REPORT_SCHEMA_VERSION, checked: 0, suspects: Vec::new() }
    }
}

/// The code anchors among `js`, in order, for the entry `id`.
pub open spec fn entry_anchors(id: Seq<char>, js: Seq<Justification>) -> Seq<AnchorView>
    decreases js.len(),
{
    if js.len() == 0 {
        seq![]
    } else {
        entry_anchors(id, js.drop_last()) + match js.last()@ {
            JustificationView::CodeAnchor { component, path, lines, sha_at_assertion } => seq![
                AnchorView { entry_id: id, component, path, lines, expected_sha: sha_at_assertion },
            ],
            _ => seq![],
        }
    }
}

/// The code anchors of the active entries, in file order. Defeated,
/// superseded and legacy entries are not looked at.
pub open spec fn memory_anchors(items: Seq<MemoryEntry>) -> Seq<AnchorView>
    decreases items.len(),
{
    if items.len() == 0 {
        seq![]
    } else {
        memory_anchors(items.drop_last()) + if items.last().item.status == MemoryStatus::Active {
            entry_anchors(items.last().item.id@, items.last().item.justifications@)
        } else {
            seq![]
        }
    }
}

/// What an observation makes of an anchor: a missing file is suspect, a
/// file whose hash differs is suspect, a matching one is not.
pub open spec fn judged(a: AnchorView, seen: Option<Seq<char>>) -> Option<SuspectView> {
    match seen {
        None => Some(SuspectView { anchor: a, actual_sha: None, reason: SuspectReason::PathMissing }),
        Some(sha) => if sha == a.expected_sha {
            None
        } else {
            Some(SuspectView { anchor: a, actual_sha: Some(sha), reason: SuspectReason::ShaMismatch })
        },
    }
}

/// An observation as the contracts see it: the hash seen, or none.
pub open spec fn seen_view(o: AnchorObservation) -> Option<Seq<char>> {
    match o {
        AnchorObservation::Missing => None,
        AnchorObservation::Present { sha } => Some(sha@),
    }
}

/// The suspects among the first anchors, in order, judged against the
/// observations at the same positions.
pub open spec fn suspects_of(anchors: Seq<AnchorView>, seen: Seq<AnchorObservation>) -> Seq<SuspectView>
    decreases anchors.len(),
{
    if anchors.len() == 0 {
        seq![]
    } else {
        let k = anchors.len() - 1;
        suspects_of(anchors.drop_last(), seen) + match judged(anchors[k], seen_view(seen[k])) {
            Some(s) => seq![s],
            None => seq![],
        }
    }
}

/// The views of a list of suspects.
pub open spec fn suspect_views(v: Seq<Suspect>) -> Seq<SuspectView> {
    v.map_values(|s: Suspect| s@)
}

/// The views of a list of anchors.
pub open spec fn anchor_views(v: Seq<AnchorRef>) -> Seq<AnchorView> {
    v.map_values(|a: AnchorRef| a@)
}

/// The code anchors to look at: those of the active entries, in order.
pub fn code_anchors(memory: &MemoryFile) -> (r: Vec<AnchorRef>)
    ensures
        anchor_views(r@) == memory_anchors(memory.items@),
{
    let items = &memory.items;
    let mut out: Vec<AnchorRef> = Vec::new();
    let mut i: usize = 0;
    while i < items.len()
        invariant
            i <= items@.len(),
            anchor_views(out@) == memory_anchors(items@.take(i as int)),
        decreases items.len() - i,
    {
        let ghost before = anchor_views(out@);
        let e = &items[i];
        assert(items@.take(i + 1).drop_last() =~= items@.take(i as int));
        assert(items@.take(i + 1).last() == *e);
        if e.item.status == MemoryStatus::Active {
            let js = &e.item.justifications;
            let mut k: usize = 0;
            while k < js.len()
                invariant
                    k <= js@.len(),
                    anchor_views(out@) == before + entry_anchors(e.item.id@, js@.take(k as int)),
                decreases js.len() - k,
            {
                assert(js@.take(k + 1).drop_last() =~= js@.take(k as int));
                assert(js@.take(k + 1).last() == js@[k as int]);
                match &js[k] {
                    Justification::CodeAnchor { component, path, lines, sha_at_assertion } => {
                        let ghost prev = anchor_views(out@);
                        let a = AnchorRef {
                            entry_id: owned(e.item.id.as_str()),
                            component: owned(component.as_str()),
                            path: owned(path.as_str()),
                            lines: clone_opt(lines),
                            expected_sha: owned(sha_at_assertion.as_str()),
                        };
                        out.push(a);
                        assert(anchor_views(out@) =~= prev.push(a@));
                        assert(anchor_views(out@) =~= before + entry_anchors(e.item.id@, js@.take(k + 1)));
                    },
                    _ => {
                        assert(anchor_views(out@) =~= before + entry_anchors(e.item.id@, js@.take(k + 1)));
                    },
                }
                k += 1;
            }
            assert(js@.take(js@.len() as int) =~= js@);
        } else {
            assert(before + seq![] =~= before);
        }
        i += 1;
    }
    assert(items@.take(items@.len() as int) =~= items@);
    out
}

/// Judge one anchor by what was seen of its file.
pub fn check_one_anchor(anchor: &AnchorRef, seen: &AnchorObservation) -> (r: Option<Suspect>)
    ensures
        match r {
            Some(s) => judged(anchor@, seen_view(*seen)) == Some(s@),
            None => judged(anchor@, seen_view(*seen)) is None,
        },
{
    let actual = match seen {
        AnchorObservation::Missing => None,
        AnchorObservation::Present { sha } => {
            if *sha == anchor.expected_sha {
                return None;
            }
            Some(owned(sha.as_str()))
        },
    };
    let reason = match actual {
        None => SuspectReason::PathMissing,
        Some(_) => SuspectReason::ShaMismatch,
    };
    Some(
        Suspect {
            entry_id: owned(anchor.entry_id.as_str()),
            component: owned(anchor.component.as_str()),
            path: owned(anchor.path.as_str()),
            lines: clone_opt(&anchor.lines),
            expected_sha: owned(anchor.expected_sha.as_str()),
            actual_sha: actual,
            reason,
        },
    )
}

/// The report for `memory`, given what was seen of each anchor's file
/// (`seen[k]` for the `k`-th anchor of `code_anchors`): every anchor of an
/// active entry counted, the missing and changed ones listed in order.
pub fn check_anchors(memory: &MemoryFile, seen: &Vec<AnchorObservation>) -> (r: SuspectReport)
    requires
        seen@.len() == memory_anchors(memory.items@).len(),
    ensures
        r.schema_version == REPORT_SCHEMA_VERSION,
        r.checked == memory_anchors(memory.items@).len(),
        suspect_views(r.suspects@) == suspects_of(memory_anchors(memory.items@), seen@),
{
    let anchors = code_anchors(memory);
    let ghost av = anchor_views(anchors@);
    let mut report = SuspectReport::empty();
    let mut k: usize = 0;
    while k < anchors.len()
        invariant
            av == anchor_views(anchors@),
            av == memory_anchors(memory.items@),
            seen@.len() == av.len(),
            k <= anchors@.len(),
            report.schema_version == REPORT_SCHEMA_VERSION,
            report.checked == k,
            suspect_views(report.suspects@) == suspects_of(av.take(k as int), seen@),
        decreases anchors.len() - k,
    {
        let ghost before = suspect_views(report.suspects@);
        let ghost t = av.take(k + 1);
        assert(t.drop_last() =~= av.take(k as int));
        assert(t[k as int] == anchors@[k as int]@);
        report.checked = report.checked + 1;
        match check_one_anchor(&anchors[k], &seen[k]) {
            Some(s) => {
                report.suspects.push(s);
                assert(suspect_views(report.suspects@) =~= before.push(s@));
            },
            None => {},
        }
        assert(suspect_views(report.suspects@) =~= suspects_of(t, seen@));
        k += 1;
    }
    assert(av.take(av.len() as int) =~= av);
    report
}

} // verus!
