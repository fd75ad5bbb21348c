//! The typed findings.yaml: the context-level inbox of findings raised out of scope of the plan that observed them.

use vstd::prelude::*;

use crate::plan_kg::{clone_item, clone_opt, item_same, Item, FindingStatus};

verus! {

/// The schema version `findings.yaml` is written with.
pub const FINDINGS_SCHEMA_VERSION: u32 = 1;

/// One entry: a typed item and its extra fields.
#[derive(Debug)]
pub struct FindingEntry {
    pub item: Item<FindingStatus>,
    /// the component the finding concerns
    pub component: Option<String>,
    /// where the finding was raised
    pub raised_in: Option<String>,
}

/// The whole file.
#[derive(Debug)]
pub struct FindingsFile {
    pub schema_version: u32,
    pub items: Vec<FindingEntry>,
}

impl Default for FindingsFile {
    fn default() -> (r: Self)
        ensures
            r.schema_version == FINDINGS_SCHEMA_VERSION,
            r.items@.len() == 0,
    {
        FindingsFile { schema_version: FINDINGS_SCHEMA_VERSION, items: Vec::new() }
    }
}

/// The two entries hold the same content.
pub open spec fn entry_same(a: FindingEntry, b: FindingEntry) -> bool {
    &&& item_same(a.item, b.item)
    &&& a.component == b.component
    &&& a.raised_in == b.raised_in
}

/// The two lists hold the same entries, position by position.
pub open spec fn entries_same(a: Seq<FindingEntry>, b: Seq<FindingEntry>) -> bool {
    a.len() == b.len() && forall|i: int| 0 <= i < a.len() ==> entry_same(#[trigger] a[i], b[i])
}

impl FindingEntry {
    /// A copy of this entry.
    pub fn duplicate(&self) -> (r: FindingEntry)
        ensures
            entry_same(r, *self),
    {
        FindingEntry {
            item: clone_item(&self.item),
            component: clone_opt(&self.component),
            raised_in: clone_opt(&self.raised_in),
        }
    }
}

/// Some entry has id `id`.
pub open spec fn has_id(items: Seq<FindingEntry>, id: Seq<char>) -> bool {
    exists|k: int| 0 <= k < items.len() && (#[trigger] items[k]).item.id@ == id
}

/// `i` is the first index whose entry has id `id`.
pub open spec fn is_first_with_id(items: Seq<FindingEntry>, id: Seq<char>, i: int) -> bool {
    &&& 0 <= i < items.len()
    &&& items[i].item.id@ == id
    &&& forall|k: int| 0 <= k < i ==> (#[trigger] items[k]).item.id@ != id
}

/// The ids of the entries, by view.
pub open spec fn id_views(items: Seq<FindingEntry>) -> Seq<Seq<char>> {
    items.map_values(|e: FindingEntry| e.item.id@)
}

/// Index of the first entry with id `id`.
pub fn find_index(items: &Vec<FindingEntry>, id: &str) -> (r: Option<usize>)
    ensures
        match r {
            Some(i) => is_first_with_id(items@, id@, i as int),
            None => !has_id(items@, id@),
        },
{
    let ids = id.to_owned();
    let mut i: usize = 0;
    while i < items.len()
        invariant
            ids@ == id@,
            i <= items@.len(),
            forall|k: int| 0 <= k < i ==> (#[trigger] items@[k]).item.id@ != id@,
        decreases items.len() - i,
    {
        if items[i].item.id == ids {
            return Some(i);
        }
        i += 1;
    }
    None
}

/// The ids of the entries, in order.
pub fn id_list(items: &Vec<FindingEntry>) -> (r: Vec<String>)
    ensures
        crate::text::views(r@) == id_views(items@),
        r@.len() == items@.len(),
{
    let mut r: Vec<String> = Vec::new();
    let mut i: usize = 0;
    while i < items.len()
        invariant
            i <= items@.len(),
            crate::text::views(r@) == id_views(items@.take(i as int)),
        decreases items.len() - i,
    {
        let ghost before = crate::text::views(r@);
        let x = crate::text::owned(items[i].item.id.as_str());
        r.push(x);
        assert(crate::text::views(r@) =~= before.push(x@));
        assert(id_views(items@.take(i + 1)) =~= id_views(items@.take(i as int)).push(items@[i as int].item.id@));
        i += 1;
    }
    assert(items@.take(items@.len() as int) =~= items@);
    r
}

} // verus!
