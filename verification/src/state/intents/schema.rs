//! The typed intents.yaml: the plan's intents, the goals its work serves.

use vstd::prelude::*;

use crate::plan_kg::{clone_item, clone_opt, item_same, Item, IntentStatus};

verus! {

/// The schema version `intents.yaml` is written with.
pub const INTENTS_SCHEMA_VERSION: u32 = 1;

/// One entry: a typed item.
#[derive(Debug)]
pub struct IntentEntry {
    pub item: Item<IntentStatus>,
}

/// The whole file.
#[derive(Debug)]
pub struct IntentsFile {
    pub schema_version: u32,
    pub items: Vec<IntentEntry>,
}

impl Default for IntentsFile {
    fn default() -> (r: Self)
        ensures
            r.schema_version == INTENTS_SCHEMA_VERSION,
            r.items@.len() == 0,
    {
        IntentsFile { schema_version: INTENTS_SCHEMA_VERSION, items: Vec::new() }
    }
}

/// The two entries hold the same content.
pub open spec fn entry_same(a: IntentEntry, b: IntentEntry) -> bool {
    &&& item_same(a.item, b.item)
}

/// The two lists hold the same entries, position by position.
pub open spec fn entries_same(a: Seq<IntentEntry>, b: Seq<IntentEntry>) -> bool {
    a.len() == b.len() && forall|i: int| 0 <= i < a.len() ==> entry_same(#[trigger] a[i], b[i])
}

impl IntentEntry {
    /// A copy of this entry.
    pub fn duplicate(&self) -> (r: IntentEntry)
        ensures
            entry_same(r, *self),
    {
        IntentEntry {
            item: clone_item(&self.item),
        }
    }
}

/// Some entry has id `id`.
pub open spec fn has_id(items: Seq<IntentEntry>, id: Seq<char>) -> bool {
    exists|k: int| 0 <= k < items.len() && (#[trigger] items[k]).item.id@ == id
}

/// `i` is the first index whose entry has id `id`.
pub open spec fn is_first_with_id(items: Seq<IntentEntry>, id: Seq<char>, i: int) -> bool {
    &&& 0 <= i < items.len()
    &&& items[i].item.id@ == id
    &&& forall|k: int| 0 <= k < i ==> (#[trigger] items[k]).item.id@ != id
}

/// The ids of the entries, by view.
pub open spec fn id_views(items: Seq<IntentEntry>) -> Seq<Seq<char>> {
    items.map_values(|e: IntentEntry| e.item.id@)
}

/// Index of the first entry with id `id`.
pub fn find_index(items: &Vec<IntentEntry>, id: &str) -> (r: Option<usize>)
    ensures
        match r {
            Some(i) => is_first_with_id(items@, id@, i as int),
            None => !has_id(items@, id@),
        },
{
    let ids = id.to_owned();
    let mut i: usize = 0;
    while i < items.len()
        invariant
            ids@ == id@,
            i <= items@.len(),
            forall|k: int| 0 <= k < i ==> (#[trigger] items@[k]).item.id@ != id@,
        decreases items.len() - i,
    {
        if items[i].item.id == ids {
            return Some(i);
        }
        i += 1;
    }
    None
}

/// The ids of the entries, in order.
pub fn id_list(items: &Vec<IntentEntry>) -> (r: Vec<String>)
    ensures
        crate::text::views(r@) == id_views(items@),
        r@.len() == items@.len(),
{
    let mut r: Vec<String> = Vec::new();
    let mut i: usize = 0;
    while i < items.len()
        invariant
            i <= items@.len(),
            crate::text::views(r@) == id_views(items@.take(i as int)),
        decreases items.len() - i,
    {
        let ghost before = crate::text::views(r@);
        let x = crate::text::owned(items[i].item.id.as_str());
        r.push(x);
        assert(crate::text::views(r@) =~= before.push(x@));
        assert(id_views(items@.take(i + 1)) =~= id_views(items@.take(i as int)).push(items@[i as int].item.id@));
        i += 1;
    }
    assert(items@.take(items@.len() as int) =~= items@);
    r
}

} // verus!
