//! The focus record.

use vstd::prelude::*;

use crate::text::owned;

verus! {

/// The schema version `this-cycle-focus.yaml` is written with.
pub const THIS_CYCLE_FOCUS_SCHEMA_VERSION: u32 = 1;

/// The cycle's focus: a component reference, the backlog items in scope,
/// and optional notes.
#[derive(Debug)]
pub struct ThisCycleFocus {
    pub schema_version: u32,
    pub target: String,
    pub backlog_items: Vec<String>,
    pub notes: Option<String>,
}

impl ThisCycleFocus {
    /// A focus on `target` with no items and no notes.
    pub fn new(target: &str) -> (r: ThisCycleFocus)
        ensures
            r.schema_version == THIS_CYCLE_FOCUS_SCHEMA_VERSION,
            r.target@ == target@,
            r.backlog_items@.len() == 0,
            r.notes is None,
    {
        ThisCycleFocus {
            schema_version: THIS_CYCLE_FOCUS_SCHEMA_VERSION,
            target: owned(target),
            backlog_items: Vec::new(),
            notes: None,
        }
    }
}

} // verus!
