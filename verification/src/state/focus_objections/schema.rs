//! The three kinds of objection and the whole file.

use vstd::prelude::*;

use crate::component_ref::{ref_view, ComponentRef};

verus! {

/// The schema version `focus-objections.yaml` is written with.
pub const FOCUS_OBJECTIONS_SCHEMA_VERSION: u32 = 1;

/// One objection to the cycle's focus.
#[derive(Debug)]
pub enum Objection {
    /// The work belongs in another component.
    WrongTarget { suggested_target: ComponentRef, reasoning: String },
    /// A focused backlog item should be skipped.
    SkipItem { item_id: String, reasoning: String },
    /// The focus comes too early.
    Premature { reasoning: String },
}

/// An objection's content.
pub enum ObjectionView {
    WrongTarget { suggested_target: (Seq<char>, Seq<char>), reasoning: Seq<char> },
    SkipItem { item_id: Seq<char>, reasoning: Seq<char> },
    Premature { reasoning: Seq<char> },
}

/// An objection's content.
pub open spec fn objection_view(o: Objection) -> ObjectionView {
    match o {
        Objection::WrongTarget { suggested_target, reasoning } => ObjectionView::WrongTarget {
            suggested_target: ref_view(suggested_target),
            reasoning: reasoning@,
        },
        Objection::SkipItem { item_id, reasoning } => ObjectionView::SkipItem { item_id: item_id@, reasoning: reasoning@ },
        Objection::Premature { reasoning } => ObjectionView::Premature { reasoning: reasoning@ },
    }
}

impl Objection {
    /// The objection's kind word.
    pub fn kind_str(&self) -> (r: &'static str)
        ensures
            r@ == (match *self {
                Objection::WrongTarget { .. } => "wrong-target"@,
                Objection::SkipItem { .. } => "skip-item"@,
                Objection::Premature { .. } => "premature"@,
            }),
    {
        match self {
            Objection::WrongTarget { .. } => "wrong-target",
            Objection::SkipItem { .. } => "skip-item",
            Objection::Premature { .. } => "premature",
        }
    }
}

/// The whole file.
#[derive(Debug)]
pub struct FocusObjectionsFile {
    pub schema_version: u32,
    pub objections: Vec<Objection>,
}

impl Default for FocusObjectionsFile {
    fn default() -> (r: Self)
        ensures
            r.schema_version == FOCUS_OBJECTIONS_SCHEMA_VERSION,
            r.objections@.len() == 0,
    {
        FocusObjectionsFile { schema_version: FOCUS_OBJECTIONS_SCHEMA_VERSION, objections: Vec::new() }
    }
}

} // verus!
