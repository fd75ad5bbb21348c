//! The `this-cycle-focus` verbs.

use vstd::prelude::*;

use crate::component_ref::{parsed_ref, ComponentRef};
use crate::error::{ErrorCode, PlanError};
use crate::plan_kg::{clone_strings, opt_view};
use crate::state::OutputFormat;
use crate::text::{ensure_trailing_newline, views, with_trailing_newline};

use super::schema::{ThisCycleFocus, THIS_CYCLE_FOCUS_SCHEMA_VERSION};

verus! {

/// `show` needs a focus to be set; markdown is refused.
pub fn run_show(focus_set: bool, format: OutputFormat) -> (r: Result<(), PlanError>)
    ensures
        r is Ok <==> focus_set && format != OutputFormat::Markdown,
        !focus_set ==> (r matches Err(e) && e.code == ErrorCode::NotFound),
        focus_set && format == OutputFormat::Markdown ==> (r matches Err(e) && e.code == ErrorCode::InvalidInput),
{
    if !focus_set {
        return Err(PlanError { code: ErrorCode::NotFound, message: "no this-cycle focus is set".to_owned() });
    }
    if format == OutputFormat::Markdown {
        return Err(
            PlanError {
                code: ErrorCode::InvalidInput,
                message: "`state this-cycle-focus` does not support --format markdown; use yaml or json".to_owned(),
            },
        );
    }
    Ok(())
}

/// The focus to write: `target` must be a `<repo>:<component>` reference
/// and every item id non-empty; notes get a trailing newline.
pub fn run_set(target: &str, backlog_items: &Vec<String>, notes: Option<&str>) -> (r: Result<ThisCycleFocus, PlanError>)
    ensures
        r is Ok <==> parsed_ref(target@) is Some && forall|i: int| 0 <= i < backlog_items@.len() ==> (#[trigger] backlog_items@[i])@.len() > 0,
        r matches Err(e) ==> e.code == ErrorCode::InvalidInput,
        r matches Ok(f) ==> {
            &&& f.schema_version == THIS_CYCLE_FOCUS_SCHEMA_VERSION
            &&& f.target@ == target@
            &&& views(f.backlog_items@) == views(backlog_items@)
            &&& opt_view(f.notes) == match notes {
                Some(n) => Some(with_trailing_newline(n@)),
                None => None::<Seq<char>>,
            }
        },
{
    let parsed = ComponentRef::parse(target)?;
    let mut i: usize = 0;
    while i < backlog_items.len()
        invariant
            i <= backlog_items@.len(),
            forall|k: int| 0 <= k < i ==> (#[trigger] backlog_items@[k])@.len() > 0,
        decreases backlog_items.len() - i,
    {
        if crate::text::char_count(backlog_items[i].as_str()) == 0 {
            return Err(PlanError { code: ErrorCode::InvalidInput, message: "--item ids must be non-empty".to_owned() });
        }
        i += 1;
    }
    let t = parsed.to_text();
    proof {
        crate::component_ref::lemma_ref_text(target@);
    }
    Ok(ThisCycleFocus {
        schema_version: THIS_CYCLE_FOCUS_SCHEMA_VERSION,
        target: t,
        backlog_items: clone_strings(backlog_items),
        notes: match notes {
            Some(n) => Some(ensure_trailing_newline(n)),
            None => None,
        },
    })
}

/// Clearing leaves no focus.
pub fn run_clear(focus: &mut Option<ThisCycleFocus>)
    ensures
        *final(focus) is None,
{
    *focus = None;
}

} // verus!
