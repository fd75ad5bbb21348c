//! The typed `focus-objections.yaml`: objections the work phase raises
//! against the focus it was handed.

pub mod schema;
pub mod verbs;
pub mod yaml_io;

pub use schema::{FocusObjectionsFile, Objection, FOCUS_OBJECTIONS_SCHEMA_VERSION};
pub use verbs::{run_add_premature, run_add_skip_item, run_add_wrong_target, run_clear, run_list};
pub use yaml_io::focus_objections_path;
