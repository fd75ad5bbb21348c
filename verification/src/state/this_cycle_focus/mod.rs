//! The typed `this-cycle-focus.yaml`: the component and backlog items the
//! current cycle concentrates on.

pub mod schema;
pub mod verbs;
pub mod yaml_io;

pub use schema::{ThisCycleFocus, THIS_CYCLE_FOCUS_SCHEMA_VERSION};
pub use verbs::{run_clear, run_set, run_show};
pub use yaml_io::this_cycle_focus_path;
