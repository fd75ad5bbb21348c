//! The typed `<context>/findings.yaml` surface and its verbs: the
//! context-level inbox of findings that triage and reflect raise when
//! they observe something out of scope for the current plan.

pub mod schema;
pub mod verbs;
pub mod yaml_io;

pub use schema::{FindingEntry, FindingsFile, FINDINGS_SCHEMA_VERSION};
pub use verbs::{run_add, run_list, run_set_status, run_show, AddRequest, OutputFormat};
pub use yaml_io::findings_path;
