//! The typed `target-requests.yaml`: components the work asks to have
//! mounted at the next phase boundary.

pub mod schema;
pub mod verbs;
pub mod yaml_io;

pub use schema::{TargetRequest, TargetRequestsFile, TARGET_REQUESTS_SCHEMA_VERSION};
pub use verbs::{run_add, run_list, run_remove, run_show, OutputFormat};
pub use yaml_io::target_requests_path;
