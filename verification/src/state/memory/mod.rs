//! The typed `memory.yaml` surface and its verbs.

pub mod check_anchors;
pub mod parse_md;
pub mod schema;
pub mod verbs;
pub mod yaml_io;

pub use schema::{MemoryEntry, MemoryFile, MEMORY_SCHEMA_VERSION};
pub use verbs::{run_add, run_list, run_set_status, run_show, AddRequest, OutputFormat};
pub use yaml_io::memory_path;
