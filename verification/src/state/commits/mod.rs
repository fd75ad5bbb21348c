//! The typed `commits.yaml`: the commits the analyse-work phase asks the
//! runner to make.

pub mod schema;
pub mod verbs;
pub mod yaml_io;

pub use schema::{CommitSpec, CommitsSpec, COMMITS_SCHEMA_VERSION};
pub use verbs::{run_list, run_show, OutputFormat};
pub use yaml_io::commits_path;
