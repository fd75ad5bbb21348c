//! The backlog: schema, verbs, renderer, repair and lint passes, and the
//! legacy markdown parser.

pub mod schema;
pub mod lint_dependencies;
pub mod parse_md;
pub mod render;
pub mod repair_stale_statuses;
pub mod verbs;
pub mod yaml_io;
