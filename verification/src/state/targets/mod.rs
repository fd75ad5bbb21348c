//! The typed `targets.yaml` surface: the plan's mounted worktrees, their
//! verbs, and the decisions of mounting.

pub mod closure;
pub mod mount;
pub mod mount_with_closure;
pub mod schema;
pub mod verbs;
pub mod yaml_io;

pub use schema::{Target, TargetsFile, TARGETS_SCHEMA_VERSION};
pub use verbs::{run_add, run_list, run_remove, run_show, AddRequest};
pub use yaml_io::{mounted_worktree_add_dirs, resolve_target_worktree, targets_path};
