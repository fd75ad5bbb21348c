//! Plan-state library: typed plan files, their mutation verbs, and the
//! renderers and parsers around them.

pub mod text;
pub mod lines;
pub mod sorted;
pub mod error;
pub mod plan_kg;
pub mod state;
pub mod dates;
pub mod paths;
pub mod component_ref;
pub mod related_components;
pub mod related_projects;
pub mod repos;
pub mod plan_inspect;
pub mod phase_summary;
pub mod phase_loop;
pub mod pivot;
pub mod prompt;
pub mod survey;
