//! One mount request and the whole file.

use vstd::prelude::*;

use crate::component_ref::{ref_view, ComponentRef};
use crate::text::owned;

verus! {

/// The schema version `target-requests.yaml` is written with.
pub const TARGET_REQUESTS_SCHEMA_VERSION: u32 = 1;

/// A component to mount, and why.
#[derive(Debug)]
pub struct TargetRequest {
    pub component: ComponentRef,
    pub reason: String,
}

/// A request's content.
pub open spec fn request_view(r: TargetRequest) -> ((Seq<char>, Seq<char>), Seq<char>) {
    (ref_view(r.component), r.reason@)
}

/// The contents of a list of requests.
pub open spec fn request_views(rs: Seq<TargetRequest>) -> Seq<((Seq<char>, Seq<char>), Seq<char>)> {
    rs.map_values(|r: TargetRequest| request_view(r))
}

impl TargetRequest {
    /// A copy.
    pub fn duplicate(&self) -> (r: TargetRequest)
        ensures
            request_view(r) == request_view(*self),
    {
        TargetRequest { component: self.component.duplicate(), reason: owned(self.reason.as_str()) }
    }
}

/// The whole file.
#[derive(Debug)]
pub struct TargetRequestsFile {
    pub schema_version: u32,
    pub requests: Vec<TargetRequest>,
}

impl Default for TargetRequestsFile {
    fn default() -> (r: Self)
        ensures
            r.schema_version == TARGET_REQUESTS_SCHEMA_VERSION,
            r.requests@.len() == 0,
    {
        TargetRequestsFile { schema_version: TARGET_REQUESTS_SCHEMA_VERSION, requests: Vec::new() }
    }
}

} // verus!
