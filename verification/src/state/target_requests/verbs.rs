//! The `target-requests` verbs over an in-memory file.

use vstd::prelude::*;

use crate::component_ref::{parsed_ref, ref_view, ComponentRef};
use crate::error::{ErrorCode, PlanError};
use crate::text::{concat3, owned, str_eq};

use super::schema::{request_view, request_views, TargetRequest, TargetRequestsFile, TARGET_REQUESTS_SCHEMA_VERSION};

verus! {

/// The formats the verbs emit.
#[derive(Debug, Clone, Copy, PartialEq, Eq, Structural)]
pub enum OutputFormat {
    Yaml,
    Json,
}

impl OutputFormat {
    /// `yaml` or `json`.
    pub fn parse(input: &str) -> (r: Option<OutputFormat>)
        ensures
            r == (if input@ == "yaml"@ {
                Some(OutputFormat::Yaml)
            } else if input@ == "json"@ {
                Some(OutputFormat::Json)
            } else {
                None
            }),
    {
        if str_eq(input, "yaml") {
            Some(OutputFormat::Yaml)
        } else if str_eq(input, "json") {
            Some(OutputFormat::Json)
        } else {
            None
        }
    }
}

/// Some request names the component `c`.
pub open spec fn has_request(rs: Seq<TargetRequest>, c: (Seq<char>, Seq<char>)) -> bool {
    exists|k: int| 0 <= k < rs.len() && ref_view((#[trigger] rs[k]).component) == c
}

/// `i` is the first request naming `c`.
pub open spec fn is_first_request(rs: Seq<TargetRequest>, c: (Seq<char>, Seq<char>), i: int) -> bool {
    &&& 0 <= i < rs.len()
    &&& ref_view(rs[i].component) == c
    &&& forall|k: int| 0 <= k < i ==> ref_view((#[trigger] rs[k]).component) != c
}

/// The first request for `reference`.
pub fn find_request<'a>(file: &'a TargetRequestsFile, reference: &ComponentRef) -> (r: Result<&'a TargetRequest, PlanError>)
    ensures
        match r {
            Ok(q) => exists|i: int| is_first_request(file.requests@, ref_view(*reference), i) && *q == file.requests@[i],
            Err(e) => !has_request(file.requests@, ref_view(*reference)) && e.code == ErrorCode::NotFound,
        },
{
    let mut i: usize = 0;
    while i < file.requests.len()
        invariant
            i <= file.requests@.len(),
            forall|k: int| 0 <= k < i ==> ref_view((#[trigger] file.requests@[k]).component) != ref_view(*reference),
        decreases file.requests.len() - i,
    {
        if file.requests[i].component.same(reference) {
            return Ok(&file.requests[i]);
        }
        i += 1;
    }
    let t = reference.to_text();
    Err(PlanError { code: ErrorCode::NotFound, message: concat3("no request for ", t.as_str(), "") })
}

fn copy_requests(rs: &Vec<TargetRequest>) -> (r: Vec<TargetRequest>)
    ensures
        request_views(r@) == request_views(rs@),
{
    let mut r: Vec<TargetRequest> = Vec::new();
    let mut i: usize = 0;
    while i < rs.len()
        invariant
            i <= rs@.len(),
            request_views(r@) == request_views(rs@.take(i as int)),
        decreases rs.len() - i,
    {
        let ghost before = request_views(r@);
        let q = rs[i].duplicate();
        r.push(q);
        assert(request_views(r@) =~= before.push(request_view(q)));
        assert(request_views(rs@.take(i + 1)) =~= request_views(rs@.take(i as int)).push(request_view(rs@[i as int])));
        i += 1;
    }
    assert(rs@.take(rs@.len() as int) =~= rs@);
    r
}

/// The document `list` emits: the whole file.
pub fn run_list(file: &TargetRequestsFile) -> (r: TargetRequestsFile)
    ensures
        r.schema_version == file.schema_version,
        request_views(r.requests@) == request_views(file.requests@),
{
    TargetRequestsFile { schema_version: file.schema_version, requests: copy_requests(&file.requests) }
}

/// The one-request file `show` emits for a `<repo>:<component>` reference.
pub fn run_show(file: &TargetRequestsFile, reference: &str) -> (r: Result<TargetRequestsFile, PlanError>)
    ensures
        parsed_ref(reference@) is None ==> (r matches Err(e) && e.code == ErrorCode::InvalidInput),
        parsed_ref(reference@) matches Some(c) ==> match r {
            Ok(f) => f.schema_version == TARGET_REQUESTS_SCHEMA_VERSION && f.requests@.len() == 1
                && exists|i: int| is_first_request(file.requests@, c, i) && request_view(f.requests@[0])
                == request_view(file.requests@[i]),
            Err(e) => !has_request(file.requests@, c) && e.code == ErrorCode::NotFound,
        },
{
    let c = ComponentRef::parse(reference)?;
    let q = find_request(file, &c)?;
    Ok(TargetRequestsFile { schema_version: TARGET_REQUESTS_SCHEMA_VERSION, requests: vec![q.duplicate()] })
}

/// Queue a request. The reference must parse, the reason be non-empty,
/// and the component not be queued already.
pub fn run_add(file: &mut TargetRequestsFile, reference: &str, reason: &str) -> (r: Result<(), PlanError>)
    ensures
        r is Ok <==> (parsed_ref(reference@) matches Some(c) && reason@.len() > 0 && !has_request(old(file).requests@, c)),
        r is Err ==> *final(file) == *old(file),
        parsed_ref(reference@) is Some && reason@.len() == 0 ==> (r matches Err(e) && e.code
            == ErrorCode::InvalidInput && e.message@ == "--reason must be non-empty"@),
        parsed_ref(reference@) matches Some(c) ==> reason@.len() > 0 && has_request(old(file).requests@, c)
            ==> (r matches Err(e) && e.code == ErrorCode::Conflict && e.message@ == "request for "@ + c.0
            + seq![':'] + c.1 + " already queued"@),
        r is Ok ==> final(file).schema_version == old(file).schema_version
            && final(file).requests@.drop_last() == old(file).requests@
            && final(file).requests@.len() == old(file).requests@.len() + 1
            && request_view(final(file).requests@.last()) == (parsed_ref(reference@)->0, reason@),
{
    let c = ComponentRef::parse(reference)?;
    if crate::text::char_count(reason) == 0 {
        return Err(PlanError { code: ErrorCode::InvalidInput, message: "--reason must be non-empty".to_owned() });
    }
    if find_request(file, &c).is_ok() {
        let t = c.to_text();
        return Err(PlanError { code: ErrorCode::Conflict, message: concat3("request for ", t.as_str(), " already queued") });
    }
    let ghost pre = file.requests@;
    file.requests.push(TargetRequest { component: c, reason: owned(reason) });
    assert(file.requests@.drop_last() =~= pre);
    Ok(())
}

/// The requests that do not name `c`.
pub open spec fn without_request(rs: Seq<TargetRequest>, c: (Seq<char>, Seq<char>)) -> Seq<TargetRequest>
    decreases rs.len(),
{
    if rs.len() == 0 {
        seq![]
    } else {
        without_request(rs.drop_last(), c) + if ref_view(rs.last().component) == c {
            seq![]
        } else {
            seq![rs.last()]
        }
    }
}

/// Drop every request for a reference; refused when there is none.
pub fn run_remove(file: &mut TargetRequestsFile, reference: &str) -> (r: Result<(), PlanError>)
    ensures
        parsed_ref(reference@) is None ==> (r matches Err(e) && e.code == ErrorCode::InvalidInput),
        r is Err ==> *final(file) == *old(file),
        parsed_ref(reference@) matches Some(c) ==> {
            &&& r is Ok <==> has_request(old(file).requests@, c)
            &&& r matches Err(e) ==> e.code == ErrorCode::NotFound && e.message@ == "no request for "@ + c.0
                + seq![':'] + c.1 + " to remove"@
            &&& r is Ok ==> final(file).schema_version == old(file).schema_version
                && request_views(final(file).requests@) == request_views(without_request(old(file).requests@, c))
        },
{
    let c = ComponentRef::parse(reference)?;
    if find_request(file, &c).is_err() {
        let t = c.to_text();
        return Err(PlanError { code: ErrorCode::NotFound, message: concat3("no request for ", t.as_str(), " to remove") });
    }
    let ghost olds = file.requests@;
    let ghost cv = ref_view(c);
    let mut kept: Vec<TargetRequest> = Vec::new();
    let mut i: usize = 0;
    while i < file.requests.len()
        invariant
            olds == file.requests@,
            cv == ref_view(c),
            i <= olds.len(),
            request_views(kept@) == request_views(without_request(olds.take(i as int), cv)),
        decreases olds.len() - i,
    {
        assert(olds.take(i + 1).drop_last() =~= olds.take(i as int));
        let ghost before = request_views(kept@);
        if file.requests[i].component.same(&c) {
            assert(without_request(olds.take(i + 1), cv) =~= without_request(olds.take(i as int), cv));
        } else {
            let q = file.requests[i].duplicate();
            kept.push(q);
            assert(request_views(kept@) =~= before.push(request_view(q)));
            assert(without_request(olds.take(i + 1), cv) =~= without_request(olds.take(i as int), cv).push(olds[i as int]));
            assert(request_views(without_request(olds.take(i + 1), cv)) =~= request_views(without_request(olds.take(i as int), cv)).push(request_view(olds[i as int])));
        }
        i += 1;
    }
    assert(olds.take(olds.len() as int) =~= olds);
    file.requests = kept;
    Ok(())
}

} // verus!
