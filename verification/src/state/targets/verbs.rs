//! The `targets` verbs over an in-memory `TargetsFile`.

use vstd::prelude::*;

use crate::component_ref::{parsed_ref, ComponentRef, ref_view};
use crate::error::{quoted_message, ErrorCode, PlanError};
use crate::plan_kg::clone_strings;
use crate::state::OutputFormat;
use crate::text::{concat3, owned, str_eq, views};

use super::schema::{target_view, target_views, Target, TargetsFile, TARGETS_SCHEMA_VERSION};

verus! {

broadcast use vstd::string::group_string_axioms;

/// `i` is the first target mounting `repo`'s component `comp`.
pub open spec fn is_first_target(ts: Seq<Target>, repo: Seq<char>, comp: Seq<char>, i: int) -> bool {
    &&& 0 <= i < ts.len()
    &&& ts[i].repo_slug@ == repo && ts[i].component_id@ == comp
    &&& forall|k: int| 0 <= k < i ==> !((#[trigger] ts[k]).repo_slug@ == repo && ts[k].component_id@ == comp)
}

/// Some target mounts `repo`'s component `comp`.
pub open spec fn has_target(ts: Seq<Target>, repo: Seq<char>, comp: Seq<char>) -> bool {
    exists|k: int| 0 <= k < ts.len() && (#[trigger] ts[k]).repo_slug@ == repo && ts[k].component_id@ == comp
}

fn find_target_index(ts: &Vec<Target>, repo_slug: &str, component_id: &str) -> (r: Option<usize>)
    ensures
        match r {
            Some(i) => is_first_target(ts@, repo_slug@, component_id@, i as int),
            None => !has_target(ts@, repo_slug@, component_id@),
        },
{
    let mut i: usize = 0;
    while i < ts.len()
        invariant
            i <= ts@.len(),
            forall|k: int| 0 <= k < i ==> !((#[trigger] ts@[k]).repo_slug@ == repo_slug@ && ts@[k].component_id@ == component_id@),
        decreases ts.len() - i,
    {
        if str_eq(ts[i].repo_slug.as_str(), repo_slug) && str_eq(ts[i].component_id.as_str(), component_id) {
            return Some(i);
        }
        i += 1;
    }
    None
}

/// The first target mounting `repo_slug`'s component `component_id`.
pub fn find_target<'a>(targets: &'a TargetsFile, repo_slug: &str, component_id: &str) -> (r: Result<&'a Target, PlanError>)
    ensures
        match r {
            Ok(t) => exists|i: int| is_first_target(targets.targets@, repo_slug@, component_id@, i) && *t == targets.targets@[i],
            Err(e) => !has_target(targets.targets@, repo_slug@, component_id@) && e.code == ErrorCode::NotFound
                && e.message@ == "no target "@ + repo_slug@ + ":"@ + component_id@,
        },
{
    match find_target_index(&targets.targets, repo_slug, component_id) {
        Some(i) => Ok(&targets.targets[i]),
        None => {
            let head = concat3("no target ", repo_slug, ":");
            Err(PlanError { code: ErrorCode::NotFound, message: crate::text::concat2(head.as_str(), component_id) })
        },
    }
}

/// The refusal of a reference that does not split into two non-empty
/// parts.
pub open spec fn bad_reference_message(reference: Seq<char>) -> Seq<char> {
    "target reference "@ + crate::text::debug_quoted(reference)
        + " must be `<repo_slug>:<component_id>` with both parts non-empty"@
}

/// Split `<repo_slug>:<component_id>` at its first `:`; both parts must be
/// non-empty.
pub fn parse_reference(reference: &str) -> (r: Result<(String, String), PlanError>)
    ensures
        match parsed_ref(reference@) {
            Some(p) => r matches Ok(v) && (v.0@, v.1@) == p,
            None => r matches Err(e) && e.code == ErrorCode::InvalidInput && e.message@ == bad_reference_message(
                reference@,
            ),
        },
{
    match ComponentRef::parse(reference) {
        Ok(c) => Ok((c.repo_slug, c.component_id)),
        Err(_) => Err(
            PlanError {
                code: ErrorCode::InvalidInput,
                message: quoted_message(
                    "target reference ",
                    reference,
                    " must be `<repo_slug>:<component_id>` with both parts non-empty",
                ),
            },
        ),
    }
}

fn copy_targets(ts: &Vec<Target>) -> (r: Vec<Target>)
    ensures
        target_views(r@) == target_views(ts@),
{
    let mut r: Vec<Target> = Vec::new();
    let mut i: usize = 0;
    while i < ts.len()
        invariant
            i <= ts@.len(),
            target_views(r@) == target_views(ts@.take(i as int)),
        decreases ts.len() - i,
    {
        let ghost before = target_views(r@);
        let t = ts[i].duplicate();
        r.push(t);
        assert(target_views(r@) =~= before.push(target_view(t)));
        assert(target_views(ts@.take(i + 1)) =~= target_views(ts@.take(i as int)).push(target_view(ts@[i as int])));
        i += 1;
    }
    assert(ts@.take(ts@.len() as int) =~= ts@);
    r
}

fn markdown_refused() -> (e: PlanError)
    ensures
        e.code == ErrorCode::InvalidInput,
{
    PlanError {
        code: ErrorCode::InvalidInput,
        message: "`state targets` does not support --format markdown; use yaml or json".to_owned(),
    }
}

/// The document `list` emits: the whole file. Markdown is refused.
pub fn run_list(targets: &TargetsFile, format: OutputFormat) -> (r: Result<TargetsFile, PlanError>)
    ensures
        format == OutputFormat::Markdown <==> r is Err,
        r matches Err(e) ==> e.code == ErrorCode::InvalidInput,
        r matches Ok(f) ==> f.schema_version == targets.schema_version && target_views(f.targets@)
            == target_views(targets.targets@),
{
    if format == OutputFormat::Markdown {
        return Err(markdown_refused());
    }
    Ok(TargetsFile { schema_version: targets.schema_version, targets: copy_targets(&targets.targets) })
}

/// The one-target file `show` emits for a `<repo>:<component>` reference.
pub fn run_show(targets: &TargetsFile, reference: &str, format: OutputFormat) -> (r: Result<TargetsFile, PlanError>)
    ensures
        parsed_ref(reference@) is None ==> (r matches Err(e) && e.code == ErrorCode::InvalidInput && e.message@
            == bad_reference_message(reference@)),
        parsed_ref(reference@) matches Some(p) ==> {
            &&& !has_target(targets.targets@, p.0, p.1) ==> (r matches Err(e) && e.code == ErrorCode::NotFound
                && e.message@ == "no target "@ + p.0 + ":"@ + p.1)
            &&& has_target(targets.targets@, p.0, p.1) && format == OutputFormat::Markdown ==> (r matches Err(e) && e.code == ErrorCode::InvalidInput)
            &&& has_target(targets.targets@, p.0, p.1) && format != OutputFormat::Markdown ==> (r matches Ok(f)
                && f.schema_version == TARGETS_SCHEMA_VERSION && f.targets@.len() == 1 && exists|i: int|
                is_first_target(targets.targets@, p.0, p.1, i) && target_view(f.targets@[0]) == target_view(targets.targets@[i]))
        },
{
    let (repo, comp) = parse_reference(reference)?;
    let t = find_target(targets, repo.as_str(), comp.as_str())?;
    if format == OutputFormat::Markdown {
        return Err(markdown_refused());
    }
    Ok(TargetsFile { schema_version: TARGETS_SCHEMA_VERSION, targets: vec![t.duplicate()] })
}

/// A request to record one mount.
#[derive(Debug)]
pub struct AddRequest {
    pub repo_slug: String,
    pub component_id: String,
    pub working_root: String,
    pub branch: String,
    pub path_segments: Vec<String>,
}

/// Record a mount. Every field but the path segments must be non-empty,
/// and a component can be recorded once.
pub fn run_add(targets: &mut TargetsFile, req: &AddRequest) -> (r: Result<(), PlanError>)
    ensures
        r is Ok <==> req.repo_slug@.len() > 0 && req.component_id@.len() > 0 && req.working_root@.len() > 0
            && req.branch@.len() > 0 && !has_target(old(targets).targets@, req.repo_slug@, req.component_id@),
        r matches Err(e) ==> *final(targets) == *old(targets) && (e.code == ErrorCode::InvalidInput
            || e.code == ErrorCode::Conflict),
        req.repo_slug@.len() == 0 ==> (r matches Err(e) && e.message@ == "--repo must be non-empty"@),
        req.repo_slug@.len() > 0 && req.component_id@.len() == 0 ==> (r matches Err(e) && e.message@
            == "--component must be non-empty"@),
        req.repo_slug@.len() > 0 && req.component_id@.len() > 0 && req.working_root@.len() == 0 ==> (r matches Err(
            e,
        ) && e.message@ == "--working-root must be non-empty"@),
        req.repo_slug@.len() > 0 && req.component_id@.len() > 0 && req.working_root@.len() > 0
            && req.branch@.len() == 0 ==> (r matches Err(e) && e.message@ == "--branch must be non-empty"@),
        req.repo_slug@.len() > 0 && req.component_id@.len() > 0 && req.working_root@.len() > 0
            && req.branch@.len() > 0 && has_target(old(targets).targets@, req.repo_slug@, req.component_id@)
            ==> (r matches Err(e) && e.code == ErrorCode::Conflict && e.message@ == "target "@ + req.repo_slug@
            + ":"@ + req.component_id@ + " already mounted"@),
        r is Ok ==> final(targets).schema_version == old(targets).schema_version
            && final(targets).targets@.drop_last() == old(targets).targets@
            && final(targets).targets@.len() == old(targets).targets@.len() + 1
            && target_view(final(targets).targets@.last()) == (req.repo_slug@, req.component_id@,
            req.working_root@, req.branch@, views(req.path_segments@)),
{
    if crate::text::char_count(req.repo_slug.as_str()) == 0 {
        return Err(PlanError { code: ErrorCode::InvalidInput, message: "--repo must be non-empty".to_owned() });
    }
    if crate::text::char_count(req.component_id.as_str()) == 0 {
        return Err(PlanError { code: ErrorCode::InvalidInput, message: "--component must be non-empty".to_owned() });
    }
    if crate::text::char_count(req.working_root.as_str()) == 0 {
        return Err(PlanError { code: ErrorCode::InvalidInput, message: "--working-root must be non-empty".to_owned() });
    }
    if crate::text::char_count(req.branch.as_str()) == 0 {
        return Err(PlanError { code: ErrorCode::InvalidInput, message: "--branch must be non-empty".to_owned() });
    }
    if find_target_index(&targets.targets, req.repo_slug.as_str(), req.component_id.as_str()).is_some() {
        let head = concat3("target ", req.repo_slug.as_str(), ":");
        return Err(PlanError { code: ErrorCode::Conflict, message: concat3(head.as_str(), req.component_id.as_str(), " already mounted") });
    }
    let t = Target {
        repo_slug: owned(req.repo_slug.as_str()),
        component_id: owned(req.component_id.as_str()),
        working_root: owned(req.working_root.as_str()),
        branch: owned(req.branch.as_str()),
        path_segments: clone_strings(&req.path_segments),
    };
    let ghost pre = targets.targets@;
    targets.targets.push(t);
    assert(targets.targets@.drop_last() =~= pre);
    Ok(())
}

/// The targets that do not mount `repo`'s component `comp`.
pub open spec fn without_target(ts: Seq<Target>, repo: Seq<char>, comp: Seq<char>) -> Seq<Target>
    decreases ts.len(),
{
    if ts.len() == 0 {
        seq![]
    } else {
        without_target(ts.drop_last(), repo, comp) + if ts.last().repo_slug@ == repo
            && ts.last().component_id@ == comp {
            seq![]
        } else {
            seq![ts.last()]
        }
    }
}

/// Forget every mount of a `<repo>:<component>` reference; refused when
/// there is none.
pub fn run_remove(targets: &mut TargetsFile, reference: &str) -> (r: Result<(), PlanError>)
    ensures
        parsed_ref(reference@) is None ==> (r matches Err(e) && e.code == ErrorCode::InvalidInput && e.message@
            == bad_reference_message(reference@)),
        r is Err ==> *final(targets) == *old(targets),
        parsed_ref(reference@) matches Some(p) ==> {
            &&& r is Ok <==> has_target(old(targets).targets@, p.0, p.1)
            &&& r matches Err(e) ==> e.code == ErrorCode::NotFound && e.message@ == "no target "@ + p.0 + ":"@
                + p.1 + " to remove"@
            &&& r is Ok ==> final(targets).schema_version == old(targets).schema_version
                && target_views(final(targets).targets@) == target_views(without_target(old(targets).targets@, p.0, p.1))
        },
{
    let (repo, comp) = parse_reference(reference)?;
    if find_target_index(&targets.targets, repo.as_str(), comp.as_str()).is_none() {
        let head = concat3("no target ", repo.as_str(), ":");
        return Err(PlanError { code: ErrorCode::NotFound, message: concat3(head.as_str(), comp.as_str(), " to remove") });
    }
    let ghost olds = targets.targets@;
    let mut kept: Vec<Target> = Vec::new();
    let mut i: usize = 0;
    while i < targets.targets.len()
        invariant
            olds == targets.targets@,
            i <= olds.len(),
            target_views(kept@) == target_views(without_target(olds.take(i as int), repo@, comp@)),
        decreases olds.len() - i,
    {
        assert(olds.take(i + 1).drop_last() =~= olds.take(i as int));
        let ghost before = target_views(kept@);
        if str_eq(targets.targets[i].repo_slug.as_str(), repo.as_str()) && str_eq(targets.targets[i].component_id.as_str(), comp.as_str()) {
            assert(without_target(olds.take(i + 1), repo@, comp@) =~= without_target(olds.take(i as int), repo@, comp@));
        } else {
            let t = targets.targets[i].duplicate();
            kept.push(t);
            assert(target_views(kept@) =~= before.push(target_view(t)));
            assert(without_target(olds.take(i + 1), repo@, comp@) =~= without_target(olds.take(i as int), repo@, comp@).push(olds[i as int]));
            assert(target_views(without_target(olds.take(i + 1), repo@, comp@)) =~= target_views(without_target(olds.take(i as int), repo@, comp@)).push(target_view(olds[i as int])));
        }
        i += 1;
    }
    assert(olds.take(olds.len() as int) =~= olds);
    targets.targets = kept;
    Ok(())
}

} // verus!
