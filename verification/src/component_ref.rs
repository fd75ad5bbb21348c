//! A reference to one component of one registered repository, written
//! `<repo_slug>:<component_id>`.

use vstd::prelude::*;

use crate::error::{quoted_message, ErrorCode, PlanError};
use crate::text::{chars_of, concat3, owned, str_eq, string_from_chars};

verus! {

broadcast use vstd::string::group_string_axioms;

/// `<repo_slug>:<component_id>`.
#[derive(Debug)]
pub struct ComponentRef {
    pub repo_slug: String,
    pub component_id: String,
}

/// A reference's content.
pub open spec fn ref_view(r: ComponentRef) -> (Seq<char>, Seq<char>) {
    (r.repo_slug@, r.component_id@)
}

/// `i` is the first `:` of `s`.
pub open spec fn first_colon(s: Seq<char>, i: int) -> bool {
    0 <= i < s.len() && s[i] == ':' && forall|k: int| 0 <= k < i ==> s[k] != ':'
}

/// The parts a reference text splits into at its first `:`, when both are
/// non-empty.
pub open spec fn parsed_ref(s: Seq<char>) -> Option<(Seq<char>, Seq<char>)> {
    if exists|i: int| first_colon(s, i) {
        let i = choose|i: int| first_colon(s, i);
        if i > 0 && i + 1 < s.len() {
            Some((s.take(i), s.skip(i + 1)))
        } else {
            None
        }
    } else {
        None
    }
}

/// A reference that parses prints back as the same text.
pub proof fn lemma_ref_text(s: Seq<char>)
    requires
        parsed_ref(s) is Some,
    ensures
        match parsed_ref(s) {
            Some(p) => p.0 + seq![':'] + p.1 == s,
            None => true,
        },
{
    let i = choose|i: int| first_colon(s, i);
    assert(s.take(i) + seq![':'] + s.skip(i + 1) =~= s);
}

impl ComponentRef {
    /// The reference to `repo_slug`'s component `component_id`.
    pub fn new(repo_slug: &str, component_id: &str) -> (r: ComponentRef)
        ensures
            ref_view(r) == (repo_slug@, component_id@),
    {
        ComponentRef { repo_slug: owned(repo_slug), component_id: owned(component_id) }
    }

    /// A copy.
    pub fn duplicate(&self) -> (r: ComponentRef)
        ensures
            ref_view(r) == ref_view(*self),
    {
        ComponentRef { repo_slug: owned(self.repo_slug.as_str()), component_id: owned(self.component_id.as_str()) }
    }

    /// Parse `<repo_slug>:<component_id>` (split at the first `:`); both
    /// parts must be non-empty.
    pub fn parse(s: &str) -> (r: Result<ComponentRef, PlanError>)
        ensures
            match parsed_ref(s@) {
                Some(p) => r matches Ok(c) && ref_view(c) == p,
                None => r matches Err(e) && e.code == ErrorCode::InvalidInput,
            },
    {
        let cs = chars_of(s);
        let mut i: usize = 0;
        while i < cs.len() && cs[i] != ':'
            invariant
                cs@ == s@,
                i <= cs@.len(),
                forall|k: int| 0 <= k < i ==> cs@[k] != ':',
            decreases cs.len() - i,
        {
            i += 1;
        }
        if i == cs.len() {
            assert(!exists|j: int| first_colon(s@, j));
            return Err(
                PlanError {
                    code: ErrorCode::InvalidInput,
                    message: quoted_message(
                        "component reference ",
                        s,
                        " must be `<repo_slug>:<component_id>`",
                    ),
                },
            );
        }
        proof {
            assert(first_colon(s@, i as int));
            let c = choose|j: int| first_colon(s@, j);
            assert(c == i) by {
                if c < i {
                    assert(s@[c] != ':');
                } else if c > i {
                    assert(s@[i as int] != ':');
                }
            }
        }
        if i == 0 {
            return Err(
                PlanError {
                    code: ErrorCode::InvalidInput,
                    message: quoted_message("component reference ", s, " has an empty repo_slug"),
                },
            );
        }
        if i + 1 == cs.len() {
            return Err(
                PlanError {
                    code: ErrorCode::InvalidInput,
                    message: quoted_message("component reference ", s, " has an empty component_id"),
                },
            );
        }
        let repo = crate::text::slice_chars(cs.as_slice(), 0, i);
        let comp = crate::text::slice_chars(cs.as_slice(), i + 1, cs.len());
        assert(repo@ =~= s@.take(i as int));
        assert(comp@ =~= s@.skip(i + 1));
        Ok(ComponentRef { repo_slug: string_from_chars(repo.as_slice()), component_id: string_from_chars(comp.as_slice()) })
    }

    /// `<repo_slug>:<component_id>`.
    pub fn to_text(&self) -> (r: String)
        ensures
            r@ == self.repo_slug@ + seq![':'] + self.component_id@,
    {
        proof {
            reveal_strlit(":");
        }
        assert(":"@ =~= seq![':']);
        concat3(self.repo_slug.as_str(), ":", self.component_id.as_str())
    }

    /// Both parts are equal.
    pub fn same(&self, other: &ComponentRef) -> (r: bool)
        ensures
            r == (ref_view(*self) == ref_view(*other)),
    {
        str_eq(self.repo_slug.as_str(), other.repo_slug.as_str()) && str_eq(
            self.component_id.as_str(),
            other.component_id.as_str(),
        )
    }
}

} // verus!
