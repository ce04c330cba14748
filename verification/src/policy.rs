//! The access policy: which permission a protected resource asks for, and the
//! one check that stands before every protected operation.

use vstd::prelude::*;
use crate::error::SessionError;
use crate::graph::AuthorizationGraph;
use crate::session::{check_of, SessionManager};
use crate::text::join;

verus! {

/// What a caller wants to do with a resource.
#[derive(Clone, Copy, Debug, PartialEq, Eq, Structural)]
pub enum Operation {
    Read,
    Write,
    Delete,
}

/// A protected resource: the slug of its schema, and whether the schema is
/// public.
#[derive(Debug)]
pub struct Resource {
    pub slug: String,
    pub is_public: bool,
}

/// The ending of a permission name for each operation.
pub open spec fn operation_suffix(operation: Operation) -> Seq<char> {
    match operation {
        Operation::Read => "::read"@,
        Operation::Write => "::write"@,
        Operation::Delete => "::delete"@,
    }
}

/// The scope of a permission name: `content` for every public resource, the
/// schema's own slug otherwise.
pub open spec fn permission_scope(slug: Seq<char>, is_public: bool) -> Seq<char> {
    if is_public {
        "content"@
    } else {
        slug
    }
}

/// The name of the permission that an operation on a resource asks for: the
/// scope followed by the ending of the operation.
pub open spec fn required_permission_name(
    slug: Seq<char>,
    is_public: bool,
    operation: Operation,
) -> Seq<char> {
    permission_scope(slug, is_public) + operation_suffix(operation)
}

/// Derives permission names and decides on access.
pub struct AccessPolicy;

impl AccessPolicy {
    /// The name of the permission that `operation` on `resource` asks for.
    pub fn required_permission(resource: &Resource, operation: Operation) -> (name: String)
        ensures
            name@ == required_permission_name(resource.slug@, resource.is_public, operation),
    {
        let suffix: &str = match operation {
            Operation::Read => "::read",
            Operation::Write => "::write",
            Operation::Delete => "::delete",
        };
        if resource.is_public {
            join("content", suffix)
        } else {
            join(resource.slug.as_str(), suffix)
        }
    }

    /// Decides whether the session of `token` may do `operation` on
    /// `resource` at time `now`. A session that does not resolve gives its own
    /// error; one that resolves and lacks the permission gives
    /// `AccessForbidden`. Nothing but the session's snapshot may change.
    pub fn authorize(
        sessions: &mut SessionManager,
        graph: &AuthorizationGraph,
        token: &str,
        resource: &Resource,
        operation: Operation,
        now: u64,
    ) -> (r: Result<(), SessionError>)
        requires
            old(sessions).wf(),
            graph.wf(),
        ensures
            final(sessions).wf(),
            final(sessions)@ == old(sessions)@.after_resolve(graph@, token@, now),
            r == check_of(
                old(sessions)@.outcome(graph@, token@, now),
                required_permission_name(resource.slug@, resource.is_public, operation),
            ),
    {
        let name = Self::required_permission(resource, operation);
        sessions.permission(graph, token, name.as_str(), now)
    }
}

} // verus!
