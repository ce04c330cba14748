//! The protected operations on roles. Each one checks the caller's permission
//! first, and touches the graph only after the check has passed.

use vstd::prelude::*;
use crate::error::{ApiError, DbError, SessionError};
use crate::graph::AuthorizationGraph;
use crate::graph_view::{lemma_update_role_wf, GraphView};
use crate::model::{RoleCreateModel, RoleModel, RoleUpdateModel};
use crate::session::{check_of, SessionManager, SessionsView};
use crate::text::ascending;

verus! {

/// What the permission check at the head of an operation answers.
pub open spec fn gate(
    s: SessionsView,
    g: GraphView,
    token: Seq<char>,
    now: u64,
    name: Seq<char>,
) -> Result<(), SessionError> {
    check_of(s.outcome(g, token, now), name)
}

/// A store error as the error of a request.
pub fn db_error(e: DbError) -> (r: ApiError)
    ensures
        r == ApiError::Db(e),
{
    ApiError::Db(e)
}

/// Graph and sessions after the role called `name` was deleted: the sessions
/// of its holders lose their snapshots, the role goes with its edges. Where
/// no role has that name, nothing changes.
pub open spec fn delete_named(state: (GraphView, SessionsView), name: Seq<char>) -> (
    GraphView,
    SessionsView,
) {
    if state.0.role_name_taken(name) {
        let id = state.0.role_id_named(name);
        (state.0.delete_role(id), state.1.invalidate_role(state.0, id))
    } else {
        state
    }
}

/// Graph and sessions after the roles called `names` were deleted one after
/// the other.
pub open spec fn delete_all_named(state: (GraphView, SessionsView), names: Seq<Seq<char>>) -> (
    GraphView,
    SessionsView,
)
    decreases names.len(),
{
    if names.len() == 0 {
        state
    } else {
        delete_named(delete_all_named(state, names.drop_last()), names.last())
    }
}

fn remove_role_named(graph: &mut AuthorizationGraph, sessions: &mut SessionManager, slug: &str)
    requires
        old(graph).wf(),
        old(sessions).wf(),
    ensures
        final(graph).wf(),
        final(sessions).wf(),
        (final(graph)@, final(sessions)@) == delete_named((old(graph)@, old(sessions)@), slug@),
{
    match graph.find_role_by_name(slug) {
        Ok(role) => {
            sessions.invalidate_role(graph, role.id);
            graph.delete_role(role.id);
        },
        Err(_) => {},
    }
}

/// All roles, for a caller who may read roles.
pub fn role_all_handler(
    graph: &AuthorizationGraph,
    sessions: &mut SessionManager,
    token: &str,
    now: u64,
) -> (r: Result<Vec<RoleModel>, ApiError>)
    requires
        graph.wf(),
        old(sessions).wf(),
    ensures
        final(sessions).wf(),
        final(sessions)@ == old(sessions)@.after_resolve(graph@, token@, now),
        match gate(old(sessions)@, graph@, token@, now, "role::read"@) {
            Err(e) => r == Err::<Vec<RoleModel>, ApiError>(ApiError::Session(e)),
            Ok(()) => r matches Ok(list) && list@.map_values(|m: RoleModel| m@) == graph@.roles,
        },
{
    match sessions.permission(graph, token, "role::read", now) {
        Err(e) => Err(ApiError::Session(e)),
        Ok(()) => Ok(graph.all_roles()),
    }
}

/// The role called `slug` and the names of its permissions, for a caller who
/// may read roles.
pub fn role_get_handler(
    graph: &AuthorizationGraph,
    sessions: &mut SessionManager,
    token: &str,
    now: u64,
    slug: &str,
) -> (r: Result<(RoleModel, Vec<String>), ApiError>)
    requires
        graph.wf(),
        old(sessions).wf(),
    ensures
        final(sessions).wf(),
        final(sessions)@ == old(sessions)@.after_resolve(graph@, token@, now),
        match gate(old(sessions)@, graph@, token@, now, "role::read"@) {
            Err(e) => r == Err::<(RoleModel, Vec<String>), ApiError>(ApiError::Session(e)),
            Ok(()) => if graph@.role_name_taken(slug@) {
                r matches Ok(found) && found.0.id == graph@.role_id_named(slug@) && found.0@
                    == graph@.roles[graph@.role_position(found.0.id)] && ascending(
                    found.1.deep_view(),
                ) && found.1.deep_view().to_set() == graph@.role_permission_names(found.0.id)
            } else {
                r == Err::<(RoleModel, Vec<String>), ApiError>(
                    ApiError::Db(DbError::EntryNotFound),
                )
            },
        },
{
    match sessions.permission(graph, token, "role::read", now) {
        Err(e) => {
            return Err(ApiError::Session(e));
        },
        Ok(()) => {},
    }
    match graph.find_role_by_name(slug) {
        Err(e) => Err(db_error(e)),
        Ok(role) => {
            let names = graph.permissions_of_role(role.id);
            Ok((role, names))
        },
    }
}

/// The names of the permissions of the role called `slug`, in ascending
/// order, for a caller who may read roles.
pub fn role_get_permissions(
    graph: &AuthorizationGraph,
    sessions: &mut SessionManager,
    token: &str,
    now: u64,
    slug: &str,
) -> (r: Result<Vec<String>, ApiError>)
    requires
        graph.wf(),
        old(sessions).wf(),
    ensures
        final(sessions).wf(),
        final(sessions)@ == old(sessions)@.after_resolve(graph@, token@, now),
        match gate(old(sessions)@, graph@, token@, now, "role::read"@) {
            Err(e) => r == Err::<Vec<String>, ApiError>(ApiError::Session(e)),
            Ok(()) => if graph@.role_name_taken(slug@) {
                r matches Ok(names) && ascending(names.deep_view()) && names.deep_view().to_set()
                    == graph@.role_permission_names(graph@.role_id_named(slug@))
            } else {
                r == Err::<Vec<String>, ApiError>(ApiError::Db(DbError::EntryNotFound))
            },
        },
{
    match sessions.permission(graph, token, "role::read", now) {
        Err(e) => {
            return Err(ApiError::Session(e));
        },
        Ok(()) => {},
    }
    match graph.find_role_by_name(slug) {
        Err(e) => Err(db_error(e)),
        Ok(role) => Ok(graph.permissions_of_role(role.id)),
    }
}

/// Replaces the permissions of the role called `slug` by those called one of
/// `list`, for a caller who may write roles. A name in `list` that no
/// permission has is passed over. The sessions of the role's holders lose
/// their snapshots. Returns the names of the role's permissions afterwards.
pub fn role_set_permissions(
    graph: &mut AuthorizationGraph,
    sessions: &mut SessionManager,
    token: &str,
    now: u64,
    slug: &str,
    list: &Vec<String>,
) -> (r: Result<Vec<String>, ApiError>)
    requires
        old(graph).wf(),
        old(sessions).wf(),
    ensures
        final(graph).wf(),
        final(sessions).wf(),
        match gate(old(sessions)@, old(graph)@, token@, now, "role::write"@) {
            Err(e) => r == Err::<Vec<String>, ApiError>(ApiError::Session(e)) && final(graph)@
                == old(graph)@ && final(sessions)@ == old(sessions)@.after_resolve(
                old(graph)@,
                token@,
                now,
            ),
            Ok(()) => if old(graph)@.role_name_taken(slug@) {
                let id = old(graph)@.role_id_named(slug@);
                &&& final(graph)@ == old(graph)@.replace_permissions(id, list.deep_view())
                &&& final(sessions)@ == old(sessions)@.after_resolve(
                    old(graph)@,
                    token@,
                    now,
                ).invalidate_role(old(graph)@, id)
                &&& r matches Ok(names) && ascending(names.deep_view())
                    && names.deep_view().to_set() == final(graph)@.role_permission_names(id)
            } else {
                r == Err::<Vec<String>, ApiError>(ApiError::Db(DbError::EntryNotFound))
                    && final(graph)@ == old(graph)@
                    && final(sessions)@ == old(sessions)@.after_resolve(
                    old(graph)@,
                    token@,
                    now,
                )
            },
        },
{
    match sessions.permission(graph, token, "role::write", now) {
        Err(e) => {
            return Err(ApiError::Session(e));
        },
        Ok(()) => {},
    }
    let role = match graph.find_role_by_name(slug) {
        Err(e) => {
            return Err(db_error(e));
        },
        Ok(role) => role,
    };
    sessions.invalidate_role(graph, role.id);
    match graph.replace_role_permissions(role.id, list) {
        Err(e) => Err(db_error(e)),
        Ok(()) => Ok(graph.permissions_of_role(role.id)),
    }
}

/// Creates the role that `payload` describes and grants it the permissions
/// called one of `permissions`, for a caller who may write roles. A name that
/// no permission has is passed over.
pub fn role_create_handler(
    graph: &mut AuthorizationGraph,
    sessions: &mut SessionManager,
    token: &str,
    now: u64,
    payload: &RoleCreateModel,
    permissions: &Option<Vec<String>>,
) -> (r: Result<RoleModel, ApiError>)
    requires
        old(graph).wf(),
        old(sessions).wf(),
    ensures
        final(graph).wf(),
        final(sessions).wf(),
        final(sessions)@ == old(sessions)@.after_resolve(old(graph)@, token@, now),
        match gate(old(sessions)@, old(graph)@, token@, now, "role::write"@) {
            Err(e) => r == Err::<RoleModel, ApiError>(ApiError::Session(e))
                && final(graph)@ == old(graph)@,
            Ok(()) => if old(graph)@.role_name_taken(payload.name@) {
                r == Err::<RoleModel, ApiError>(ApiError::Db(DbError::EntryAlreadyExists))
                    && final(graph)@ == old(graph)@
            } else if old(graph)@.next_id == u64::MAX {
                r == Err::<RoleModel, ApiError>(ApiError::Db(DbError::StorageError))
                    && final(graph)@ == old(graph)@
            } else {
                let made = old(graph)@.add_role(payload.name@, payload.title@, now);
                &&& r matches Ok(role) && role@ == made.roles.last()
                &&& final(graph)@ == (match permissions {
                    Some(list) => made.replace_permissions(old(graph)@.next_id, list.deep_view()),
                    None => made,
                })
            },
        },
{
    match sessions.permission(graph, token, "role::write", now) {
        Err(e) => {
            return Err(ApiError::Session(e));
        },
        Ok(()) => {},
    }
    let role = match graph.create_role(payload.name.as_str(), payload.title.as_str(), now) {
        Err(e) => {
            return Err(db_error(e));
        },
        Ok(role) => role,
    };
    match permissions {
        Some(list) => {
            proof {
                let made = graph@;
                assert(made.role_at(made.roles.len() - 1, role.id));
            }
            match graph.replace_role_permissions(role.id, list) {
                Err(e) => Err(db_error(e)),
                Ok(()) => Ok(role),
            }
        },
        None => Ok(role),
    }
}

/// Renames and retitles the role called `slug` and replaces its permissions
/// by those called one of `permissions` (by none, where no list is given),
/// for a caller who may write roles. The sessions of the role's holders lose
/// their snapshots.
pub fn role_update_handler(
    graph: &mut AuthorizationGraph,
    sessions: &mut SessionManager,
    token: &str,
    now: u64,
    slug: &str,
    payload: &RoleUpdateModel,
    permissions: &Option<Vec<String>>,
) -> (r: Result<RoleModel, ApiError>)
    requires
        old(graph).wf(),
        old(sessions).wf(),
    ensures
        final(graph).wf(),
        final(sessions).wf(),
        match gate(old(sessions)@, old(graph)@, token@, now, "role::write"@) {
            Err(e) => r == Err::<RoleModel, ApiError>(ApiError::Session(e))
                && final(graph)@ == old(graph)@
                && final(sessions)@ == old(sessions)@.after_resolve(old(graph)@, token@, now),
            Ok(()) => if !old(graph)@.role_name_taken(slug@) {
                r == Err::<RoleModel, ApiError>(ApiError::Db(DbError::EntryNotFound))
                    && final(graph)@ == old(graph)@
                    && final(sessions)@ == old(sessions)@.after_resolve(
                    old(graph)@,
                    token@,
                    now,
                )
            } else if old(graph)@.role_name_taken_by_other(
                old(graph)@.role_id_named(slug@),
                payload.name@,
            ) {
                r == Err::<RoleModel, ApiError>(ApiError::Db(DbError::EntryUpdate)) && final(graph)@
                    == old(graph)@ && final(sessions)@ == old(sessions)@.after_resolve(
                    old(graph)@,
                    token@,
                    now,
                )
            } else {
                let id = old(graph)@.role_id_named(slug@);
                let changed = old(graph)@.update_role(id, payload.name@, payload.title@, now);
                &&& r matches Ok(role) && role@ == changed.roles[old(graph)@.role_position(id)]
                &&& final(graph)@ == changed.replace_permissions(
                    id,
                    match permissions {
                        Some(list) => list.deep_view(),
                        None => Seq::empty(),
                    },
                )
                &&& final(sessions)@ == old(sessions)@.after_resolve(
                    old(graph)@,
                    token@,
                    now,
                ).invalidate_role(old(graph)@, id)
            },
        },
{
    match sessions.permission(graph, token, "role::write", now) {
        Err(e) => {
            return Err(ApiError::Session(e));
        },
        Ok(()) => {},
    }
    let found = match graph.find_role_by_name(slug) {
        Err(e) => {
            return Err(db_error(e));
        },
        Ok(role) => role,
    };
    let role = match graph.update_role(found.id, payload, now) {
        Err(e) => {
            return Err(db_error(e));
        },
        Ok(role) => role,
    };
    sessions.invalidate_role(graph, found.id);
    proof {
        lemma_update_role_wf(old(graph)@, found.id, payload.name@, payload.title@, now);
        assert(graph@.user_roles == old(graph)@.user_roles);
        assert(sessions@.sessions =~= old(sessions)@.after_resolve(
            old(graph)@,
            token@,
            now,
        ).invalidate_role(old(graph)@, found.id).sessions);
    }
    let none: Vec<String> = Vec::new();
    assert(none.deep_view() =~= Seq::<Seq<char>>::empty());
    let replaced = match permissions {
        Some(list) => graph.replace_role_permissions(found.id, list),
        None => graph.replace_role_permissions(found.id, &none),
    };
    match replaced {
        Err(e) => Err(db_error(e)),
        Ok(()) => Ok(role),
    }
}

/// Deletes the role called `slug` with its edges, for a caller who may delete
/// roles. The sessions of the role's holders lose their snapshots. Where no
/// role has that name, nothing is deleted and the call succeeds.
pub fn role_delete_handler(
    graph: &mut AuthorizationGraph,
    sessions: &mut SessionManager,
    token: &str,
    now: u64,
    slug: &str,
) -> (r: Result<(), ApiError>)
    requires
        old(graph).wf(),
        old(sessions).wf(),
    ensures
        final(graph).wf(),
        final(sessions).wf(),
        match gate(old(sessions)@, old(graph)@, token@, now, "role::delete"@) {
            Err(e) => r == Err::<(), ApiError>(ApiError::Session(e)) && final(graph)@ == old(graph)@
                && final(sessions)@ == old(sessions)@.after_resolve(old(graph)@, token@, now),
            Ok(()) => r == Ok::<(), ApiError>(()) && (final(graph)@, final(sessions)@)
                == delete_named(
                (old(graph)@, old(sessions)@.after_resolve(old(graph)@, token@, now)),
                slug@,
            ),
        },
{
    match sessions.permission(graph, token, "role::delete", now) {
        Err(e) => {
            return Err(ApiError::Session(e));
        },
        Ok(()) => {},
    }
    remove_role_named(graph, sessions, slug);
    Ok(())
}

/// Deletes the roles called `list`, one after the other, for a caller who may
/// delete roles. A name that no role has is passed over.
pub fn role_list_delete_handler(
    graph: &mut AuthorizationGraph,
    sessions: &mut SessionManager,
    token: &str,
    now: u64,
    list: &Vec<String>,
) -> (r: Result<(), ApiError>)
    requires
        old(graph).wf(),
        old(sessions).wf(),
    ensures
        final(graph).wf(),
        final(sessions).wf(),
        match gate(old(sessions)@, old(graph)@, token@, now, "role::delete"@) {
            Err(e) => r == Err::<(), ApiError>(ApiError::Session(e)) && final(graph)@ == old(graph)@
                && final(sessions)@ == old(sessions)@.after_resolve(old(graph)@, token@, now),
            Ok(()) => r == Ok::<(), ApiError>(()) && (final(graph)@, final(sessions)@)
                == delete_all_named(
                (old(graph)@, old(sessions)@.after_resolve(old(graph)@, token@, now)),
                list.deep_view(),
            ),
        },
{
    match sessions.permission(graph, token, "role::delete", now) {
        Err(e) => {
            return Err(ApiError::Session(e));
        },
        Ok(()) => {},
    }
    let ghost start = (graph@, sessions@);
    let ghost all = list.deep_view();
    let mut k: usize = 0;
    while k < list.len()
        invariant
            k <= list.len(),
            graph.wf(),
            sessions.wf(),
            all == list.deep_view(),
            (graph@, sessions@) == delete_all_named(start, all.take(k as int)),
        decreases list.len() - k,
    {
        proof {
            assert(all.take(k + 1).drop_last() =~= all.take(k as int));
            assert(all.take(k + 1).last() == list@[k as int]@);
        }
        remove_role_named(graph, sessions, list[k].as_str());
        k += 1;
    }
    assert(all.take(list.len() as int) =~= all);
    Ok(())
}

/// The place of the first row of a page: pages are counted from 1 (page 0 is
/// page 1) and hold `per_page` rows; a page beyond the end starts at the end.
pub open spec fn page_start(total: int, per_page: int, page: int) -> int {
    let p = if page < 1 {
        1
    } else {
        page
    };
    if (p - 1) * per_page > total {
        total
    } else {
        (p - 1) * per_page
    }
}

/// The place after the last row of a page.
pub open spec fn page_end(total: int, per_page: int, page: int) -> int {
    let start = page_start(total, per_page, page);
    if start + per_page > total {
        total
    } else {
        start + per_page
    }
}

/// The places of the rows of a page among `total` rows.
pub fn page_bounds(total: usize, per_page: usize, page: usize) -> (r: (usize, usize))
    ensures
        r.0 == page_start(total as int, per_page as int, page as int),
        r.1 == page_end(total as int, per_page as int, page as int),
        r.0 <= r.1 <= total,
{
    let before: usize = if page == 0 {
        0
    } else {
        page - 1
    };
    let start: usize = if per_page == 0 {
        0
    } else if before > total / per_page {
        proof {
            assert(before * per_page > total) by (nonlinear_arith)
                requires
                    before > total / per_page,
                    per_page > 0,
                    total >= 0,
            ;
        }
        total
    } else {
        proof {
            assert(before * per_page <= total) by (nonlinear_arith)
                requires
                    0 <= before <= total / per_page,
                    per_page > 0,
                    total >= 0,
            ;
        }
        before * per_page
    };
    let end: usize = if per_page > total - start {
        total
    } else {
        start + per_page
    };
    (start, end)
}

/// One page of the roles, for a caller who may read roles. Without a page
/// number the first page is given.
pub fn role_list_handler(
    graph: &AuthorizationGraph,
    sessions: &mut SessionManager,
    token: &str,
    now: u64,
    page: Option<usize>,
    rows_per_page: usize,
) -> (r: Result<Vec<RoleModel>, ApiError>)
    requires
        graph.wf(),
        old(sessions).wf(),
    ensures
        final(sessions).wf(),
        final(sessions)@ == old(sessions)@.after_resolve(graph@, token@, now),
        match gate(old(sessions)@, graph@, token@, now, "role::read"@) {
            Err(e) => r == Err::<Vec<RoleModel>, ApiError>(ApiError::Session(e)),
            Ok(()) => {
                let number = match page {
                    Some(value) => value as int,
                    None => 1,
                };
                r matches Ok(list) && list@.map_values(|m: RoleModel| m@) == graph@.roles.subrange(
                    page_start(graph@.roles.len() as int, rows_per_page as int, number),
                    page_end(graph@.roles.len() as int, rows_per_page as int, number),
                )
            },
        },
{
    match sessions.permission(graph, token, "role::read", now) {
        Err(e) => {
            return Err(ApiError::Session(e));
        },
        Ok(()) => {},
    }
    let number: usize = match page {
        Some(value) => value,
        None => 1,
    };
    let bounds = page_bounds(graph.role_count(), rows_per_page, number);
    Ok(graph.roles_between(bounds.0, bounds.1))
}

} // verus!
