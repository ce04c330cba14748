//! The repositories of users and groups: what the request handlers call. The
//! graph and the sessions are handed in by the caller; a change of a user's
//! roles takes the snapshots from that user's sessions.

use vstd::prelude::*;
use crate::error::{ApiError, DbError, SessionError};
use crate::graph::AuthorizationGraph;
use crate::graph_view::{group_place_named, user_place_named};
use crate::model::{
    GroupCreateModel, GroupModel, GroupUpdateModel, UserCreateModel, UserModel, UserUpdateModel,
};
use crate::password::{argon2_phc, hash_password, hashed};
use crate::session::SessionManager;
use crate::text::ascending;

verus! {

/// The repository of users. It holds the salt that passwords are hashed with.
pub struct UserRepository {
    salt: String,
}

impl UserRepository {
    /// A repository that hashes passwords with `salt`.
    pub fn new(salt: String) -> (r: Self)
        ensures
            r.password_salt() == salt@,
    {
        UserRepository { salt }
    }
}

/// Stores a new user whose password hash is `hash`, or gives the error that
/// hashing gave.
pub fn store_user(
    graph: &mut AuthorizationGraph,
    login: &str,
    hash: Result<String, SessionError>,
) -> (r: Result<UserModel, ApiError>)
    requires
        old(graph).wf(),
    ensures
        final(graph).wf(),
        match hash {
            Err(e) => r == Err::<UserModel, ApiError>(ApiError::Session(e))
                && final(graph)@ == old(graph)@,
            Ok(h) => if old(graph)@.login_taken(login@) {
                r == Err::<UserModel, ApiError>(ApiError::Db(DbError::EntryAlreadyExists))
                    && final(graph)@ == old(graph)@
            } else if old(graph)@.next_id == u64::MAX {
                r == Err::<UserModel, ApiError>(ApiError::Db(DbError::StorageError))
                    && final(graph)@ == old(graph)@
            } else {
                r matches Ok(m) && final(graph)@ == old(graph)@.add_user(login@, h@)
                    && m@ == final(graph)@.users.last()
            },
        },
{
    match hash {
        Err(e) => Err(ApiError::Session(e)),
        Ok(h) => match graph.create_user(login, h) {
            Ok(m) => Ok(m),
            Err(e) => Err(ApiError::Db(e)),
        },
    }
}

/// What a repository of users offers.
pub trait UserRepositoryTrait {
    /// The salt that passwords are hashed with.
    spec fn password_salt(&self) -> Seq<char>;

    /// The user with this id.
    fn find(&self, graph: &AuthorizationGraph, id: u64) -> (r: Result<UserModel, ApiError>)
        requires
            graph.wf(),
        ensures
            match r {
                Ok(m) => graph@.has_user(id) && m@ == graph@.users[graph@.user_position(id)],
                Err(e) => e == ApiError::Db(DbError::EntryNotFound) && !graph@.has_user(id),
            },
    ;

    /// The user with this login.
    fn find_by_login(&self, graph: &AuthorizationGraph, login: &str) -> (r: Result<
        UserModel,
        ApiError,
    >)
        requires
            graph.wf(),
        ensures
            match r {
                Ok(m) => graph@.login_taken(login@) && m@ == graph@.users[user_place_named(
                    graph@.users,
                    login@,
                )],
                Err(e) => e == ApiError::Db(DbError::EntryNotFound) && !graph@.login_taken(login@),
            },
    ;

    /// Registers a user: hashes the password with the repository's salt and
    /// stores login and hash.
    fn create(&self, graph: &mut AuthorizationGraph, model: UserCreateModel) -> (r: Result<
        UserModel,
        ApiError,
    >)
        requires
            old(graph).wf(),
        ensures
            final(graph).wf(),
            match hashed(argon2_phc(model.password@, self.password_salt())) {
                Err(e) => r == Err::<UserModel, ApiError>(ApiError::Session(e)) && final(graph)@
                    == old(graph)@,
                Ok(h) => if old(graph)@.login_taken(model.login@) {
                    r == Err::<UserModel, ApiError>(ApiError::Db(DbError::EntryAlreadyExists))
                        && final(graph)@ == old(graph)@
                } else if old(graph)@.next_id == u64::MAX {
                    r == Err::<UserModel, ApiError>(ApiError::Db(DbError::StorageError))
                        && final(graph)@ == old(graph)@
                } else {
                    r matches Ok(m) && final(graph)@ == old(graph)@.add_user(model.login@, h)
                        && m@ == final(graph)@.users.last()
                },
            },
    ;

    /// Gives a user another login.
    fn update(&self, graph: &mut AuthorizationGraph, id: u64, model: UserUpdateModel) -> (r: Result<
        UserModel,
        ApiError,
    >)
        requires
            old(graph).wf(),
        ensures
            final(graph).wf(),
            match r {
                Ok(m) => old(graph)@.has_user(id) && !old(graph)@.login_taken_by_other(
                    id,
                    model.login@,
                ) && final(graph)@ == old(graph)@.rename_user(id, model.login@)
                    && m@ == final(graph)@.users[old(graph)@.user_position(id)],
                Err(e) => e == ApiError::Db(DbError::EntryUpdate) && final(graph)@ == old(graph)@
                    && (!old(graph)@.has_user(id) || old(graph)@.login_taken_by_other(
                    id,
                    model.login@,
                )),
            },
    ;

    /// Deletes a user with all its edges, and takes the snapshots from its
    /// sessions, which resolve to nothing from then on.
    fn delete(&self, graph: &mut AuthorizationGraph, sessions: &mut SessionManager, id: u64) -> (r:
        Result<(), ApiError>)
        requires
            old(graph).wf(),
            old(sessions).wf(),
        ensures
            final(graph).wf(),
            final(sessions).wf(),
            r == Ok::<(), ApiError>(()),
            final(graph)@ == old(graph)@.delete_user(id),
            final(sessions)@ == old(sessions)@.invalidate_all_for_user(id),
    ;

    /// The effective permissions of a user, in ascending order.
    fn permissions(&self, graph: &AuthorizationGraph, id: u64) -> (r: Result<Vec<String>, ApiError>)
        requires
            graph.wf(),
        ensures
            match r {
                Ok(names) => graph@.has_user(id) && ascending(names.deep_view())
                    && names.deep_view().to_set() == graph@.effective_permissions(id),
                Err(e) => e == ApiError::Db(DbError::EntryNotFound) && !graph@.has_user(id),
            },
    ;

    /// The effective roles of a user, in ascending order.
    fn roles(&self, graph: &AuthorizationGraph, id: u64) -> (r: Result<Vec<String>, ApiError>)
        requires
            graph.wf(),
        ensures
            match r {
                Ok(names) => graph@.has_user(id) && ascending(names.deep_view())
                    && names.deep_view().to_set() == graph@.effective_roles(id),
                Err(e) => e == ApiError::Db(DbError::EntryNotFound) && !graph@.has_user(id),
            },
    ;

    /// The effective groups of a user, in ascending order.
    fn groups(&self, graph: &AuthorizationGraph, id: u64) -> (r: Result<Vec<String>, ApiError>)
        requires
            graph.wf(),
        ensures
            match r {
                Ok(names) => graph@.has_user(id) && ascending(names.deep_view())
                    && names.deep_view().to_set() == graph@.effective_groups(id),
                Err(e) => e == ApiError::Db(DbError::EntryNotFound) && !graph@.has_user(id),
            },
    ;

    /// Assigns a role to a user and takes the snapshots from the user's
    /// sessions. Where the user or the role is missing, nothing changes.
    fn assign_role(
        &self,
        graph: &mut AuthorizationGraph,
        sessions: &mut SessionManager,
        user_id: u64,
        role_id: u64,
    ) -> (r: Result<(), ApiError>)
        requires
            old(graph).wf(),
            old(sessions).wf(),
        ensures
            final(graph).wf(),
            final(sessions).wf(),
            if old(graph)@.has_user(user_id) && old(graph)@.has_role(role_id) {
                r == Ok::<(), ApiError>(()) && final(graph)@ == old(graph)@.assign_role(
                    user_id,
                    role_id,
                ) && final(sessions)@ == old(sessions)@.invalidate_all_for_user(user_id)
            } else {
                r == Err::<(), ApiError>(ApiError::Db(DbError::EntryNotFound)) && final(graph)@
                    == old(graph)@ && final(sessions)@ == old(sessions)@
            },
    ;

    /// Takes a role from a user and takes the snapshots from the user's
    /// sessions. Where the user or the role is missing, nothing changes.
    fn unassign_role(
        &self,
        graph: &mut AuthorizationGraph,
        sessions: &mut SessionManager,
        user_id: u64,
        role_id: u64,
    ) -> (r: Result<(), ApiError>)
        requires
            old(graph).wf(),
            old(sessions).wf(),
        ensures
            final(graph).wf(),
            final(sessions).wf(),
            if old(graph)@.has_user(user_id) && old(graph)@.has_role(role_id) {
                r == Ok::<(), ApiError>(()) && final(graph)@ == old(graph)@.unassign_role(
                    user_id,
                    role_id,
                ) && final(sessions)@ == old(sessions)@.invalidate_all_for_user(user_id)
            } else {
                r == Err::<(), ApiError>(ApiError::Db(DbError::EntryNotFound)) && final(graph)@
                    == old(graph)@ && final(sessions)@ == old(sessions)@
            },
    ;
}

impl UserRepositoryTrait for UserRepository {
    closed spec fn password_salt(&self) -> Seq<char> {
        self.salt@
    }

    fn find(&self, graph: &AuthorizationGraph, id: u64) -> (r: Result<UserModel, ApiError>) {
        match graph.find_user(id) {
            Ok(m) => Ok(m),
            Err(e) => Err(ApiError::Db(e)),
        }
    }

    fn find_by_login(&self, graph: &AuthorizationGraph, login: &str) -> (r: Result<
        UserModel,
        ApiError,
    >) {
        match graph.find_user_by_login(login) {
            Ok(m) => Ok(m),
            Err(e) => Err(ApiError::Db(e)),
        }
    }

    fn create(&self, graph: &mut AuthorizationGraph, model: UserCreateModel) -> (r: Result<
        UserModel,
        ApiError,
    >) {
        let hash = hash_password(model.password.as_str(), self.salt.as_str());
        store_user(graph, model.login.as_str(), hash)
    }

    fn update(&self, graph: &mut AuthorizationGraph, id: u64, model: UserUpdateModel) -> (r: Result<
        UserModel,
        ApiError,
    >) {
        match graph.update_user(id, &model) {
            Ok(m) => Ok(m),
            Err(e) => Err(ApiError::Db(e)),
        }
    }

    fn delete(&self, graph: &mut AuthorizationGraph, sessions: &mut SessionManager, id: u64) -> (r:
        Result<(), ApiError>) {
        graph.delete_user(id);
        sessions.invalidate_all_for_user(id);
        Ok(())
    }

    fn permissions(&self, graph: &AuthorizationGraph, id: u64) -> (r: Result<Vec<String>, ApiError>) {
        match graph.effective_permissions(id) {
            Ok(names) => Ok(names),
            Err(e) => Err(ApiError::Db(e)),
        }
    }

    fn roles(&self, graph: &AuthorizationGraph, id: u64) -> (r: Result<Vec<String>, ApiError>) {
        match graph.effective_roles(id) {
            Ok(names) => Ok(names),
            Err(e) => Err(ApiError::Db(e)),
        }
    }

    fn groups(&self, graph: &AuthorizationGraph, id: u64) -> (r: Result<Vec<String>, ApiError>) {
        match graph.effective_groups(id) {
            Ok(names) => Ok(names),
            Err(e) => Err(ApiError::Db(e)),
        }
    }

    fn assign_role(
        &self,
        graph: &mut AuthorizationGraph,
        sessions: &mut SessionManager,
        user_id: u64,
        role_id: u64,
    ) -> (r: Result<(), ApiError>) {
        match graph.assign_role(user_id, role_id) {
            Ok(()) => {
                sessions.invalidate_all_for_user(user_id);
                Ok(())
            },
            Err(e) => Err(ApiError::Db(e)),
        }
    }

    fn unassign_role(
        &self,
        graph: &mut AuthorizationGraph,
        sessions: &mut SessionManager,
        user_id: u64,
        role_id: u64,
    ) -> (r: Result<(), ApiError>) {
        match graph.unassign_role(user_id, role_id) {
            Ok(()) => {
                sessions.invalidate_all_for_user(user_id);
                Ok(())
            },
            Err(e) => Err(ApiError::Db(e)),
        }
    }
}

/// The repository of groups.
pub struct GroupService;

/// What a repository of groups offers.
pub trait GroupRepositoryTrait {
    /// All groups, in the order in which they were created.
    fn all(&self, graph: &AuthorizationGraph) -> (r: Result<Vec<GroupModel>, ApiError>)
        requires
            graph.wf(),
        ensures
            r matches Ok(list) && list@.map_values(|m: GroupModel| m@) == graph@.groups,
    ;

    /// The group with this slug.
    fn find_by_slug(&self, graph: &AuthorizationGraph, slug: &str) -> (r: Result<
        GroupModel,
        ApiError,
    >)
        requires
            graph.wf(),
        ensures
            match r {
                Ok(m) => graph@.group_slug_taken(slug@) && m@ == graph@.groups[group_place_named(
                    graph@.groups,
                    slug@,
                )],
                Err(e) => e == ApiError::Db(DbError::EntryNotFound) && !graph@.group_slug_taken(
                    slug@,
                ),
            },
    ;

    /// The slugs of the groups of the user with this login, in ascending order.
    fn find_by_user(&self, graph: &AuthorizationGraph, login: &str) -> (r: Result<
        Vec<String>,
        ApiError,
    >)
        requires
            graph.wf(),
        ensures
            match r {
                Ok(slugs) => graph@.login_taken(login@) && ascending(slugs.deep_view())
                    && slugs.deep_view().to_set() == graph@.effective_groups(
                    graph@.users[user_place_named(graph@.users, login@)].id,
                ),
                Err(e) => e == ApiError::Db(DbError::EntryNotFound) && !graph@.login_taken(login@),
            },
    ;

    /// Creates a group under a slug that no group has yet.
    fn create(
        &self,
        graph: &mut AuthorizationGraph,
        auth: &str,
        slug: &str,
        model: GroupCreateModel,
        now: u64,
    ) -> (r: Result<GroupModel, ApiError>)
        requires
            old(graph).wf(),
        ensures
            final(graph).wf(),
            if old(graph)@.group_slug_taken(slug@) {
                r == Err::<GroupModel, ApiError>(ApiError::Db(DbError::EntryAlreadyExists))
                    && final(graph)@ == old(graph)@
            } else if old(graph)@.next_id == u64::MAX {
                r == Err::<GroupModel, ApiError>(ApiError::Db(DbError::StorageError))
                    && final(graph)@ == old(graph)@
            } else {
                r matches Ok(m) && final(graph)@ == old(graph)@.add_group(
                    slug@,
                    model.title@,
                    auth@,
                    now,
                ) && m@ == final(graph)@.groups.last()
            },
    ;

    /// Retitles the group with this slug.
    fn update(
        &self,
        graph: &mut AuthorizationGraph,
        auth: &str,
        slug: &str,
        model: GroupUpdateModel,
        now: u64,
    ) -> (r: Result<GroupModel, ApiError>)
        requires
            old(graph).wf(),
        ensures
            final(graph).wf(),
            if old(graph)@.group_slug_taken(slug@) {
                let id = old(graph)@.groups[group_place_named(old(graph)@.groups, slug@)].id;
                r matches Ok(m) && final(graph)@ == old(graph)@.update_group(
                    id,
                    model.title@,
                    auth@,
                    now,
                ) && m@ == final(graph)@.groups[old(graph)@.group_position(id)]
            } else {
                r == Err::<GroupModel, ApiError>(ApiError::Db(DbError::EntryUpdate))
                    && final(graph)@
                    == old(graph)@
            },
    ;

    /// Deletes the group with this slug, with the edges that end at it. Where
    /// no group has the slug, nothing changes.
    fn delete(&self, graph: &mut AuthorizationGraph, slug: &str) -> (r: Result<(), ApiError>)
        requires
            old(graph).wf(),
        ensures
            final(graph).wf(),
            r == Ok::<(), ApiError>(()),
            final(graph)@ == (if old(graph)@.group_slug_taken(slug@) {
                old(graph)@.delete_group(
                    old(graph)@.groups[group_place_named(old(graph)@.groups, slug@)].id,
                )
            } else {
                old(graph)@
            }),
    ;
}

impl GroupRepositoryTrait for GroupService {
    fn all(&self, graph: &AuthorizationGraph) -> (r: Result<Vec<GroupModel>, ApiError>) {
        Ok(graph.all_groups())
    }

    fn find_by_slug(&self, graph: &AuthorizationGraph, slug: &str) -> (r: Result<
        GroupModel,
        ApiError,
    >) {
        match graph.find_group_by_slug(slug) {
            Ok(m) => Ok(m),
            Err(e) => Err(ApiError::Db(e)),
        }
    }

    fn find_by_user(&self, graph: &AuthorizationGraph, login: &str) -> (r: Result<
        Vec<String>,
        ApiError,
    >) {
        match graph.find_user_by_login(login) {
            Err(e) => Err(ApiError::Db(e)),
            Ok(user) => match graph.effective_groups(user.id) {
                Ok(slugs) => Ok(slugs),
                Err(e) => Err(ApiError::Db(e)),
            },
        }
    }

    fn create(
        &self,
        graph: &mut AuthorizationGraph,
        auth: &str,
        slug: &str,
        model: GroupCreateModel,
        now: u64,
    ) -> (r: Result<GroupModel, ApiError>) {
        match graph.create_group(auth, slug, model.title.as_str(), now) {
            Ok(m) => Ok(m),
            Err(e) => Err(ApiError::Db(e)),
        }
    }

    fn update(
        &self,
        graph: &mut AuthorizationGraph,
        auth: &str,
        slug: &str,
        model: GroupUpdateModel,
        now: u64,
    ) -> (r: Result<GroupModel, ApiError>) {
        match graph.find_group_by_slug(slug) {
            Err(_) => Err(ApiError::Db(DbError::EntryUpdate)),
            Ok(found) => match graph.update_group(found.id, auth, &model, now) {
                Ok(m) => Ok(m),
                Err(e) => Err(ApiError::Db(e)),
            },
        }
    }

    fn delete(&self, graph: &mut AuthorizationGraph, slug: &str) -> (r: Result<(), ApiError>) {
        match graph.find_group_by_slug(slug) {
            Err(_) => {},
            Ok(found) => {
                graph.delete_group(found.id);
            },
        }
        Ok(())
    }
}

} // verus!
