//! The access graph as a mathematical value: four tables of records and three
//! sets of edges, with what can be reached from a user and how each operation
//! changes the graph.

use vstd::prelude::*;
use crate::model::{GroupView, PermissionView, RoleView, UserView};

verus! {

/// The whole graph. An edge is a pair of ids: `user_roles` holds
/// `(user, role)`, `role_permissions` holds `(role, permission)` and
/// `user_groups` holds `(user, group)`.
pub struct GraphView {
    pub users: Seq<UserView>,
    pub roles: Seq<RoleView>,
    pub permissions: Seq<PermissionView>,
    pub groups: Seq<GroupView>,
    pub user_roles: Set<(u64, u64)>,
    pub role_permissions: Set<(u64, u64)>,
    pub user_groups: Set<(u64, u64)>,
    pub next_id: u64,
}

/// A place in `users` where the record with this id stands.
pub open spec fn user_place(users: Seq<UserView>, id: u64) -> int {
    choose|i: int| 0 <= i < users.len() && (#[trigger] users[i]).id == id
}

/// A place in `roles` where the record with this id stands.
pub open spec fn role_place(roles: Seq<RoleView>, id: u64) -> int {
    choose|i: int| 0 <= i < roles.len() && (#[trigger] roles[i]).id == id
}

/// A place in `permissions` where the record with this id stands.
pub open spec fn permission_place(permissions: Seq<PermissionView>, id: u64) -> int {
    choose|i: int| 0 <= i < permissions.len() && (#[trigger] permissions[i]).id == id
}

/// A place in `groups` where the record with this id stands.
pub open spec fn group_place(groups: Seq<GroupView>, id: u64) -> int {
    choose|i: int| 0 <= i < groups.len() && (#[trigger] groups[i]).id == id
}

/// A place in `users` where the user with this login stands.
pub open spec fn user_place_named(users: Seq<UserView>, login: Seq<char>) -> int {
    choose|i: int| 0 <= i < users.len() && (#[trigger] users[i]).login == login
}

/// A place in `groups` where the group with this slug stands.
pub open spec fn group_place_named(groups: Seq<GroupView>, slug: Seq<char>) -> int {
    choose|i: int| 0 <= i < groups.len() && (#[trigger] groups[i]).slug == slug
}

/// A place in `roles` where the role with this name stands.
pub open spec fn role_place_named(roles: Seq<RoleView>, name: Seq<char>) -> int {
    choose|i: int| 0 <= i < roles.len() && (#[trigger] roles[i]).name == name
}

impl GraphView {
    /// The graph with no record and no edge.
    pub open spec fn empty() -> GraphView {
        GraphView {
            users: Seq::empty(),
            roles: Seq::empty(),
            permissions: Seq::empty(),
            groups: Seq::empty(),
            user_roles: Set::empty(),
            role_permissions: Set::empty(),
            user_groups: Set::empty(),
            next_id: 1,
        }
    }

    pub open spec fn user_at(self, i: int, id: u64) -> bool {
        0 <= i < self.users.len() && self.users[i].id == id
    }

    pub open spec fn role_at(self, i: int, id: u64) -> bool {
        0 <= i < self.roles.len() && self.roles[i].id == id
    }

    pub open spec fn permission_at(self, i: int, id: u64) -> bool {
        0 <= i < self.permissions.len() && self.permissions[i].id == id
    }

    pub open spec fn group_at(self, i: int, id: u64) -> bool {
        0 <= i < self.groups.len() && self.groups[i].id == id
    }

    pub open spec fn has_user(self, id: u64) -> bool {
        exists|i: int| #[trigger] self.user_at(i, id)
    }

    pub open spec fn has_role(self, id: u64) -> bool {
        exists|i: int| #[trigger] self.role_at(i, id)
    }

    pub open spec fn has_permission(self, id: u64) -> bool {
        exists|i: int| #[trigger] self.permission_at(i, id)
    }

    pub open spec fn has_group(self, id: u64) -> bool {
        exists|i: int| #[trigger] self.group_at(i, id)
    }

    /// The place of the user with this id in the table.
    pub open spec fn user_position(self, id: u64) -> int {
        user_place(self.users, id)
    }

    pub open spec fn role_position(self, id: u64) -> int {
        role_place(self.roles, id)
    }

    pub open spec fn permission_position(self, id: u64) -> int {
        permission_place(self.permissions, id)
    }

    pub open spec fn group_position(self, id: u64) -> int {
        group_place(self.groups, id)
    }

    pub open spec fn login_taken(self, login: Seq<char>) -> bool {
        exists|i: int| 0 <= i < self.users.len() && (#[trigger] self.users[i]).login == login
    }

    pub open spec fn role_name_taken(self, name: Seq<char>) -> bool {
        exists|i: int| 0 <= i < self.roles.len() && (#[trigger] self.roles[i]).name == name
    }

    pub open spec fn permission_name_taken(self, name: Seq<char>) -> bool {
        exists|i: int|
            0 <= i < self.permissions.len() && (#[trigger] self.permissions[i]).name == name
    }

    pub open spec fn group_slug_taken(self, slug: Seq<char>) -> bool {
        exists|i: int| 0 <= i < self.groups.len() && (#[trigger] self.groups[i]).slug == slug
    }

    /// The id of the role called `name`.
    pub open spec fn role_id_named(self, name: Seq<char>) -> u64 {
        self.roles[role_place_named(self.roles, name)].id
    }

    /// Ids are given once and lie below `next_id`; logins, role names,
    /// permission names and group slugs are unique.
    pub open spec fn tables_wf(self) -> bool {
        &&& forall|i: int| 0 <= i < self.users.len() ==> (#[trigger] self.users[i]).id < self.next_id
        &&& forall|i: int| 0 <= i < self.roles.len() ==> (#[trigger] self.roles[i]).id < self.next_id
        &&& forall|i: int|
            0 <= i < self.permissions.len() ==> (#[trigger] self.permissions[i]).id < self.next_id
        &&& forall|i: int|
            0 <= i < self.groups.len() ==> (#[trigger] self.groups[i]).id < self.next_id
        &&& forall|i: int, j: int|
            0 <= i < j < self.users.len() ==> (#[trigger] self.users[i]).id != (
            #[trigger] self.users[j]).id && self.users[i].login != self.users[j].login
        &&& forall|i: int, j: int|
            0 <= i < j < self.roles.len() ==> (#[trigger] self.roles[i]).id != (
            #[trigger] self.roles[j]).id && self.roles[i].name != self.roles[j].name
        &&& forall|i: int, j: int|
            0 <= i < j < self.permissions.len() ==> (#[trigger] self.permissions[i]).id != (
            #[trigger] self.permissions[j]).id && self.permissions[i].name
                != self.permissions[j].name
        &&& forall|i: int, j: int|
            0 <= i < j < self.groups.len() ==> (#[trigger] self.groups[i]).id != (
            #[trigger] self.groups[j]).id && self.groups[i].slug != self.groups[j].slug
    }

    /// No edge dangles: both ends of every edge are in their tables.
    pub open spec fn edges_wf(self) -> bool {
        &&& forall|e: (u64, u64)| #[trigger]
            self.user_roles.contains(e) ==> self.has_user(e.0) && self.has_role(e.1)
        &&& forall|e: (u64, u64)| #[trigger]
            self.role_permissions.contains(e) ==> self.has_role(e.0) && self.has_permission(e.1)
        &&& forall|e: (u64, u64)| #[trigger]
            self.user_groups.contains(e) ==> self.has_user(e.0) && self.has_group(e.1)
    }

    /// The invariant of the graph.
    pub open spec fn wf(self) -> bool {
        self.tables_wf() && self.edges_wf()
    }

    /// The role with id `role` is in the table and is called `name`.
    pub open spec fn role_named(self, role: u64, name: Seq<char>) -> bool {
        self.has_role(role) && self.roles[self.role_position(role)].name == name
    }

    /// The permission with id `permission` is in the table and is called `name`.
    pub open spec fn permission_named(self, permission: u64, name: Seq<char>) -> bool {
        self.has_permission(permission) && self.permissions[self.permission_position(
            permission,
        )].name == name
    }

    /// The group with id `group` is in the table and has the slug `slug`.
    pub open spec fn group_named(self, group: u64, slug: Seq<char>) -> bool {
        self.has_group(group) && self.groups[self.group_position(group)].slug == slug
    }

    /// Role `role` is granted a permission called `name`, by the edge to `permission`.
    pub open spec fn role_grants(self, role: u64, permission: u64, name: Seq<char>) -> bool {
        self.role_permissions.contains((role, permission)) && self.permission_named(
            permission,
            name,
        )
    }

    /// The names of the permissions granted to a role.
    pub open spec fn role_permission_names(self, role: u64) -> Set<Seq<char>> {
        Set::new(|name: Seq<char>| exists|p: u64| #[trigger] self.role_grants(role, p, name))
    }

    /// User `user` holds role `role`, which is granted a permission called `name`.
    pub open spec fn user_gets(self, user: u64, role: u64, name: Seq<char>) -> bool {
        self.user_roles.contains((user, role)) && self.role_permission_names(role).contains(name)
    }

    /// The effective permissions of a user: the names of all permissions that
    /// are reached by an edge to a role and an edge from that role.
    pub open spec fn effective_permissions(self, user: u64) -> Set<Seq<char>> {
        Set::new(|name: Seq<char>| exists|r: u64| #[trigger] self.user_gets(user, r, name))
    }

    /// User `user` holds the role `role`, which is called `name`.
    pub open spec fn user_holds(self, user: u64, role: u64, name: Seq<char>) -> bool {
        self.user_roles.contains((user, role)) && self.role_named(role, name)
    }

    /// The effective roles of a user: the names of the roles it has an edge to.
    pub open spec fn effective_roles(self, user: u64) -> Set<Seq<char>> {
        Set::new(|name: Seq<char>| exists|r: u64| #[trigger] self.user_holds(user, r, name))
    }

    /// User `user` is in the group `group`, which has the slug `slug`.
    pub open spec fn user_joins(self, user: u64, group: u64, slug: Seq<char>) -> bool {
        self.user_groups.contains((user, group)) && self.group_named(group, slug)
    }

    /// The effective groups of a user: the slugs of the groups it has an edge to.
    pub open spec fn effective_groups(self, user: u64) -> Set<Seq<char>> {
        Set::new(|slug: Seq<char>| exists|g: u64| #[trigger] self.user_joins(user, g, slug))
    }

    /// The graph with a new, unblocked user, who gets the next id.
    pub open spec fn add_user(self, login: Seq<char>, password: Seq<char>) -> GraphView {
        GraphView {
            users: self.users.push(
                UserView { id: self.next_id, login, password, blocked: false },
            ),
            next_id: (self.next_id + 1) as u64,
            ..self
        }
    }

    /// The graph with a new role, made at time `now`, which gets the next id.
    pub open spec fn add_role(self, name: Seq<char>, title: Seq<char>, now: u64) -> GraphView {
        GraphView {
            roles: self.roles.push(
                RoleView { id: self.next_id, name, title, created_at: now, updated_at: now },
            ),
            next_id: (self.next_id + 1) as u64,
            ..self
        }
    }

    /// The graph with a new permission, which gets the next id.
    pub open spec fn add_permission(self, name: Seq<char>) -> GraphView {
        GraphView {
            permissions: self.permissions.push(PermissionView { id: self.next_id, name }),
            next_id: (self.next_id + 1) as u64,
            ..self
        }
    }

    /// The graph with a new group, made by `author` at time `now`, which gets
    /// the next id.
    pub open spec fn add_group(
        self,
        slug: Seq<char>,
        title: Seq<char>,
        author: Seq<char>,
        now: u64,
    ) -> GraphView {
        GraphView {
            groups: self.groups.push(
                GroupView {
                    id: self.next_id,
                    slug,
                    title,
                    created_at: now,
                    updated_at: now,
                    created_by: author,
                    updated_by: author,
                },
            ),
            next_id: (self.next_id + 1) as u64,
            ..self
        }
    }

    /// Another user than `id` has the login `login`.
    pub open spec fn login_taken_by_other(self, id: u64, login: Seq<char>) -> bool {
        exists|i: int|
            0 <= i < self.users.len() && (#[trigger] self.users[i]).login == login
                && self.users[i].id != id
    }

    /// Another role than `id` has the name `name`.
    pub open spec fn role_name_taken_by_other(self, id: u64, name: Seq<char>) -> bool {
        exists|i: int|
            0 <= i < self.roles.len() && (#[trigger] self.roles[i]).name == name
                && self.roles[i].id != id
    }

    /// The graph in which the user `id` has the login `login`.
    pub open spec fn rename_user(self, id: u64, login: Seq<char>) -> GraphView {
        let i = self.user_position(id);
        GraphView { users: self.users.update(i, UserView { login, ..self.users[i] }), ..self }
    }

    /// The graph in which the user `id` is blocked, or is not.
    pub open spec fn set_blocked(self, id: u64, blocked: bool) -> GraphView {
        let i = self.user_position(id);
        GraphView { users: self.users.update(i, UserView { blocked, ..self.users[i] }), ..self }
    }

    /// The graph in which the role `id` has a new name and title, changed at
    /// time `now`.
    pub open spec fn update_role(
        self,
        id: u64,
        name: Seq<char>,
        title: Seq<char>,
        now: u64,
    ) -> GraphView {
        let i = self.role_position(id);
        GraphView {
            roles: self.roles.update(
                i,
                RoleView { name, title, updated_at: now, ..self.roles[i] },
            ),
            ..self
        }
    }

    /// The graph in which the group `id` has a new title, changed by `author`
    /// at time `now`.
    pub open spec fn update_group(
        self,
        id: u64,
        title: Seq<char>,
        author: Seq<char>,
        now: u64,
    ) -> GraphView {
        let i = self.group_position(id);
        GraphView {
            groups: self.groups.update(
                i,
                GroupView { title, updated_at: now, updated_by: author, ..self.groups[i] },
            ),
            ..self
        }
    }

    /// The graph with the edge `user -> role` added.
    pub open spec fn assign_role(self, user: u64, role: u64) -> GraphView {
        GraphView { user_roles: self.user_roles.insert((user, role)), ..self }
    }

    /// The graph with the edge `user -> role` removed.
    pub open spec fn unassign_role(self, user: u64, role: u64) -> GraphView {
        GraphView { user_roles: self.user_roles.remove((user, role)), ..self }
    }

    /// The graph with the edge `role -> permission` added.
    pub open spec fn grant_permission(self, role: u64, permission: u64) -> GraphView {
        GraphView { role_permissions: self.role_permissions.insert((role, permission)), ..self }
    }

    /// The graph with the edge `role -> permission` removed.
    pub open spec fn revoke_permission(self, role: u64, permission: u64) -> GraphView {
        GraphView { role_permissions: self.role_permissions.remove((role, permission)), ..self }
    }

    /// The graph without any edge from `role` to a permission.
    pub open spec fn drop_all_permissions(self, role: u64) -> GraphView {
        GraphView {
            role_permissions: self.role_permissions.filter(|e: (u64, u64)| e.0 != role),
            ..self
        }
    }

    /// Some permission called one of `names` has the id `permission`.
    pub open spec fn named_among(self, permission: u64, names: Seq<Seq<char>>) -> bool {
        exists|i: int|
            0 <= i < self.permissions.len() && (#[trigger] self.permissions[i]).id == permission
                && names.contains(self.permissions[i].name)
    }

    /// The graph in which `role` is granted exactly the permissions that are
    /// called one of `names`: the grants it had are dropped, and a name that
    /// no permission has is passed over.
    pub open spec fn replace_permissions(self, role: u64, names: Seq<Seq<char>>) -> GraphView {
        GraphView {
            role_permissions: Set::new(
                |e: (u64, u64)|
                    if e.0 == role {
                        self.named_among(e.1, names)
                    } else {
                        self.role_permissions.contains(e)
                    },
            ),
            ..self
        }
    }

    /// The graph with the edge `user -> group` added.
    pub open spec fn join_group(self, user: u64, group: u64) -> GraphView {
        GraphView { user_groups: self.user_groups.insert((user, group)), ..self }
    }

    /// The graph with the edge `user -> group` removed.
    pub open spec fn leave_group(self, user: u64, group: u64) -> GraphView {
        GraphView { user_groups: self.user_groups.remove((user, group)), ..self }
    }

    /// The graph without the role `role` and without any edge that ends or
    /// starts at it.
    pub open spec fn delete_role(self, role: u64) -> GraphView {
        GraphView {
            roles: if self.has_role(role) {
                self.roles.remove(self.role_position(role))
            } else {
                self.roles
            },
            user_roles: self.user_roles.filter(|e: (u64, u64)| e.1 != role),
            role_permissions: self.role_permissions.filter(|e: (u64, u64)| e.0 != role),
            ..self
        }
    }

    /// The graph without the user `user` and without any edge that starts at it.
    pub open spec fn delete_user(self, user: u64) -> GraphView {
        GraphView {
            users: if self.has_user(user) {
                self.users.remove(self.user_position(user))
            } else {
                self.users
            },
            user_roles: self.user_roles.filter(|e: (u64, u64)| e.0 != user),
            user_groups: self.user_groups.filter(|e: (u64, u64)| e.0 != user),
            ..self
        }
    }

    /// The graph without the permission `permission` and without any edge that
    /// ends at it.
    pub open spec fn delete_permission(self, permission: u64) -> GraphView {
        GraphView {
            permissions: if self.has_permission(permission) {
                self.permissions.remove(self.permission_position(permission))
            } else {
                self.permissions
            },
            role_permissions: self.role_permissions.filter(|e: (u64, u64)| e.1 != permission),
            ..self
        }
    }

    /// The graph without the group `group` and without any edge that ends at it.
    pub open spec fn delete_group(self, group: u64) -> GraphView {
        GraphView {
            groups: if self.has_group(group) {
                self.groups.remove(self.group_position(group))
            } else {
                self.groups
            },
            user_groups: self.user_groups.filter(|e: (u64, u64)| e.1 != group),
            ..self
        }
    }
}

/// Two graphs with the same users know the same users.
pub proof fn lemma_users_kept(g: GraphView, h: GraphView)
    requires
        g.users == h.users,
    ensures
        forall|id: u64| g.has_user(id) == h.has_user(id),
{
    assert forall|id: u64| g.has_user(id) == h.has_user(id) by {
        if g.has_user(id) {
            let i = choose|i: int| #[trigger] g.user_at(i, id);
            assert(h.user_at(i, id));
        }
        if h.has_user(id) {
            let i = choose|i: int| #[trigger] h.user_at(i, id);
            assert(g.user_at(i, id));
        }
    }
}

/// Two graphs with the same roles know the same roles.
pub proof fn lemma_roles_kept(g: GraphView, h: GraphView)
    requires
        g.roles == h.roles,
    ensures
        forall|id: u64| g.has_role(id) == h.has_role(id),
{
    assert forall|id: u64| g.has_role(id) == h.has_role(id) by {
        if g.has_role(id) {
            let i = choose|i: int| #[trigger] g.role_at(i, id);
            assert(h.role_at(i, id));
        }
        if h.has_role(id) {
            let i = choose|i: int| #[trigger] h.role_at(i, id);
            assert(g.role_at(i, id));
        }
    }
}

/// Two graphs with the same permissions know the same permissions.
pub proof fn lemma_permissions_kept(g: GraphView, h: GraphView)
    requires
        g.permissions == h.permissions,
    ensures
        forall|id: u64| g.has_permission(id) == h.has_permission(id),
{
    assert forall|id: u64| g.has_permission(id) == h.has_permission(id) by {
        if g.has_permission(id) {
            let i = choose|i: int| #[trigger] g.permission_at(i, id);
            assert(h.permission_at(i, id));
        }
        if h.has_permission(id) {
            let i = choose|i: int| #[trigger] h.permission_at(i, id);
            assert(g.permission_at(i, id));
        }
    }
}

/// Two graphs with the same groups know the same groups.
pub proof fn lemma_groups_kept(g: GraphView, h: GraphView)
    requires
        g.groups == h.groups,
    ensures
        forall|id: u64| g.has_group(id) == h.has_group(id),
{
    assert forall|id: u64| g.has_group(id) == h.has_group(id) by {
        if g.has_group(id) {
            let i = choose|i: int| #[trigger] g.group_at(i, id);
            assert(h.group_at(i, id));
        }
        if h.has_group(id) {
            let i = choose|i: int| #[trigger] h.group_at(i, id);
            assert(g.group_at(i, id));
        }
    }
}

/// Two graphs with the same tables have the same records.
pub proof fn lemma_same_tables(g: GraphView, h: GraphView)
    requires
        g.users == h.users,
        g.roles == h.roles,
        g.permissions == h.permissions,
        g.groups == h.groups,
        g.next_id == h.next_id,
    ensures
        forall|id: u64| g.has_user(id) == h.has_user(id),
        forall|id: u64| g.has_role(id) == h.has_role(id),
        forall|id: u64| g.has_permission(id) == h.has_permission(id),
        forall|id: u64| g.has_group(id) == h.has_group(id),
        forall|id: u64, n: Seq<char>| g.role_named(id, n) == h.role_named(id, n),
        forall|id: u64, n: Seq<char>| g.permission_named(id, n) == h.permission_named(id, n),
        forall|id: u64, n: Seq<char>| g.group_named(id, n) == h.group_named(id, n),
        g.tables_wf() == h.tables_wf(),
{
    lemma_users_kept(g, h);
    lemma_roles_kept(g, h);
    lemma_permissions_kept(g, h);
    lemma_groups_kept(g, h);
}

/// A graph stays well formed when its tables stay and every edge of the new
/// graph either was there before or joins two records of the tables.
pub proof fn lemma_edges_changed_wf(g: GraphView, h: GraphView)
    requires
        g.wf(),
        g.users == h.users,
        g.roles == h.roles,
        g.permissions == h.permissions,
        g.groups == h.groups,
        g.next_id == h.next_id,
        forall|e: (u64, u64)| #[trigger]
            h.user_roles.contains(e) ==> g.user_roles.contains(e) || (g.has_user(e.0)
                && g.has_role(e.1)),
        forall|e: (u64, u64)| #[trigger]
            h.role_permissions.contains(e) ==> g.role_permissions.contains(e) || (g.has_role(e.0)
                && g.has_permission(e.1)),
        forall|e: (u64, u64)| #[trigger]
            h.user_groups.contains(e) ==> g.user_groups.contains(e) || (g.has_user(e.0)
                && g.has_group(e.1)),
    ensures
        h.wf(),
{
    lemma_same_tables(g, h);
}

/// A graph stays well formed when its new tables are well formed and keep
/// every id that an edge may end at, and no edge is added.
pub proof fn lemma_tables_changed_wf(g: GraphView, h: GraphView)
    requires
        g.wf(),
        h.tables_wf(),
        h.user_roles.subset_of(g.user_roles),
        h.role_permissions.subset_of(g.role_permissions),
        h.user_groups.subset_of(g.user_groups),
        forall|e: (u64, u64)| #[trigger] h.user_roles.contains(e) ==> h.has_user(e.0)
            && h.has_role(e.1),
        forall|e: (u64, u64)| #[trigger]
            h.role_permissions.contains(e) ==> h.has_role(e.0) && h.has_permission(e.1),
        forall|e: (u64, u64)| #[trigger]
            h.user_groups.contains(e) ==> h.has_user(e.0) && h.has_group(e.1),
    ensures
        h.wf(),
{
}

/// In a well-formed graph the record with a given id stands at one place only.
pub proof fn lemma_places(g: GraphView)
    requires
        g.tables_wf(),
    ensures
        forall|i: int, id: u64| #[trigger] g.user_at(i, id) ==> g.user_position(id) == i
            && g.has_user(id),
        forall|i: int, id: u64| #[trigger] g.role_at(i, id) ==> g.role_position(id) == i
            && g.has_role(id),
        forall|i: int, id: u64| #[trigger]
            g.permission_at(i, id) ==> g.permission_position(id) == i && g.has_permission(id),
        forall|i: int, id: u64| #[trigger]
            g.group_at(i, id) ==> g.group_position(id) == i && g.has_group(id),
        forall|id: u64| #[trigger] g.has_user(id) ==> g.user_at(g.user_position(id), id),
        forall|id: u64| #[trigger] g.has_role(id) ==> g.role_at(g.role_position(id), id),
        forall|id: u64| #[trigger]
            g.has_permission(id) ==> g.permission_at(g.permission_position(id), id),
        forall|id: u64| #[trigger] g.has_group(id) ==> g.group_at(g.group_position(id), id),
{
    assert forall|i: int, id: u64| #[trigger] g.user_at(i, id) implies g.user_position(id) == i
        && g.has_user(id) by {
        let j = g.user_position(id);
        assert(g.user_at(j, id));
    }
    assert forall|i: int, id: u64| #[trigger] g.role_at(i, id) implies g.role_position(id) == i
        && g.has_role(id) by {
        let j = g.role_position(id);
        assert(g.role_at(j, id));
    }
    assert forall|i: int, id: u64| #[trigger] g.permission_at(i, id) implies g.permission_position(
        id,
    ) == i && g.has_permission(id) by {
        let j = g.permission_position(id);
        assert(g.permission_at(j, id));
    }
    assert forall|i: int, id: u64| #[trigger] g.group_at(i, id) implies g.group_position(id) == i
        && g.has_group(id) by {
        let j = g.group_position(id);
        assert(g.group_at(j, id));
    }
    assert forall|id: u64| #[trigger] g.has_user(id) implies g.user_at(g.user_position(id), id) by {
        let i = choose|i: int| #[trigger] g.user_at(i, id);
        assert(g.user_at(i, id));
    }
    assert forall|id: u64| #[trigger] g.has_role(id) implies g.role_at(g.role_position(id), id) by {
        let i = choose|i: int| #[trigger] g.role_at(i, id);
        assert(g.role_at(i, id));
    }
    assert forall|id: u64| #[trigger] g.has_permission(id) implies g.permission_at(
        g.permission_position(id),
        id,
    ) by {
        let i = choose|i: int| #[trigger] g.permission_at(i, id);
        assert(g.permission_at(i, id));
    }
    assert forall|id: u64| #[trigger] g.has_group(id) implies g.group_at(
        g.group_position(id),
        id,
    ) by {
        let i = choose|i: int| #[trigger] g.group_at(i, id);
        assert(g.group_at(i, id));
    }
}

/// Adding a user whose login is free keeps the graph well formed.
pub proof fn lemma_add_user_wf(g: GraphView, login: Seq<char>, password: Seq<char>)
    requires
        g.wf(),
        !g.login_taken(login),
        g.next_id < u64::MAX,
    ensures
        g.add_user(login, password).wf(),
{
    let h = g.add_user(login, password);
    assert forall|i: int| 0 <= i < g.users.len() implies (#[trigger] g.users[i]).login != login by {}
    assert forall|id: u64| g.has_user(id) implies h.has_user(id) by {
        let i = choose|i: int| #[trigger] g.user_at(i, id);
        assert(h.user_at(i, id));
    }
    lemma_roles_kept(g, h);
    lemma_permissions_kept(g, h);
    lemma_groups_kept(g, h);
    assert(h.tables_wf());
    lemma_tables_changed_wf(g, h);
}

/// Adding a role whose name is free keeps the graph well formed.
pub proof fn lemma_add_role_wf(g: GraphView, name: Seq<char>, title: Seq<char>, now: u64)
    requires
        g.wf(),
        !g.role_name_taken(name),
        g.next_id < u64::MAX,
    ensures
        g.add_role(name, title, now).wf(),
{
    let h = g.add_role(name, title, now);
    assert forall|i: int| 0 <= i < g.roles.len() implies (#[trigger] g.roles[i]).name != name by {}
    assert forall|id: u64| g.has_role(id) implies h.has_role(id) by {
        let i = choose|i: int| #[trigger] g.role_at(i, id);
        assert(h.role_at(i, id));
    }
    lemma_users_kept(g, h);
    lemma_permissions_kept(g, h);
    lemma_groups_kept(g, h);
    assert(h.tables_wf());
    lemma_tables_changed_wf(g, h);
}

/// Adding a permission whose name is free keeps the graph well formed.
pub proof fn lemma_add_permission_wf(g: GraphView, name: Seq<char>)
    requires
        g.wf(),
        !g.permission_name_taken(name),
        g.next_id < u64::MAX,
    ensures
        g.add_permission(name).wf(),
{
    let h = g.add_permission(name);
    assert forall|i: int| 0 <= i < g.permissions.len() implies (#[trigger] g.permissions[i]).name != name by {}
    assert forall|id: u64| g.has_permission(id) implies h.has_permission(id) by {
        let i = choose|i: int| #[trigger] g.permission_at(i, id);
        assert(h.permission_at(i, id));
    }
    lemma_users_kept(g, h);
    lemma_roles_kept(g, h);
    lemma_groups_kept(g, h);
    assert(h.tables_wf());
    lemma_tables_changed_wf(g, h);
}

/// Adding a group whose slug is free keeps the graph well formed.
pub proof fn lemma_add_group_wf(g: GraphView, slug: Seq<char>, title: Seq<char>, author: Seq<char>, now: u64)
    requires
        g.wf(),
        !g.group_slug_taken(slug),
        g.next_id < u64::MAX,
    ensures
        g.add_group(slug, title, author, now).wf(),
{
    let h = g.add_group(slug, title, author, now);
    assert forall|i: int| 0 <= i < g.groups.len() implies (#[trigger] g.groups[i]).slug != slug by {}
    assert forall|id: u64| g.has_group(id) implies h.has_group(id) by {
        let i = choose|i: int| #[trigger] g.group_at(i, id);
        assert(h.group_at(i, id));
    }
    lemma_users_kept(g, h);
    lemma_roles_kept(g, h);
    lemma_permissions_kept(g, h);
    assert(h.tables_wf());
    lemma_tables_changed_wf(g, h);
}

/// Deleting a user with its edges keeps the graph well formed: no edge is left that starts at it.
pub proof fn lemma_delete_user_wf(g: GraphView, id: u64)
    requires
        g.wf(),
    ensures
        g.delete_user(id).wf(),
        !g.delete_user(id).has_user(id),
        forall|other: u64| other != id ==> g.has_user(other) == g.delete_user(id).has_user(other),
{
    let h = g.delete_user(id);
    lemma_places(g);
    lemma_roles_kept(g, h);
    lemma_permissions_kept(g, h);
    lemma_groups_kept(g, h);
    if g.has_user(id) {
        let p = g.user_position(id);
        assert(g.user_at(p, id));
        assert forall|j: int| 0 <= j < h.users.len() implies #[trigger] h.users[j] == g.users[if j < p {
            j
        } else {
            j + 1
        }] by {}
        assert forall|other: u64| other != id && g.has_user(other) implies h.has_user(other) by {
            let i = g.user_position(other);
            assert(g.user_at(i, other));
            if i < p {
                assert(h.user_at(i, other));
            } else {
                assert(h.user_at(i - 1, other));
            }
        }
        assert forall|other: u64| h.has_user(other) implies other != id && g.has_user(other) by {
            let j = choose|j: int| #[trigger] h.user_at(j, other);
            let i = if j < p { j } else { j + 1 };
            assert(h.users[j] == g.users[i]);
            assert(g.user_at(i, other));
        }
        assert(h.tables_wf()) by {
            assert forall|i: int, j: int| 0 <= i < j < h.users.len() implies (#[trigger] h.users[i]).id != (
            #[trigger] h.users[j]).id by {
                let a = if i < p { i } else { i + 1 };
                let b = if j < p { j } else { j + 1 };
                assert(h.users[i] == g.users[a]);
                assert(h.users[j] == g.users[b]);
            }
        }
    } else {
        lemma_users_kept(g, h);
        assert(h.tables_wf());
    }
    lemma_tables_changed_wf(g, h);
}

/// Deleting a role with its edges keeps the graph well formed: no edge is left that starts or ends at it.
pub proof fn lemma_delete_role_wf(g: GraphView, id: u64)
    requires
        g.wf(),
    ensures
        g.delete_role(id).wf(),
        !g.delete_role(id).has_role(id),
        forall|other: u64| other != id ==> g.has_role(other) == g.delete_role(id).has_role(other),
{
    let h = g.delete_role(id);
    lemma_places(g);
    lemma_users_kept(g, h);
    lemma_permissions_kept(g, h);
    lemma_groups_kept(g, h);
    if g.has_role(id) {
        let p = g.role_position(id);
        assert(g.role_at(p, id));
        assert forall|j: int| 0 <= j < h.roles.len() implies #[trigger] h.roles[j] == g.roles[if j < p {
            j
        } else {
            j + 1
        }] by {}
        assert forall|other: u64| other != id && g.has_role(other) implies h.has_role(other) by {
            let i = g.role_position(other);
            assert(g.role_at(i, other));
            if i < p {
                assert(h.role_at(i, other));
            } else {
                assert(h.role_at(i - 1, other));
            }
        }
        assert forall|other: u64| h.has_role(other) implies other != id && g.has_role(other) by {
            let j = choose|j: int| #[trigger] h.role_at(j, other);
            let i = if j < p { j } else { j + 1 };
            assert(h.roles[j] == g.roles[i]);
            assert(g.role_at(i, other));
        }
        assert(h.tables_wf()) by {
            assert forall|i: int, j: int| 0 <= i < j < h.roles.len() implies (#[trigger] h.roles[i]).id != (
            #[trigger] h.roles[j]).id by {
                let a = if i < p { i } else { i + 1 };
                let b = if j < p { j } else { j + 1 };
                assert(h.roles[i] == g.roles[a]);
                assert(h.roles[j] == g.roles[b]);
            }
        }
    } else {
        lemma_roles_kept(g, h);
        assert(h.tables_wf());
    }
    lemma_tables_changed_wf(g, h);
}

/// Deleting a permission with its edges keeps the graph well formed: no edge is left that ends at it.
pub proof fn lemma_delete_permission_wf(g: GraphView, id: u64)
    requires
        g.wf(),
    ensures
        g.delete_permission(id).wf(),
        !g.delete_permission(id).has_permission(id),
        forall|other: u64| other != id ==> g.has_permission(other) == g.delete_permission(id).has_permission(other),
{
    let h = g.delete_permission(id);
    lemma_places(g);
    lemma_users_kept(g, h);
    lemma_roles_kept(g, h);
    lemma_groups_kept(g, h);
    if g.has_permission(id) {
        let p = g.permission_position(id);
        assert(g.permission_at(p, id));
        assert forall|j: int| 0 <= j < h.permissions.len() implies #[trigger] h.permissions[j] == g.permissions[if j < p {
            j
        } else {
            j + 1
        }] by {}
        assert forall|other: u64| other != id
            && g.has_permission(other) implies h.has_permission(other) by {
            let i = g.permission_position(other);
            assert(g.permission_at(i, other));
            if i < p {
                assert(h.permission_at(i, other));
            } else {
                assert(h.permission_at(i - 1, other));
            }
        }
        assert forall|other: u64| h.has_permission(other) implies other != id
            && g.has_permission(other) by {
            let j = choose|j: int| #[trigger] h.permission_at(j, other);
            let i = if j < p { j } else { j + 1 };
            assert(h.permissions[j] == g.permissions[i]);
            assert(g.permission_at(i, other));
        }
        assert(h.tables_wf()) by {
            assert forall|i: int, j: int| 0 <= i < j < h.permissions.len() implies (#[trigger] h.permissions[i]).id != (
            #[trigger] h.permissions[j]).id by {
                let a = if i < p { i } else { i + 1 };
                let b = if j < p { j } else { j + 1 };
                assert(h.permissions[i] == g.permissions[a]);
                assert(h.permissions[j] == g.permissions[b]);
            }
        }
    } else {
        lemma_permissions_kept(g, h);
        assert(h.tables_wf());
    }
    lemma_tables_changed_wf(g, h);
}

/// Deleting a group with its edges keeps the graph well formed: no edge is left that ends at it.
pub proof fn lemma_delete_group_wf(g: GraphView, id: u64)
    requires
        g.wf(),
    ensures
        g.delete_group(id).wf(),
        !g.delete_group(id).has_group(id),
        forall|other: u64| other != id ==> g.has_group(other) == g.delete_group(id).has_group(other),
{
    let h = g.delete_group(id);
    lemma_places(g);
    lemma_users_kept(g, h);
    lemma_roles_kept(g, h);
    lemma_permissions_kept(g, h);
    if g.has_group(id) {
        let p = g.group_position(id);
        assert(g.group_at(p, id));
        assert forall|j: int| 0 <= j < h.groups.len() implies #[trigger] h.groups[j] == g.groups[if j < p {
            j
        } else {
            j + 1
        }] by {}
        assert forall|other: u64| other != id && g.has_group(other) implies h.has_group(other) by {
            let i = g.group_position(other);
            assert(g.group_at(i, other));
            if i < p {
                assert(h.group_at(i, other));
            } else {
                assert(h.group_at(i - 1, other));
            }
        }
        assert forall|other: u64| h.has_group(other) implies other != id && g.has_group(other) by {
            let j = choose|j: int| #[trigger] h.group_at(j, other);
            let i = if j < p { j } else { j + 1 };
            assert(h.groups[j] == g.groups[i]);
            assert(g.group_at(i, other));
        }
        assert(h.tables_wf()) by {
            assert forall|i: int, j: int| 0 <= i < j < h.groups.len() implies (#[trigger] h.groups[i]).id != (
            #[trigger] h.groups[j]).id by {
                let a = if i < p { i } else { i + 1 };
                let b = if j < p { j } else { j + 1 };
                assert(h.groups[i] == g.groups[a]);
                assert(h.groups[j] == g.groups[b]);
            }
        }
    } else {
        lemma_groups_kept(g, h);
        assert(h.tables_wf());
    }
    lemma_tables_changed_wf(g, h);
}

/// Giving a user a login that no other user has keeps the graph well formed.
pub proof fn lemma_rename_user_wf(g: GraphView, id: u64, login: Seq<char>)
    requires
        g.wf(),
        g.has_user(id),
        !g.login_taken_by_other(id, login),
    ensures
        g.rename_user(id, login).wf(),
        forall|other: u64| g.has_user(other) == g.rename_user(id, login).has_user(other),
        forall|other: u64| g.has_role(other) == g.rename_user(id, login).has_role(other),
        forall|other: u64| g.has_permission(other) == g.rename_user(id, login).has_permission(other),
        forall|other: u64| g.has_group(other) == g.rename_user(id, login).has_group(other),
{
    let h = g.rename_user(id, login);
    lemma_places(g);
    let p = g.user_position(id);
    assert(g.user_at(p, id));
    assert forall|j: int| 0 <= j < h.users.len() implies (#[trigger] h.users[j]).id == g.users[j].id by {}
    assert forall|j: int| 0 <= j < g.users.len()
        && j != p implies (#[trigger] g.users[j]).login != login by {}
    assert forall|other: u64| g.has_user(other) == h.has_user(other) by {
        if g.has_user(other) {
            let i = choose|i: int| #[trigger] g.user_at(i, other);
            assert(h.user_at(i, other));
        }
        if h.has_user(other) {
            let i = choose|i: int| #[trigger] h.user_at(i, other);
            assert(g.user_at(i, other));
        }
    }
    lemma_roles_kept(g, h);
    lemma_permissions_kept(g, h);
    lemma_groups_kept(g, h);
    assert(h.tables_wf());
    lemma_tables_changed_wf(g, h);
}

/// Blocking or unblocking a user keeps the graph well formed.
pub proof fn lemma_set_blocked_wf(g: GraphView, id: u64, blocked: bool)
    requires
        g.wf(),
        g.has_user(id),
    ensures
        g.set_blocked(id, blocked).wf(),
        forall|other: u64| g.has_user(other) == g.set_blocked(id, blocked).has_user(other),
        forall|other: u64| g.has_role(other) == g.set_blocked(id, blocked).has_role(other),
        forall|other: u64| g.has_permission(other) == g.set_blocked(id, blocked).has_permission(other),
        forall|other: u64| g.has_group(other) == g.set_blocked(id, blocked).has_group(other),
{
    let h = g.set_blocked(id, blocked);
    lemma_places(g);
    let p = g.user_position(id);
    assert(g.user_at(p, id));
    assert forall|j: int| 0 <= j < h.users.len() implies (#[trigger] h.users[j]).id == g.users[j].id by {}
    assert forall|other: u64| g.has_user(other) == h.has_user(other) by {
        if g.has_user(other) {
            let i = choose|i: int| #[trigger] g.user_at(i, other);
            assert(h.user_at(i, other));
        }
        if h.has_user(other) {
            let i = choose|i: int| #[trigger] h.user_at(i, other);
            assert(g.user_at(i, other));
        }
    }
    lemma_roles_kept(g, h);
    lemma_permissions_kept(g, h);
    lemma_groups_kept(g, h);
    assert(h.tables_wf());
    lemma_tables_changed_wf(g, h);
}

/// Giving a role a name that no other role has keeps the graph well formed.
pub proof fn lemma_update_role_wf(g: GraphView, id: u64, name: Seq<char>, title: Seq<char>, now: u64)
    requires
        g.wf(),
        g.has_role(id),
        !g.role_name_taken_by_other(id, name),
    ensures
        g.update_role(id, name, title, now).wf(),
        forall|other: u64| g.has_user(other) == g.update_role(id, name, title, now).has_user(other),
        forall|other: u64| g.has_role(other) == g.update_role(id, name, title, now).has_role(other),
        forall|other: u64| g.has_permission(other) == g.update_role(id, name, title, now).has_permission(other),
        forall|other: u64| g.has_group(other) == g.update_role(id, name, title, now).has_group(other),
{
    let h = g.update_role(id, name, title, now);
    lemma_places(g);
    let p = g.role_position(id);
    assert(g.role_at(p, id));
    assert forall|j: int| 0 <= j < h.roles.len() implies (#[trigger] h.roles[j]).id == g.roles[j].id by {}
    assert forall|j: int| 0 <= j < g.roles.len()
        && j != p implies (#[trigger] g.roles[j]).name != name by {}
    assert forall|other: u64| g.has_role(other) == h.has_role(other) by {
        if g.has_role(other) {
            let i = choose|i: int| #[trigger] g.role_at(i, other);
            assert(h.role_at(i, other));
        }
        if h.has_role(other) {
            let i = choose|i: int| #[trigger] h.role_at(i, other);
            assert(g.role_at(i, other));
        }
    }
    lemma_users_kept(g, h);
    lemma_permissions_kept(g, h);
    lemma_groups_kept(g, h);
    assert(h.tables_wf());
    lemma_tables_changed_wf(g, h);
}

/// Retitling a group keeps the graph well formed.
pub proof fn lemma_update_group_wf(g: GraphView, id: u64, title: Seq<char>, author: Seq<char>, now: u64)
    requires
        g.wf(),
        g.has_group(id),
    ensures
        g.update_group(id, title, author, now).wf(),
        forall|other: u64| g.has_user(other) == g.update_group(id, title, author, now).has_user(other),
        forall|other: u64| g.has_role(other) == g.update_group(id, title, author, now).has_role(other),
        forall|other: u64| g.has_permission(other) == g.update_group(id, title, author, now).has_permission(other),
        forall|other: u64| g.has_group(other) == g.update_group(id, title, author, now).has_group(other),
{
    let h = g.update_group(id, title, author, now);
    lemma_places(g);
    let p = g.group_position(id);
    assert(g.group_at(p, id));
    assert forall|j: int| 0 <= j < h.groups.len() implies (#[trigger] h.groups[j]).id == g.groups[j].id by {}
    assert forall|other: u64| g.has_group(other) == h.has_group(other) by {
        if g.has_group(other) {
            let i = choose|i: int| #[trigger] g.group_at(i, other);
            assert(h.group_at(i, other));
        }
        if h.has_group(other) {
            let i = choose|i: int| #[trigger] h.group_at(i, other);
            assert(g.group_at(i, other));
        }
    }
    lemma_users_kept(g, h);
    lemma_roles_kept(g, h);
    lemma_permissions_kept(g, h);
    assert(h.tables_wf());
    lemma_tables_changed_wf(g, h);
}

/// In a well-formed graph a role is found by its name.
pub proof fn lemma_role_id_named(g: GraphView, i: int)
    requires
        g.tables_wf(),
        0 <= i < g.roles.len(),
    ensures
        g.role_id_named(g.roles[i].name) == g.roles[i].id,
        g.role_name_taken(g.roles[i].name),
        g.has_role(g.roles[i].id),
{
    let j = role_place_named(g.roles, g.roles[i].name);
    assert(g.roles[j].name == g.roles[i].name);
    assert(g.role_at(i, g.roles[i].id));
}

} // verus!
