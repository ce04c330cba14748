//! The access graph in memory: the tables, the edges, and every operation on
//! them, each stated against `GraphView`.

use vstd::prelude::*;
use crate::edges::EdgeSet;
use crate::error::DbError;
use crate::graph_view::{
    group_place_named, user_place_named,
    lemma_add_group_wf, lemma_add_permission_wf, lemma_add_role_wf, lemma_add_user_wf,
    lemma_delete_group_wf, lemma_delete_permission_wf, lemma_delete_role_wf, lemma_delete_user_wf,
    lemma_edges_changed_wf, lemma_places, lemma_rename_user_wf, lemma_role_id_named,
    lemma_same_tables, lemma_set_blocked_wf,
    lemma_update_group_wf, lemma_update_role_wf, GraphView,
};
use crate::model::{
    GroupModel, GroupUpdateModel, PermissionModel, RoleModel, RoleUpdateModel, UserModel,
    UserUpdateModel,
};
use crate::text::{ascending, insert_ascending, same_text};

verus! {

/// Users, roles, permissions and groups, and the edges between them.
pub struct AuthorizationGraph {
    users: Vec<UserModel>,
    roles: Vec<RoleModel>,
    permissions: Vec<PermissionModel>,
    groups: Vec<GroupModel>,
    user_roles: EdgeSet,
    role_permissions: EdgeSet,
    user_groups: EdgeSet,
    next_id: u64,
}

impl View for AuthorizationGraph {
    type V = GraphView;

    closed spec fn view(&self) -> GraphView {
        GraphView {
            users: self.users@.map_values(|m: UserModel| m@),
            roles: self.roles@.map_values(|m: RoleModel| m@),
            permissions: self.permissions@.map_values(|m: PermissionModel| m@),
            groups: self.groups@.map_values(|m: GroupModel| m@),
            user_roles: self.user_roles@,
            role_permissions: self.role_permissions@,
            user_groups: self.user_groups@,
            next_id: self.next_id,
        }
    }
}

impl AuthorizationGraph {
    /// The invariant that every operation keeps.
    pub open spec fn wf(&self) -> bool {
        self@.wf()
    }

    /// The empty graph.
    pub fn new() -> (g: Self)
        ensures
            g.wf(),
            g@ == GraphView::empty(),
    {
        let g = AuthorizationGraph {
            users: Vec::new(),
            roles: Vec::new(),
            permissions: Vec::new(),
            groups: Vec::new(),
            user_roles: EdgeSet::new(),
            role_permissions: EdgeSet::new(),
            user_groups: EdgeSet::new(),
            next_id: 1,
        };
        proof {
            assert(g@.users =~= Seq::empty());
            assert(g@.roles =~= Seq::empty());
            assert(g@.permissions =~= Seq::empty());
            assert(g@.groups =~= Seq::empty());
        }
        g
    }

    fn user_index(&self, id: u64) -> (r: Option<usize>)
        requires
            self.wf(),
        ensures
            match r {
                Some(i) => self@.user_at(i as int, id) && self@.user_position(id) == i
                    && self@.has_user(id),
                None => !self@.has_user(id),
            },
    {
        let mut i: usize = 0;
        while i < self.users.len()
            invariant
                i <= self.users.len(),
                self.wf(),
                forall|k: int| 0 <= k < i ==> !self@.user_at(k, id),
            decreases self.users.len() - i,
        {
            if self.users[i].id == id {
                proof {
                    assert(self@.user_at(i as int, id));
                    let j = self@.user_position(id);
                    assert(self@.user_at(j, id));
                }
                return Some(i);
            }
            i += 1;
        }
        None
    }

    fn role_index(&self, id: u64) -> (r: Option<usize>)
        requires
            self.wf(),
        ensures
            match r {
                Some(i) => self@.role_at(i as int, id) && self@.role_position(id) == i
                    && self@.has_role(id),
                None => !self@.has_role(id),
            },
    {
        let mut i: usize = 0;
        while i < self.roles.len()
            invariant
                i <= self.roles.len(),
                self.wf(),
                forall|k: int| 0 <= k < i ==> !self@.role_at(k, id),
            decreases self.roles.len() - i,
        {
            if self.roles[i].id == id {
                proof {
                    assert(self@.role_at(i as int, id));
                    let j = self@.role_position(id);
                    assert(self@.role_at(j, id));
                }
                return Some(i);
            }
            i += 1;
        }
        None
    }

    fn permission_index(&self, id: u64) -> (r: Option<usize>)
        requires
            self.wf(),
        ensures
            match r {
                Some(i) => self@.permission_at(i as int, id) && self@.permission_position(id) == i
                    && self@.has_permission(id),
                None => !self@.has_permission(id),
            },
    {
        let mut i: usize = 0;
        while i < self.permissions.len()
            invariant
                i <= self.permissions.len(),
                self.wf(),
                forall|k: int| 0 <= k < i ==> !self@.permission_at(k, id),
            decreases self.permissions.len() - i,
        {
            if self.permissions[i].id == id {
                proof {
                    assert(self@.permission_at(i as int, id));
                    let j = self@.permission_position(id);
                    assert(self@.permission_at(j, id));
                }
                return Some(i);
            }
            i += 1;
        }
        None
    }

    fn group_index(&self, id: u64) -> (r: Option<usize>)
        requires
            self.wf(),
        ensures
            match r {
                Some(i) => self@.group_at(i as int, id) && self@.group_position(id) == i
                    && self@.has_group(id),
                None => !self@.has_group(id),
            },
    {
        let mut i: usize = 0;
        while i < self.groups.len()
            invariant
                i <= self.groups.len(),
                self.wf(),
                forall|k: int| 0 <= k < i ==> !self@.group_at(k, id),
            decreases self.groups.len() - i,
        {
            if self.groups[i].id == id {
                proof {
                    assert(self@.group_at(i as int, id));
                    let j = self@.group_position(id);
                    assert(self@.group_at(j, id));
                }
                return Some(i);
            }
            i += 1;
        }
        None
    }

    /// Adds to `names`, each at its place, the names of the permissions
    /// granted to `role`.
    fn collect_role_permissions(&self, role: u64, names: &mut Vec<String>)
        requires
            self.wf(),
            ascending(old(names).deep_view()),
        ensures
            ascending(final(names).deep_view()),
            final(names).deep_view().to_set() == old(names).deep_view().to_set().union(
                self@.role_permission_names(role),
            ),
    {
        let ids = self.role_permissions.targets(role);
        let ghost start = names.deep_view().to_set();
        let mut k: usize = 0;
        while k < ids.len()
            invariant
                k <= ids.len(),
                self.wf(),
                ascending(names.deep_view()),
                start == old(names).deep_view().to_set(),
                forall|n: Seq<char>|
                    #![trigger names.deep_view().to_set().contains(n)]
                    names.deep_view().to_set().contains(n) <==> (start.contains(n) || exists|
                        j: int,
                    |
                        0 <= j < k && #[trigger] self@.permission_named(ids@[j], n)),
            decreases ids.len() - k,
        {
            let ghost before = names.deep_view().to_set();
            match self.permission_index(ids[k]) {
                Some(i) => {
                    let name = self.permissions[i].name.clone();
                    insert_ascending(names, name);
                    proof {
                        assert(self@.permission_named(ids@[k as int], name@));
                        let after = names.deep_view().to_set();
                        assert(after == before.insert(name@));
                        assert forall|n: Seq<char>|
                            after.contains(n) <==> (start.contains(n) || exists|j: int|
                                0 <= j < k + 1
                                    && #[trigger] self@.permission_named(ids@[j], n)) by {
                            if after.contains(n) {
                                if n == name@ {
                                    assert(0 <= k < k + 1 && self@.permission_named(
                                        ids@[k as int],
                                        n,
                                    ));
                                } else {
                                    assert(before.contains(n));
                                    if !start.contains(n) {
                                        let j = choose|j: int|
                                            0 <= j < k && #[trigger] self@.permission_named(
                                                ids@[j],
                                                n,
                                            );
                                        assert(0 <= j < k + 1 && self@.permission_named(
                                            ids@[j],
                                            n,
                                        ));
                                    }
                                }
                            }
                            if start.contains(n) {
                                assert(before.contains(n));
                            }
                            if exists|j: int|
                                0 <= j < k + 1 && #[trigger] self@.permission_named(ids@[j], n) {
                                let j = choose|j: int|
                                    0 <= j < k + 1 && #[trigger] self@.permission_named(ids@[j], n);
                                if j < k {
                                    assert(before.contains(n));
                                } else {
                                    assert(n == name@);
                                }
                            }
                        }
                    }
                },
                None => {
                    proof {
                        assert forall|n: Seq<char>|
                            before.contains(n) <==> (start.contains(n) || exists|j: int|
                                0 <= j < k + 1
                                    && #[trigger] self@.permission_named(ids@[j], n)) by {
                            if before.contains(n) && !start.contains(n) {
                                let j = choose|j: int|
                                    0 <= j < k && #[trigger] self@.permission_named(ids@[j], n);
                                assert(0 <= j < k + 1 && self@.permission_named(ids@[j], n));
                            }
                            if exists|j: int|
                                0 <= j < k + 1 && #[trigger] self@.permission_named(ids@[j], n) {
                                let j = choose|j: int|
                                    0 <= j < k + 1 && #[trigger] self@.permission_named(ids@[j], n);
                                if j < k {
                                    assert(0 <= j < k && self@.permission_named(ids@[j], n));
                                    assert(names.deep_view().to_set().contains(n));
                                } else {
                                    assert(!self@.has_permission(ids@[k as int]));
                                }
                            }
                        }
                    }
                },
            }
            k += 1;
        }
        proof {
            let g = self@;
            assert forall|n: Seq<char>|
                (exists|j: int| 0 <= j < ids@.len() && #[trigger] g.permission_named(ids@[j], n))
                    <==> g.role_permission_names(role).contains(n) by {
                if exists|j: int| 0 <= j < ids@.len() && #[trigger] g.permission_named(ids@[j], n) {
                    let j = choose|j: int|
                        0 <= j < ids@.len() && #[trigger] g.permission_named(ids@[j], n);
                    assert(ids@.contains(ids@[j]));
                    assert(ids@.to_set().contains(ids@[j]));
                    assert(g.role_grants(role, ids@[j], n));
                }
                if g.role_permission_names(role).contains(n) {
                    let p = choose|p: u64| #[trigger] g.role_grants(role, p, n);
                    assert(ids@.to_set().contains(p));
                    assert(ids@.contains(p));
                    let j = choose|j: int| 0 <= j < ids@.len() && ids@[j] == p;
                    assert(g.permission_named(ids@[j], n));
                }
            }
            assert(names.deep_view().to_set() =~= start.union(g.role_permission_names(role)));
        }
    }

    /// The names of the permissions granted to a role, in ascending order.
    /// A role that is not in the graph has none.
    pub fn permissions_of_role(&self, role: u64) -> (names: Vec<String>)
        requires
            self.wf(),
        ensures
            ascending(names.deep_view()),
            names.deep_view().to_set() == self@.role_permission_names(role),
    {
        let mut names: Vec<String> = Vec::new();
        assert(names.deep_view().to_set() =~= Set::<Seq<char>>::empty());
        self.collect_role_permissions(role, &mut names);
        assert(names.deep_view().to_set() =~= self@.role_permission_names(role));
        names
    }

    /// The effective permissions of a user, in ascending order and each once:
    /// the names of the permissions of all its roles.
    pub fn effective_permissions(&self, user: u64) -> (r: Result<Vec<String>, DbError>)
        requires
            self.wf(),
        ensures
            match r {
                Ok(names) => self@.has_user(user) && ascending(names.deep_view())
                    && names.deep_view().to_set() == self@.effective_permissions(user),
                Err(e) => e == DbError::EntryNotFound && !self@.has_user(user),
            },
    {
        if self.user_index(user).is_none() {
            return Err(DbError::EntryNotFound);
        }
        let ids = self.user_roles.targets(user);
        let mut names: Vec<String> = Vec::new();
        assert(names.deep_view().to_set() =~= Set::<Seq<char>>::empty());
        let mut k: usize = 0;
        while k < ids.len()
            invariant
                k <= ids.len(),
                self.wf(),
                ascending(names.deep_view()),
                forall|n: Seq<char>|
                    #![trigger names.deep_view().to_set().contains(n)]
                    names.deep_view().to_set().contains(n) <==> exists|j: int|
                        0 <= j < k && #[trigger] self@.role_permission_names(ids@[j]).contains(n),
            decreases ids.len() - k,
        {
            let ghost before = names.deep_view().to_set();
            self.collect_role_permissions(ids[k], &mut names);
            proof {
                assert forall|n: Seq<char>|
                    names.deep_view().to_set().contains(n) <==> exists|j: int|
                        0 <= j < k + 1 && #[trigger] self@.role_permission_names(ids@[j]).contains(
                            n,
                        ) by {
                    if before.contains(n) {
                        let j = choose|j: int|
                            0 <= j < k && #[trigger] self@.role_permission_names(ids@[j]).contains(
                                n,
                            );
                        assert(0 <= j < k + 1 && self@.role_permission_names(ids@[j]).contains(n));
                    }
                    if self@.role_permission_names(ids@[k as int]).contains(n) {
                        assert(0 <= k < k + 1 && self@.role_permission_names(
                            ids@[k as int],
                        ).contains(n));
                    }
                }
            }
            k += 1;
        }
        proof {
            let g = self@;
            assert forall|n: Seq<char>|
                names.deep_view().to_set().contains(n) <==> g.effective_permissions(user).contains(
                    n,
                ) by {
                if names.deep_view().to_set().contains(n) {
                    let j = choose|j: int|
                        0 <= j < ids@.len() && #[trigger] g.role_permission_names(ids@[j]).contains(
                            n,
                        );
                    assert(ids@.contains(ids@[j]));
                    assert(ids@.to_set().contains(ids@[j]));
                    assert(g.user_gets(user, ids@[j], n));
                }
                if g.effective_permissions(user).contains(n) {
                    let r = choose|r: u64| #[trigger] g.user_gets(user, r, n);
                    assert(ids@.to_set().contains(r));
                    assert(ids@.contains(r));
                    let j = choose|j: int| 0 <= j < ids@.len() && ids@[j] == r;
                    assert(g.role_permission_names(ids@[j]).contains(n));
                }
            }
            assert(names.deep_view().to_set() =~= g.effective_permissions(user));
        }
        Ok(names)
    }

    /// The effective roles of a user, in ascending order and each once: the
    /// names of the roles it is assigned.
    pub fn effective_roles(&self, user: u64) -> (r: Result<Vec<String>, DbError>)
        requires
            self.wf(),
        ensures
            match r {
                Ok(names) => self@.has_user(user) && ascending(names.deep_view())
                    && names.deep_view().to_set() == self@.effective_roles(user),
                Err(e) => e == DbError::EntryNotFound && !self@.has_user(user),
            },
    {
        if self.user_index(user).is_none() {
            return Err(DbError::EntryNotFound);
        }
        let ids = self.user_roles.targets(user);
        let mut names: Vec<String> = Vec::new();
        assert(names.deep_view().to_set() =~= Set::<Seq<char>>::empty());
        let mut k: usize = 0;
        while k < ids.len()
            invariant
                k <= ids.len(),
                self.wf(),
                ascending(names.deep_view()),
                forall|n: Seq<char>|
                    #![trigger names.deep_view().to_set().contains(n)]
                    names.deep_view().to_set().contains(n) <==> exists|j: int|
                        0 <= j < k && #[trigger] self@.role_named(ids@[j], n),
            decreases ids.len() - k,
        {
            let ghost before = names.deep_view().to_set();
            match self.role_index(ids[k]) {
                Some(i) => {
                    let name = self.roles[i].name.clone();
                    insert_ascending(&mut names, name);
                    proof {
                        let after = names.deep_view().to_set();
                        assert(after == before.insert(name@));
                        assert(self@.role_named(ids@[k as int], name@));
                        assert forall|n: Seq<char>|
                            after.contains(n) <==> exists|j: int|
                                0 <= j < k + 1 && #[trigger] self@.role_named(ids@[j], n) by {
                            if after.contains(n) {
                                if n == name@ {
                                    assert(0 <= k < k + 1 && self@.role_named(ids@[k as int], n));
                                } else {
                                    assert(before.contains(n));
                                    let j = choose|j: int|
                                        0 <= j < k && #[trigger] self@.role_named(ids@[j], n);
                                    assert(0 <= j < k + 1 && self@.role_named(ids@[j], n));
                                }
                            }
                            if exists|j: int| 0 <= j < k + 1
                                && #[trigger] self@.role_named(ids@[j], n) {
                                let j = choose|j: int|
                                    0 <= j < k + 1 && #[trigger] self@.role_named(ids@[j], n);
                                if j < k {
                                    assert(0 <= j < k && self@.role_named(ids@[j], n));
                                    assert(before.contains(n));
                                } else {
                                    assert(n == name@);
                                }
                            }
                        }
                    }
                },
                None => {
                    proof {
                        assert forall|n: Seq<char>|
                            before.contains(n) <==> exists|j: int|
                                0 <= j < k + 1 && #[trigger] self@.role_named(ids@[j], n) by {
                            if before.contains(n) {
                                let j = choose|j: int|
                                    0 <= j < k && #[trigger] self@.role_named(ids@[j], n);
                                assert(0 <= j < k + 1 && self@.role_named(ids@[j], n));
                            }
                            if exists|j: int| 0 <= j < k + 1
                                && #[trigger] self@.role_named(ids@[j], n) {
                                let j = choose|j: int|
                                    0 <= j < k + 1 && #[trigger] self@.role_named(ids@[j], n);
                                if j < k {
                                    assert(0 <= j < k && self@.role_named(ids@[j], n));
                                    assert(names.deep_view().to_set().contains(n));
                                } else {
                                    assert(!self@.has_role(ids@[k as int]));
                                }
                            }
                        }
                    }
                },
            }
            k += 1;
        }
        proof {
            let g = self@;
            assert forall|n: Seq<char>|
                names.deep_view().to_set().contains(n) <==> g.effective_roles(user).contains(n) by {
                if names.deep_view().to_set().contains(n) {
                    let j = choose|j: int| 0 <= j < ids@.len()
                        && #[trigger] g.role_named(ids@[j], n);
                    assert(ids@.contains(ids@[j]));
                    assert(ids@.to_set().contains(ids@[j]));
                    assert(g.user_holds(user, ids@[j], n));
                }
                if g.effective_roles(user).contains(n) {
                    let r = choose|r: u64| #[trigger] g.user_holds(user, r, n);
                    assert(ids@.to_set().contains(r));
                    assert(ids@.contains(r));
                    let j = choose|j: int| 0 <= j < ids@.len() && ids@[j] == r;
                    assert(g.role_named(ids@[j], n));
                }
            }
            assert(names.deep_view().to_set() =~= g.effective_roles(user));
        }
        Ok(names)
    }

    /// The effective groups of a user, in ascending order and each once: the
    /// slugs of the groups it belongs to.
    pub fn effective_groups(&self, user: u64) -> (r: Result<Vec<String>, DbError>)
        requires
            self.wf(),
        ensures
            match r {
                Ok(names) => self@.has_user(user) && ascending(names.deep_view())
                    && names.deep_view().to_set() == self@.effective_groups(user),
                Err(e) => e == DbError::EntryNotFound && !self@.has_user(user),
            },
    {
        if self.user_index(user).is_none() {
            return Err(DbError::EntryNotFound);
        }
        let ids = self.user_groups.targets(user);
        let mut names: Vec<String> = Vec::new();
        assert(names.deep_view().to_set() =~= Set::<Seq<char>>::empty());
        let mut k: usize = 0;
        while k < ids.len()
            invariant
                k <= ids.len(),
                self.wf(),
                ascending(names.deep_view()),
                forall|n: Seq<char>|
                    #![trigger names.deep_view().to_set().contains(n)]
                    names.deep_view().to_set().contains(n) <==> exists|j: int|
                        0 <= j < k && #[trigger] self@.group_named(ids@[j], n),
            decreases ids.len() - k,
        {
            let ghost before = names.deep_view().to_set();
            match self.group_index(ids[k]) {
                Some(i) => {
                    let name = self.groups[i].slug.clone();
                    insert_ascending(&mut names, name);
                    proof {
                        let after = names.deep_view().to_set();
                        assert(after == before.insert(name@));
                        assert(self@.group_named(ids@[k as int], name@));
                        assert forall|n: Seq<char>|
                            after.contains(n) <==> exists|j: int|
                                0 <= j < k + 1 && #[trigger] self@.group_named(ids@[j], n) by {
                            if after.contains(n) {
                                if n == name@ {
                                    assert(0 <= k < k + 1 && self@.group_named(ids@[k as int], n));
                                } else {
                                    assert(before.contains(n));
                                    let j = choose|j: int|
                                        0 <= j < k && #[trigger] self@.group_named(ids@[j], n);
                                    assert(0 <= j < k + 1 && self@.group_named(ids@[j], n));
                                }
                            }
                            if exists|j: int| 0 <= j < k + 1
                                && #[trigger] self@.group_named(ids@[j], n) {
                                let j = choose|j: int|
                                    0 <= j < k + 1 && #[trigger] self@.group_named(ids@[j], n);
                                if j < k {
                                    assert(0 <= j < k && self@.group_named(ids@[j], n));
                                    assert(before.contains(n));
                                } else {
                                    assert(n == name@);
                                }
                            }
                        }
                    }
                },
                None => {
                    proof {
                        assert forall|n: Seq<char>|
                            before.contains(n) <==> exists|j: int|
                                0 <= j < k + 1 && #[trigger] self@.group_named(ids@[j], n) by {
                            if before.contains(n) {
                                let j = choose|j: int|
                                    0 <= j < k && #[trigger] self@.group_named(ids@[j], n);
                                assert(0 <= j < k + 1 && self@.group_named(ids@[j], n));
                            }
                            if exists|j: int| 0 <= j < k + 1
                                && #[trigger] self@.group_named(ids@[j], n) {
                                let j = choose|j: int|
                                    0 <= j < k + 1 && #[trigger] self@.group_named(ids@[j], n);
                                if j < k {
                                    assert(0 <= j < k && self@.group_named(ids@[j], n));
                                    assert(names.deep_view().to_set().contains(n));
                                } else {
                                    assert(!self@.has_group(ids@[k as int]));
                                }
                            }
                        }
                    }
                },
            }
            k += 1;
        }
        proof {
            let g = self@;
            assert forall|n: Seq<char>|
                names.deep_view().to_set().contains(n) <==> g.effective_groups(user).contains(n) by {
                if names.deep_view().to_set().contains(n) {
                    let j = choose|j: int| 0 <= j < ids@.len()
                        && #[trigger] g.group_named(ids@[j], n);
                    assert(ids@.contains(ids@[j]));
                    assert(ids@.to_set().contains(ids@[j]));
                    assert(g.user_joins(user, ids@[j], n));
                }
                if g.effective_groups(user).contains(n) {
                    let r = choose|r: u64| #[trigger] g.user_joins(user, r, n);
                    assert(ids@.to_set().contains(r));
                    assert(ids@.contains(r));
                    let j = choose|j: int| 0 <= j < ids@.len() && ids@[j] == r;
                    assert(g.group_named(ids@[j], n));
                }
            }
            assert(names.deep_view().to_set() =~= g.effective_groups(user));
        }
        Ok(names)
    }

    /// Assigns a role to a user. Fails, and changes nothing, if the user or the
    /// role is not in the graph; assigning a role that is assigned already
    /// succeeds and changes nothing.
    pub fn assign_role(&mut self, user: u64, role: u64) -> (r: Result<(), DbError>)
        requires
            old(self).wf(),
        ensures
            final(self).wf(),
            match r {
                Ok(()) => old(self)@.has_user(user) && old(self)@.has_role(role)
                    && final(self)@ == old(self)@.assign_role(user, role),
                Err(e) => e == DbError::EntryNotFound && !(old(self)@.has_user(user)
                    && old(self)@.has_role(role)) && final(self)@ == old(self)@,
            },
    {
        if self.user_index(user).is_none() || self.role_index(role).is_none() {
            return Err(DbError::EntryNotFound);
        }
        self.user_roles.insert(user, role);
        proof {
            lemma_edges_changed_wf(old(self)@, self@);
        }
        assert(self@ == old(self)@.assign_role(user, role));
        Ok(())
    }

    /// Takes a role from a user. Fails, and changes nothing, if the user or the
    /// role is not in the graph; taking a role that was not assigned succeeds
    /// and changes nothing.
    pub fn unassign_role(&mut self, user: u64, role: u64) -> (r: Result<(), DbError>)
        requires
            old(self).wf(),
        ensures
            final(self).wf(),
            match r {
                Ok(()) => old(self)@.has_user(user) && old(self)@.has_role(role)
                    && final(self)@ == old(self)@.unassign_role(user, role),
                Err(e) => e == DbError::EntryNotFound && !(old(self)@.has_user(user)
                    && old(self)@.has_role(role)) && final(self)@ == old(self)@,
            },
    {
        if self.user_index(user).is_none() || self.role_index(role).is_none() {
            return Err(DbError::EntryNotFound);
        }
        self.user_roles.remove(user, role);
        proof {
            lemma_edges_changed_wf(old(self)@, self@);
        }
        assert(self@ == old(self)@.unassign_role(user, role));
        Ok(())
    }

    /// Grants a permission to a role. Fails, and changes nothing, if the role or
    /// the permission is not in the graph; granting twice is granting once.
    pub fn grant_permission(&mut self, role: u64, permission: u64) -> (r: Result<(), DbError>)
        requires
            old(self).wf(),
        ensures
            final(self).wf(),
            match r {
                Ok(()) => old(self)@.has_role(role) && old(self)@.has_permission(permission)
                    && final(self)@ == old(self)@.grant_permission(role, permission),
                Err(e) => e == DbError::EntryNotFound && !(old(self)@.has_role(role)
                    && old(self)@.has_permission(permission)) && final(self)@ == old(self)@,
            },
    {
        if self.role_index(role).is_none() || self.permission_index(permission).is_none() {
            return Err(DbError::EntryNotFound);
        }
        self.role_permissions.insert(role, permission);
        proof {
            lemma_edges_changed_wf(old(self)@, self@);
        }
        assert(self@ == old(self)@.grant_permission(role, permission));
        Ok(())
    }

    /// Revokes a permission from a role. Fails, and changes nothing, if the role
    /// or the permission is not in the graph; revoking what was not granted
    /// succeeds and changes nothing.
    pub fn revoke_permission(&mut self, role: u64, permission: u64) -> (r: Result<(), DbError>)
        requires
            old(self).wf(),
        ensures
            final(self).wf(),
            match r {
                Ok(()) => old(self)@.has_role(role) && old(self)@.has_permission(permission)
                    && final(self)@ == old(self)@.revoke_permission(role, permission),
                Err(e) => e == DbError::EntryNotFound && !(old(self)@.has_role(role)
                    && old(self)@.has_permission(permission)) && final(self)@ == old(self)@,
            },
    {
        if self.role_index(role).is_none() || self.permission_index(permission).is_none() {
            return Err(DbError::EntryNotFound);
        }
        self.role_permissions.remove(role, permission);
        proof {
            lemma_edges_changed_wf(old(self)@, self@);
        }
        assert(self@ == old(self)@.revoke_permission(role, permission));
        Ok(())
    }

    /// Puts a user in a group. Fails, and changes nothing, if the user or the
    /// group is not in the graph.
    pub fn join_group(&mut self, user: u64, group: u64) -> (r: Result<(), DbError>)
        requires
            old(self).wf(),
        ensures
            final(self).wf(),
            match r {
                Ok(()) => old(self)@.has_user(user) && old(self)@.has_group(group)
                    && final(self)@ == old(self)@.join_group(user, group),
                Err(e) => e == DbError::EntryNotFound && !(old(self)@.has_user(user)
                    && old(self)@.has_group(group)) && final(self)@ == old(self)@,
            },
    {
        if self.user_index(user).is_none() || self.group_index(group).is_none() {
            return Err(DbError::EntryNotFound);
        }
        self.user_groups.insert(user, group);
        proof {
            lemma_edges_changed_wf(old(self)@, self@);
        }
        assert(self@ == old(self)@.join_group(user, group));
        Ok(())
    }

    /// Takes a user out of a group. Fails, and changes nothing, if the user or
    /// the group is not in the graph.
    pub fn leave_group(&mut self, user: u64, group: u64) -> (r: Result<(), DbError>)
        requires
            old(self).wf(),
        ensures
            final(self).wf(),
            match r {
                Ok(()) => old(self)@.has_user(user) && old(self)@.has_group(group)
                    && final(self)@ == old(self)@.leave_group(user, group),
                Err(e) => e == DbError::EntryNotFound && !(old(self)@.has_user(user)
                    && old(self)@.has_group(group)) && final(self)@ == old(self)@,
            },
    {
        if self.user_index(user).is_none() || self.group_index(group).is_none() {
            return Err(DbError::EntryNotFound);
        }
        self.user_groups.remove(user, group);
        proof {
            lemma_edges_changed_wf(old(self)@, self@);
        }
        assert(self@ == old(self)@.leave_group(user, group));
        Ok(())
    }

    /// Removes every permission from a role, so that a list of grants that
    /// follows replaces the old one.
    pub fn drop_all_permissions(&mut self, role: u64)
        requires
            old(self).wf(),
        ensures
            final(self).wf(),
            final(self)@ == old(self)@.drop_all_permissions(role),
    {
        self.role_permissions.remove_matching(Some(role), None);
        proof {
            assert(self@.role_permissions =~= old(self)@.drop_all_permissions(
                role,
            ).role_permissions);
            lemma_edges_changed_wf(old(self)@, self@);
        }
    }

    fn user_index_by_login(&self, login: &str) -> (r: Option<usize>)
        requires
            self.wf(),
        ensures
            match r {
                Some(i) => i < self.users.len() && self@.users[i as int].login == login@
                    && self@.login_taken(login@),
                None => !self@.login_taken(login@),
            },
    {
        let mut i: usize = 0;
        while i < self.users.len()
            invariant
                i <= self.users.len(),
                forall|k: int| 0 <= k < i ==> (#[trigger] self@.users[k]).login != login@,
            decreases self.users.len() - i,
        {
            if same_text(self.users[i].login.as_str(), login) {
                assert(self@.users[i as int].login == login@);
                return Some(i);
            }
            i += 1;
        }
        None
    }

    /// The user with this id.
    pub fn find_user(&self, id: u64) -> (r: Result<UserModel, DbError>)
        requires
            self.wf(),
        ensures
            match r {
                Ok(m) => self@.has_user(id) && m@ == self@.users[self@.user_position(id)],
                Err(e) => e == DbError::EntryNotFound && !self@.has_user(id),
            },
    {
        match self.user_index(id) {
            Some(i) => Ok(self.users[i].duplicate()),
            None => Err(DbError::EntryNotFound),
        }
    }

    /// The user with this login; there is at most one.
    pub fn find_user_by_login(&self, login: &str) -> (r: Result<UserModel, DbError>)
        requires
            self.wf(),
        ensures
            match r {
                Ok(m) => m@.login == login@ && self@.users.contains(m@) && self@.has_user(m.id)
                    && self@.login_taken(login@)
                        && m@ == self@.users[user_place_named(self@.users, login@)],
                Err(e) => e == DbError::EntryNotFound && !self@.login_taken(login@),
            },
    {
        match self.user_index_by_login(login) {
            Some(i) => {
                let m = self.users[i].duplicate();
                proof {
                    let j = user_place_named(self@.users, login@);
                    assert(self@.users[j].login == login@);
                    assert(j == i);
                    assert(self@.users[i as int] == m@);
                    assert(self@.user_at(i as int, m.id));
                }
                Ok(m)
            },
            None => Err(DbError::EntryNotFound),
        }
    }

    fn role_index_by_name(&self, name: &str) -> (r: Option<usize>)
        requires
            self.wf(),
        ensures
            match r {
                Some(i) => i < self.roles.len() && self@.roles[i as int].name == name@
                    && self@.role_name_taken(name@),
                None => !self@.role_name_taken(name@),
            },
    {
        let mut i: usize = 0;
        while i < self.roles.len()
            invariant
                i <= self.roles.len(),
                forall|k: int| 0 <= k < i ==> (#[trigger] self@.roles[k]).name != name@,
            decreases self.roles.len() - i,
        {
            if same_text(self.roles[i].name.as_str(), name) {
                assert(self@.roles[i as int].name == name@);
                return Some(i);
            }
            i += 1;
        }
        None
    }

    /// The role with this id.
    pub fn find_role(&self, id: u64) -> (r: Result<RoleModel, DbError>)
        requires
            self.wf(),
        ensures
            match r {
                Ok(m) => self@.has_role(id) && m@ == self@.roles[self@.role_position(id)],
                Err(e) => e == DbError::EntryNotFound && !self@.has_role(id),
            },
    {
        match self.role_index(id) {
            Some(i) => Ok(self.roles[i].duplicate()),
            None => Err(DbError::EntryNotFound),
        }
    }

    /// The role with this name; there is at most one.
    pub fn find_role_by_name(&self, name: &str) -> (r: Result<RoleModel, DbError>)
        requires
            self.wf(),
        ensures
            match r {
                Ok(m) => m@.name == name@ && self@.roles.contains(m@) && self@.has_role(m.id)
                    && self@.role_name_taken(name@) && m.id == self@.role_id_named(name@) && m@
                    == self@.roles[self@.role_position(m.id)],
                Err(e) => e == DbError::EntryNotFound && !self@.role_name_taken(name@),
            },
    {
        match self.role_index_by_name(name) {
            Some(i) => {
                let m = self.roles[i].duplicate();
                proof {
                    lemma_role_id_named(self@, i as int);
                    lemma_places(self@);
                    assert(self@.roles[i as int] == m@);
                    assert(self@.role_at(i as int, m.id));
                }
                Ok(m)
            },
            None => Err(DbError::EntryNotFound),
        }
    }

    fn permission_index_by_name(&self, name: &str) -> (r: Option<usize>)
        requires
            self.wf(),
        ensures
            match r {
                Some(i) => i < self.permissions.len() && self@.permissions[i as int].name == name@
                    && self@.permission_name_taken(name@),
                None => !self@.permission_name_taken(name@),
            },
    {
        let mut i: usize = 0;
        while i < self.permissions.len()
            invariant
                i <= self.permissions.len(),
                forall|k: int| 0 <= k < i ==> (#[trigger] self@.permissions[k]).name != name@,
            decreases self.permissions.len() - i,
        {
            if same_text(self.permissions[i].name.as_str(), name) {
                assert(self@.permissions[i as int].name == name@);
                return Some(i);
            }
            i += 1;
        }
        None
    }

    /// The permission with this id.
    pub fn find_permission(&self, id: u64) -> (r: Result<PermissionModel, DbError>)
        requires
            self.wf(),
        ensures
            match r {
                Ok(m) => self@.has_permission(id)
                    && m@ == self@.permissions[self@.permission_position(id)],
                Err(e) => e == DbError::EntryNotFound && !self@.has_permission(id),
            },
    {
        match self.permission_index(id) {
            Some(i) => Ok(self.permissions[i].duplicate()),
            None => Err(DbError::EntryNotFound),
        }
    }

    /// The permission with this name; there is at most one.
    pub fn find_permission_by_name(&self, name: &str) -> (r: Result<PermissionModel, DbError>)
        requires
            self.wf(),
        ensures
            match r {
                Ok(m) => m@.name == name@ && self@.permissions.contains(m@)
                    && self@.has_permission(m.id),
                Err(e) => e == DbError::EntryNotFound && !self@.permission_name_taken(name@),
            },
    {
        match self.permission_index_by_name(name) {
            Some(i) => {
                let m = self.permissions[i].duplicate();
                proof {
                    assert(self@.permissions[i as int] == m@);
                    assert(self@.permission_at(i as int, m.id));
                }
                Ok(m)
            },
            None => Err(DbError::EntryNotFound),
        }
    }

    fn group_index_by_slug(&self, slug: &str) -> (r: Option<usize>)
        requires
            self.wf(),
        ensures
            match r {
                Some(i) => i < self.groups.len() && self@.groups[i as int].slug == slug@
                    && self@.group_slug_taken(slug@),
                None => !self@.group_slug_taken(slug@),
            },
    {
        let mut i: usize = 0;
        while i < self.groups.len()
            invariant
                i <= self.groups.len(),
                forall|k: int| 0 <= k < i ==> (#[trigger] self@.groups[k]).slug != slug@,
            decreases self.groups.len() - i,
        {
            if same_text(self.groups[i].slug.as_str(), slug) {
                assert(self@.groups[i as int].slug == slug@);
                return Some(i);
            }
            i += 1;
        }
        None
    }

    /// The group with this id.
    pub fn find_group(&self, id: u64) -> (r: Result<GroupModel, DbError>)
        requires
            self.wf(),
        ensures
            match r {
                Ok(m) => self@.has_group(id) && m@ == self@.groups[self@.group_position(id)],
                Err(e) => e == DbError::EntryNotFound && !self@.has_group(id),
            },
    {
        match self.group_index(id) {
            Some(i) => Ok(self.groups[i].duplicate()),
            None => Err(DbError::EntryNotFound),
        }
    }

    /// The group with this slug; there is at most one.
    pub fn find_group_by_slug(&self, slug: &str) -> (r: Result<GroupModel, DbError>)
        requires
            self.wf(),
        ensures
            match r {
                Ok(m) => m@.slug == slug@ && self@.groups.contains(m@) && self@.has_group(m.id)
                    && self@.group_slug_taken(slug@)
                        && m@ == self@.groups[group_place_named(self@.groups, slug@)],
                Err(e) => e == DbError::EntryNotFound && !self@.group_slug_taken(slug@),
            },
    {
        match self.group_index_by_slug(slug) {
            Some(i) => {
                let m = self.groups[i].duplicate();
                proof {
                    let j = group_place_named(self@.groups, slug@);
                    assert(self@.groups[j].slug == slug@);
                    assert(j == i);
                    assert(self@.groups[i as int] == m@);
                    assert(self@.group_at(i as int, m.id));
                }
                Ok(m)
            },
            None => Err(DbError::EntryNotFound),
        }
    }

    /// Registers a user under a login that no user has yet. The password is
    /// stored as it is given: the caller hands in the hash.
    pub fn create_user(&mut self, login: &str, password: String) -> (r: Result<UserModel, DbError>)
        requires
            old(self).wf(),
        ensures
            final(self).wf(),
            match r {
                Ok(m) => !old(self)@.login_taken(login@) && old(self)@.next_id < u64::MAX
                    && final(self)@
                    == old(self)@.add_user(login@, password@) && m@ == final(self)@.users.last()
                    && m.id == old(self)@.next_id,
                Err(e) => final(self)@ == old(self)@ && (if old(self)@.login_taken(login@) {
                    e == DbError::EntryAlreadyExists
                } else {
                    e == DbError::StorageError && old(self)@.next_id == u64::MAX
                }),
            },
    {
        if self.user_index_by_login(login).is_some() {
            return Err(DbError::EntryAlreadyExists);
        }
        if self.next_id == u64::MAX {
            return Err(DbError::StorageError);
        }
        let record = UserModel { id: self.next_id, login: login.to_owned(), password, blocked: false };
        let copy = record.duplicate();
        self.users.push(record);
        self.next_id = self.next_id + 1;
        proof {
            assert(self@.users =~= old(self)@.add_user(login@, password@).users);
            lemma_add_user_wf(old(self)@, login@, password@);
        }
        Ok(copy)
    }

    /// Creates a role under a name that no role has yet.
    pub fn create_role(&mut self, name: &str, title: &str, now: u64) -> (r: Result<RoleModel, DbError>)
        requires
            old(self).wf(),
        ensures
            final(self).wf(),
            match r {
                Ok(m) => !old(self)@.role_name_taken(name@) && old(self)@.next_id < u64::MAX
                    && final(self)@
                    == old(self)@.add_role(name@, title@, now) && m@ == final(self)@.roles.last()
                    && m.id == old(self)@.next_id,
                Err(e) => final(self)@ == old(self)@ && (if old(self)@.role_name_taken(name@) {
                    e == DbError::EntryAlreadyExists
                } else {
                    e == DbError::StorageError && old(self)@.next_id == u64::MAX
                }),
            },
    {
        if self.role_index_by_name(name).is_some() {
            return Err(DbError::EntryAlreadyExists);
        }
        if self.next_id == u64::MAX {
            return Err(DbError::StorageError);
        }
        let record = RoleModel {
            id: self.next_id,
            name: name.to_owned(),
            title: title.to_owned(),
            created_at: now,
            updated_at: now,
        };
        let copy = record.duplicate();
        self.roles.push(record);
        self.next_id = self.next_id + 1;
        proof {
            assert(self@.roles =~= old(self)@.add_role(name@, title@, now).roles);
            lemma_add_role_wf(old(self)@, name@, title@, now);
        }
        Ok(copy)
    }

    /// Creates a permission under a name that no permission has yet.
    pub fn create_permission(&mut self, name: &str) -> (r: Result<PermissionModel, DbError>)
        requires
            old(self).wf(),
        ensures
            final(self).wf(),
            match r {
                Ok(m) => !old(self)@.permission_name_taken(name@) && old(self)@.next_id < u64::MAX
                    && final(self)@
                    == old(self)@.add_permission(name@) && m@ == final(self)@.permissions.last()
                    && m.id == old(self)@.next_id,
                Err(e) => final(self)@ == old(self)@
                    && (if old(self)@.permission_name_taken(name@) {
                    e == DbError::EntryAlreadyExists
                } else {
                    e == DbError::StorageError && old(self)@.next_id == u64::MAX
                }),
            },
    {
        if self.permission_index_by_name(name).is_some() {
            return Err(DbError::EntryAlreadyExists);
        }
        if self.next_id == u64::MAX {
            return Err(DbError::StorageError);
        }
        let record = PermissionModel { id: self.next_id, name: name.to_owned() };
        let copy = record.duplicate();
        self.permissions.push(record);
        self.next_id = self.next_id + 1;
        proof {
            assert(self@.permissions =~= old(self)@.add_permission(name@).permissions);
            lemma_add_permission_wf(old(self)@, name@);
        }
        Ok(copy)
    }

    /// Creates a group under a slug that no group has yet.
    pub fn create_group(&mut self, author: &str, slug: &str, title: &str, now: u64) -> (r: Result<GroupModel, DbError>)
        requires
            old(self).wf(),
        ensures
            final(self).wf(),
            match r {
                Ok(m) => !old(self)@.group_slug_taken(slug@) && old(self)@.next_id < u64::MAX
                    && final(self)@
                    == old(self)@.add_group(slug@, title@, author@, now)
                        && m@ == final(self)@.groups.last()
                    && m.id == old(self)@.next_id,
                Err(e) => final(self)@ == old(self)@ && (if old(self)@.group_slug_taken(slug@) {
                    e == DbError::EntryAlreadyExists
                } else {
                    e == DbError::StorageError && old(self)@.next_id == u64::MAX
                }),
            },
    {
        if self.group_index_by_slug(slug).is_some() {
            return Err(DbError::EntryAlreadyExists);
        }
        if self.next_id == u64::MAX {
            return Err(DbError::StorageError);
        }
        let record = GroupModel {
            id: self.next_id,
            slug: slug.to_owned(),
            title: title.to_owned(),
            created_at: now,
            updated_at: now,
            created_by: author.to_owned(),
            updated_by: author.to_owned(),
        };
        let copy = record.duplicate();
        self.groups.push(record);
        self.next_id = self.next_id + 1;
        proof {
            assert(self@.groups =~= old(self)@.add_group(slug@, title@, author@, now).groups);
            lemma_add_group_wf(old(self)@, slug@, title@, author@, now);
        }
        Ok(copy)
    }

    /// Deletes a user together with every edge that starts at it. A user that
    /// is not in the graph leaves the graph as it is.
    pub fn delete_user(&mut self, id: u64)
        requires
            old(self).wf(),
        ensures
            final(self).wf(),
            final(self)@ == old(self)@.delete_user(id),
    {
        match self.user_index(id) {
            Some(i) => {
                self.users.remove(i);
            },
            None => {},
        }
        self.user_roles.remove_matching(Some(id), None);
        self.user_groups.remove_matching(Some(id), None);
        proof {
            let h = old(self)@.delete_user(id);
            assert(self@.users =~= h.users);
            assert(self@.roles =~= h.roles);
            assert(self@.permissions =~= h.permissions);
            assert(self@.groups =~= h.groups);
            assert(self@.user_roles =~= h.user_roles);
            assert(self@.role_permissions =~= h.role_permissions);
            assert(self@.user_groups =~= h.user_groups);
            lemma_delete_user_wf(old(self)@, id);
        }
    }

    /// Deletes a role together with every edge that ends or starts at it. A
    /// role that is not in the graph leaves the graph as it is.
    pub fn delete_role(&mut self, id: u64)
        requires
            old(self).wf(),
        ensures
            final(self).wf(),
            final(self)@ == old(self)@.delete_role(id),
    {
        match self.role_index(id) {
            Some(i) => {
                self.roles.remove(i);
            },
            None => {},
        }
        self.user_roles.remove_matching(None, Some(id));
        self.role_permissions.remove_matching(Some(id), None);
        proof {
            let h = old(self)@.delete_role(id);
            assert(self@.users =~= h.users);
            assert(self@.roles =~= h.roles);
            assert(self@.permissions =~= h.permissions);
            assert(self@.groups =~= h.groups);
            assert(self@.user_roles =~= h.user_roles);
            assert(self@.role_permissions =~= h.role_permissions);
            assert(self@.user_groups =~= h.user_groups);
            lemma_delete_role_wf(old(self)@, id);
        }
    }

    /// Deletes a permission together with every edge that ends at it.
    pub fn delete_permission(&mut self, id: u64)
        requires
            old(self).wf(),
        ensures
            final(self).wf(),
            final(self)@ == old(self)@.delete_permission(id),
    {
        match self.permission_index(id) {
            Some(i) => {
                self.permissions.remove(i);
            },
            None => {},
        }
        self.role_permissions.remove_matching(None, Some(id));
        proof {
            let h = old(self)@.delete_permission(id);
            assert(self@.users =~= h.users);
            assert(self@.roles =~= h.roles);
            assert(self@.permissions =~= h.permissions);
            assert(self@.groups =~= h.groups);
            assert(self@.user_roles =~= h.user_roles);
            assert(self@.role_permissions =~= h.role_permissions);
            assert(self@.user_groups =~= h.user_groups);
            lemma_delete_permission_wf(old(self)@, id);
        }
    }

    /// Deletes a group together with every edge that ends at it.
    pub fn delete_group(&mut self, id: u64)
        requires
            old(self).wf(),
        ensures
            final(self).wf(),
            final(self)@ == old(self)@.delete_group(id),
    {
        match self.group_index(id) {
            Some(i) => {
                self.groups.remove(i);
            },
            None => {},
        }
        self.user_groups.remove_matching(None, Some(id));
        proof {
            let h = old(self)@.delete_group(id);
            assert(self@.users =~= h.users);
            assert(self@.roles =~= h.roles);
            assert(self@.permissions =~= h.permissions);
            assert(self@.groups =~= h.groups);
            assert(self@.user_roles =~= h.user_roles);
            assert(self@.role_permissions =~= h.role_permissions);
            assert(self@.user_groups =~= h.user_groups);
            lemma_delete_group_wf(old(self)@, id);
        }
    }

    /// Gives a user another login. Fails, and changes nothing, if the user is
    /// not in the graph or another user has that login.
    pub fn update_user(&mut self, id: u64, model: &UserUpdateModel) -> (r: Result<UserModel, DbError>)
        requires
            old(self).wf(),
        ensures
            final(self).wf(),
            match r {
                Ok(m) => old(self)@.has_user(id) && !old(self)@.login_taken_by_other(
                    id,
                    model.login@,
                ) && final(self)@ == old(self)@.rename_user(id, model.login@)
                    && m@ == final(self)@.users[old(self)@.user_position(id)],
                Err(e) => e == DbError::EntryUpdate && final(self)@ == old(self)@
                    && (!old(self)@.has_user(id) || old(self)@.login_taken_by_other(id, model.login@)),
            },
    {
        let i = match self.user_index(id) {
            Some(i) => i,
            None => {
                return Err(DbError::EntryUpdate);
            },
        };
        match self.user_index_by_login(model.login.as_str()) {
            Some(j) => {
                if j != i {
                    return Err(DbError::EntryUpdate);
                }
            },
            None => {},
        }
        let record = UserModel {
            id,
            login: model.login.clone(),
            password: self.users[i].password.clone(),
            blocked: self.users[i].blocked,
        };
        let copy = record.duplicate();
        self.users.set(i, record);
        proof {
            assert(self@.users =~= old(self)@.rename_user(id, model.login@).users);
            lemma_rename_user_wf(old(self)@, id, model.login@);
        }
        Ok(copy)
    }

    /// Blocks or unblocks a user. Fails, and changes nothing, if the user is
    /// not in the graph.
    pub fn set_blocked(&mut self, id: u64, blocked: bool) -> (r: Result<(), DbError>)
        requires
            old(self).wf(),
        ensures
            final(self).wf(),
            match r {
                Ok(()) => old(self)@.has_user(id) && final(self)@ == old(self)@.set_blocked(
                    id,
                    blocked,
                ),
                Err(e) => e == DbError::EntryUpdate && final(self)@ == old(self)@
                    && !old(self)@.has_user(id),
            },
    {
        let i = match self.user_index(id) {
            Some(i) => i,
            None => {
                return Err(DbError::EntryUpdate);
            },
        };
        let record = UserModel {
            id,
            login: self.users[i].login.clone(),
            password: self.users[i].password.clone(),
            blocked,
        };
        self.users.set(i, record);
        proof {
            assert(self@.users =~= old(self)@.set_blocked(id, blocked).users);
            lemma_set_blocked_wf(old(self)@, id, blocked);
        }
        Ok(())
    }

    /// Gives a role another name and title. Fails, and changes nothing, if
    /// the role is not in the graph or another role has that name.
    pub fn update_role(&mut self, id: u64, model: &RoleUpdateModel, now: u64) -> (r: Result<
        RoleModel,
        DbError,
    >)
        requires
            old(self).wf(),
        ensures
            final(self).wf(),
            match r {
                Ok(m) => old(self)@.has_role(id) && !old(self)@.role_name_taken_by_other(
                    id,
                    model.name@,
                ) && final(self)@ == old(self)@.update_role(id, model.name@, model.title@, now)
                    && m@ == final(self)@.roles[old(self)@.role_position(id)],
                Err(e) => e == DbError::EntryUpdate && final(self)@ == old(self)@
                    && (!old(self)@.has_role(id) || old(self)@.role_name_taken_by_other(id, model.name@)),
            },
    {
        let i = match self.role_index(id) {
            Some(i) => i,
            None => {
                return Err(DbError::EntryUpdate);
            },
        };
        match self.role_index_by_name(model.name.as_str()) {
            Some(j) => {
                if j != i {
                    return Err(DbError::EntryUpdate);
                }
            },
            None => {},
        }
        let record = RoleModel {
            id,
            name: model.name.clone(),
            title: model.title.clone(),
            created_at: self.roles[i].created_at,
            updated_at: now,
        };
        let copy = record.duplicate();
        self.roles.set(i, record);
        proof {
            assert(self@.roles =~= old(self)@.update_role(
                id,
                model.name@,
                model.title@,
                now,
            ).roles);
            lemma_update_role_wf(old(self)@, id, model.name@, model.title@, now);
        }
        Ok(copy)
    }

    /// Gives a group another title, and notes who changed it and when. Fails,
    /// and changes nothing, if the group is not in the graph.
    pub fn update_group(
        &mut self,
        id: u64,
        author: &str,
        model: &GroupUpdateModel,
        now: u64,
    ) -> (r: Result<GroupModel, DbError>)
        requires
            old(self).wf(),
        ensures
            final(self).wf(),
            match r {
                Ok(m) => old(self)@.has_group(id) && final(self)@ == old(self)@.update_group(
                    id,
                    model.title@,
                    author@,
                    now,
                ) && m@ == final(self)@.groups[old(self)@.group_position(id)],
                Err(e) => e == DbError::EntryUpdate && final(self)@ == old(self)@
                    && !old(self)@.has_group(id),
            },
    {
        let i = match self.group_index(id) {
            Some(i) => i,
            None => {
                return Err(DbError::EntryUpdate);
            },
        };
        let record = GroupModel {
            id,
            slug: self.groups[i].slug.clone(),
            title: model.title.clone(),
            created_at: self.groups[i].created_at,
            updated_at: now,
            created_by: self.groups[i].created_by.clone(),
            updated_by: author.to_owned(),
        };
        let copy = record.duplicate();
        self.groups.set(i, record);
        proof {
            assert(self@.groups =~= old(self)@.update_group(id, model.title@, author@, now).groups);
            lemma_update_group_wf(old(self)@, id, model.title@, author@, now);
        }
        Ok(copy)
    }

    /// All roles, in the order in which they were created.
    pub fn all_roles(&self) -> (list: Vec<RoleModel>)
        ensures
            list@.map_values(|m: RoleModel| m@) == self@.roles,
    {
        let mut list: Vec<RoleModel> = Vec::new();
        let mut i: usize = 0;
        while i < self.roles.len()
            invariant
                i <= self.roles.len(),
                list@.len() == i,
                forall|k: int| 0 <= k < i ==> (#[trigger] list@[k])@ == self.roles@[k]@,
            decreases self.roles.len() - i,
        {
            list.push(self.roles[i].duplicate());
            i += 1;
        }
        assert(list@.map_values(|m: RoleModel| m@) =~= self@.roles);
        list
    }

    /// All groups, in the order in which they were created.
    pub fn all_groups(&self) -> (list: Vec<GroupModel>)
        ensures
            list@.map_values(|m: GroupModel| m@) == self@.groups,
    {
        let mut list: Vec<GroupModel> = Vec::new();
        let mut i: usize = 0;
        while i < self.groups.len()
            invariant
                i <= self.groups.len(),
                list@.len() == i,
                forall|k: int| 0 <= k < i ==> (#[trigger] list@[k])@ == self.groups@[k]@,
            decreases self.groups.len() - i,
        {
            list.push(self.groups[i].duplicate());
            i += 1;
        }
        assert(list@.map_values(|m: GroupModel| m@) =~= self@.groups);
        list
    }

    /// Whether the user holds the role.
    pub fn holds_role(&self, user: u64, role: u64) -> (r: bool)
        ensures
            r == self@.user_roles.contains((user, role)),
    {
        self.user_roles.contains(user, role)
    }

    /// Replaces the permissions of a role as one step: drops what it had and
    /// grants the permissions called one of `names`. A name that no permission
    /// has is passed over. Fails, and changes nothing, if the role is not in
    /// the graph.
    pub fn replace_role_permissions(&mut self, role: u64, names: &Vec<String>) -> (r: Result<
        (),
        DbError,
    >)
        requires
            old(self).wf(),
        ensures
            final(self).wf(),
            match r {
                Ok(()) => old(self)@.has_role(role)
                    && final(self)@ == old(self)@.replace_permissions(
                    role,
                    names.deep_view(),
                ),
                Err(e) => e == DbError::EntryNotFound && !old(self)@.has_role(role) && final(self)@
                    == old(self)@,
            },
    {
        if self.role_index(role).is_none() {
            return Err(DbError::EntryNotFound);
        }
        self.drop_all_permissions(role);
        let ghost g = old(self)@;
        let ghost all = names.deep_view();
        proof {
            lemma_places(g);
            assert(self@.role_permissions =~= g.replace_permissions(
                role,
                all.take(0),
            ).role_permissions) by {
                assert forall|e: (u64, u64)| !g.named_among(e.1, all.take(0)) by {}
            }
        }
        let mut k: usize = 0;
        while k < names.len()
            invariant
                k <= names.len(),
                self.wf(),
                g.wf(),
                g.has_role(role),
                all == names.deep_view(),
                self@ == g.replace_permissions(role, all.take(k as int)),
            decreases names.len() - k,
        {
            let ghost before = self@;
            let ghost name = all[k as int];
            assert(name == names@[k as int]@);
            match self.permission_index_by_name(names[k].as_str()) {
                Some(i) => {
                    let id = self.permissions[i].id;
                    proof {
                        assert(self@.permission_at(i as int, id));
                        lemma_places(self@);
                        lemma_same_tables(g, self@);
                    }
                    let granted = self.grant_permission(role, id);
                    proof {
                        assert(granted.is_ok());
                        let h = g.replace_permissions(role, all.take(k + 1));
                        assert(all.take(k + 1) =~= all.take(k as int).push(name));
                        assert forall|e: (u64, u64)|
                            self@.role_permissions.contains(e) == h.role_permissions.contains(e) by {
                            if e.0 == role {
                                if g.named_among(e.1, all.take(k + 1)) {
                                    let j = choose|j: int|
                                        0 <= j < g.permissions.len() && (
                                        #[trigger] g.permissions[j]).id == e.1 && all.take(
                                            k + 1,
                                        ).contains(g.permissions[j].name);
                                    if g.permissions[j].name == name {
                                        assert(j == i);
                                    } else {
                                        assert(all.take(k as int).contains(g.permissions[j].name));
                                        assert(g.named_among(e.1, all.take(k as int)));
                                    }
                                }
                                if e.1 == id {
                                    assert(all.take(k + 1)[k as int] == name);
                                    assert(all.take(k + 1).contains(name));
                                    assert(g.permissions[i as int].id == id);
                                    assert(g.named_among(e.1, all.take(k + 1)));
                                }
                                if g.named_among(e.1, all.take(k as int)) {
                                    let j = choose|j: int|
                                        0 <= j < g.permissions.len() && (
                                        #[trigger] g.permissions[j]).id == e.1 && all.take(
                                            k as int,
                                        ).contains(g.permissions[j].name);
                                    assert(all.take(k + 1).contains(g.permissions[j].name));
                                    assert(g.named_among(e.1, all.take(k + 1)));
                                }
                            }
                        }
                        assert(self@.role_permissions =~= h.role_permissions);
                    }
                },
                None => {
                    proof {
                        let h = g.replace_permissions(role, all.take(k + 1));
                        assert(all.take(k + 1) =~= all.take(k as int).push(name));
                        assert forall|e: (u64, u64)|
                            self@.role_permissions.contains(e) == h.role_permissions.contains(e) by {
                            if e.0 == role {
                                if g.named_among(e.1, all.take(k + 1)) {
                                    let j = choose|j: int|
                                        0 <= j < g.permissions.len() && (
                                        #[trigger] g.permissions[j]).id == e.1 && all.take(
                                            k + 1,
                                        ).contains(g.permissions[j].name);
                                    if g.permissions[j].name == name {
                                        assert(before.permissions[j].name == name);
                                        assert(before.permission_name_taken(name));
                                    }
                                    assert(all.take(k as int).contains(g.permissions[j].name));
                                    assert(g.named_among(e.1, all.take(k as int)));
                                }
                                if g.named_among(e.1, all.take(k as int)) {
                                    let j = choose|j: int|
                                        0 <= j < g.permissions.len() && (
                                        #[trigger] g.permissions[j]).id == e.1 && all.take(
                                            k as int,
                                        ).contains(g.permissions[j].name);
                                    assert(all.take(k + 1).contains(g.permissions[j].name));
                                    assert(g.named_among(e.1, all.take(k + 1)));
                                }
                            }
                        }
                        assert(self@.role_permissions =~= h.role_permissions);
                    }
                },
            }
            k += 1;
        }
        assert(all.take(names.len() as int) =~= all);
        Ok(())
    }

    /// How many roles there are.
    pub fn role_count(&self) -> (n: usize)
        ensures
            n == self@.roles.len(),
    {
        self.roles.len()
    }

    /// The roles from place `from` up to, not including, place `to`, in the
    /// order in which they were created. Places beyond the end are taken as
    /// the end, and a `from` beyond `to` as `to`.
    pub fn roles_between(&self, from: usize, to: usize) -> (list: Vec<RoleModel>)
        ensures
            list@.map_values(|m: RoleModel| m@) == self@.roles.subrange(
                vstd::math::min(from as int, vstd::math::min(to as int, self@.roles.len() as int)),
                vstd::math::min(to as int, self@.roles.len() as int),
            ),
    {
        let to: usize = if to > self.roles.len() {
            self.roles.len()
        } else {
            to
        };
        let from: usize = if from > to {
            to
        } else {
            from
        };
        let mut list: Vec<RoleModel> = Vec::new();
        let mut i: usize = from;
        while i < to
            invariant
                from <= i <= to,
                to <= self.roles.len(),
                list@.len() == i - from,
                forall|k: int| 0 <= k < i - from ==> (#[trigger] list@[k])@ == self.roles@[from + k]@,
            decreases to - i,
        {
            list.push(self.roles[i].duplicate());
            i += 1;
        }
        assert(list@.map_values(|m: RoleModel| m@) =~= self@.roles.subrange(from as int, to as int));
        list
    }
}

} // verus!
