//! What holds of the access graph whatever its state: how assigning,
//! granting, dropping and deleting show in what a user can reach.

use vstd::prelude::*;
use crate::graph_view::{lemma_delete_role_wf, lemma_places, lemma_same_tables, GraphView};

verus! {

/// After a role is assigned to a user and a permission is granted to that
/// role, the user's effective permissions hold the permission's name.
pub proof fn law_assigned_role_grants(g: GraphView, user: u64, role: u64, permission: u64)
    requires
        g.wf(),
        g.has_user(user),
        g.has_role(role),
        g.has_permission(permission),
    ensures
        g.assign_role(user, role).grant_permission(role, permission).effective_permissions(
            user,
        ).contains(g.permissions[g.permission_position(permission)].name),
{
    let h = g.assign_role(user, role).grant_permission(role, permission);
    let name = g.permissions[g.permission_position(permission)].name;
    lemma_same_tables(g, h);
    assert(h.permission_named(permission, name));
    assert(h.role_grants(role, permission, name));
    assert(h.role_permission_names(role).contains(name));
    assert(h.user_gets(user, role, name));
}

/// After a role is taken from a user, the user's effective permissions are
/// exactly those that its other roles give. A name that only the role taken
/// away gave is no longer among them.
pub proof fn law_unassigned_role_withdraws(g: GraphView, user: u64, role: u64, name: Seq<char>)
    requires
        g.wf(),
    ensures
        g.unassign_role(user, role).effective_permissions(user).contains(name) <==> exists|
            other: u64,
        |
            other != role && #[trigger] g.user_gets(user, other, name),
        (forall|other: u64| other != role ==> !g.user_gets(user, other, name)) ==> !g.unassign_role(
            user,
            role,
        ).effective_permissions(user).contains(name),
{
    let h = g.unassign_role(user, role);
    lemma_same_tables(g, h);
    assert forall|r: u64, n: Seq<char>| g.role_permission_names(r).contains(n)
        == h.role_permission_names(r).contains(n) by {
        if g.role_permission_names(r).contains(n) {
            let p = choose|p: u64| #[trigger] g.role_grants(r, p, n);
            assert(h.role_grants(r, p, n));
        }
        if h.role_permission_names(r).contains(n) {
            let p = choose|p: u64| #[trigger] h.role_grants(r, p, n);
            assert(g.role_grants(r, p, n));
        }
    }
    if h.effective_permissions(user).contains(name) {
        let r = choose|r: u64| #[trigger] h.user_gets(user, r, name);
        assert(r != role && g.user_gets(user, r, name));
    }
    if exists|other: u64| other != role && #[trigger] g.user_gets(user, other, name) {
        let r = choose|other: u64| other != role && #[trigger] g.user_gets(user, other, name);
        assert(h.user_gets(user, r, name));
    }
}

/// Assigning a role twice gives the same graph as assigning it once.
pub proof fn law_assign_role_idempotent(g: GraphView, user: u64, role: u64)
    ensures
        g.assign_role(user, role).assign_role(user, role) == g.assign_role(user, role),
{
    assert(g.user_roles.insert((user, role)).insert((user, role)) =~= g.user_roles.insert(
        (user, role),
    ));
}

/// Taking away a role that the user does not hold leaves the graph as it is.
pub proof fn law_unassign_missing_edge(g: GraphView, user: u64, role: u64)
    requires
        !g.user_roles.contains((user, role)),
    ensures
        g.unassign_role(user, role) == g,
{
    assert(g.user_roles.remove((user, role)) =~= g.user_roles);
}

/// After all permissions of a role are dropped the role grants nothing, and
/// what a user still has is exactly what its other roles gave before: nothing
/// that only the emptied role gave is left.
pub proof fn law_drop_all_permissions(g: GraphView, user: u64, role: u64, name: Seq<char>)
    requires
        g.wf(),
    ensures
        g.drop_all_permissions(role).role_permission_names(role) == Set::<Seq<char>>::empty(),
        g.drop_all_permissions(role).effective_permissions(user).contains(name) <==> exists|
            other: u64,
        |
            other != role && #[trigger] g.user_gets(user, other, name),
{
    let h = g.drop_all_permissions(role);
    lemma_same_tables(g, h);
    assert forall|n: Seq<char>| !h.role_permission_names(role).contains(n) by {
        if h.role_permission_names(role).contains(n) {
            let p = choose|p: u64| #[trigger] h.role_grants(role, p, n);
            assert(h.role_permissions.contains((role, p)));
        }
    }
    assert(h.role_permission_names(role) =~= Set::<Seq<char>>::empty());
    assert forall|r: u64, n: Seq<char>| r != role implies g.role_permission_names(r).contains(n)
        == h.role_permission_names(r).contains(n) by {
        if g.role_permission_names(r).contains(n) {
            let p = choose|p: u64| #[trigger] g.role_grants(r, p, n);
            assert(h.role_permissions.contains((r, p)));
            assert(h.role_grants(r, p, n));
        }
        if h.role_permission_names(r).contains(n) {
            let p = choose|p: u64| #[trigger] h.role_grants(r, p, n);
            assert(g.role_grants(r, p, n));
        }
    }
    if h.effective_permissions(user).contains(name) {
        let r = choose|r: u64| #[trigger] h.user_gets(user, r, name);
        assert(r != role && g.user_gets(user, r, name));
    }
    if exists|other: u64| other != role && #[trigger] g.user_gets(user, other, name) {
        let r = choose|other: u64| other != role && #[trigger] g.user_gets(user, other, name);
        assert(h.user_gets(user, r, name));
    }
}

/// Deleting a role takes its name out of every user's effective roles and
/// leaves no edge that starts or ends at it; the graph stays well formed, so
/// no edge dangles.
pub proof fn law_delete_role_cascades(g: GraphView, role: u64, user: u64)
    requires
        g.wf(),
        g.has_role(role),
    ensures
        g.delete_role(role).wf(),
        !g.delete_role(role).has_role(role),
        !g.delete_role(role).effective_roles(user).contains(g.roles[g.role_position(role)].name),
        forall|e: (u64, u64)| #[trigger] g.delete_role(role).user_roles.contains(e) ==> e.1 != role,
        forall|e: (u64, u64)| #[trigger]
            g.delete_role(role).role_permissions.contains(e) ==> e.0 != role,
        g.delete_role(role).role_permission_names(role) == Set::<Seq<char>>::empty(),
{
    let h = g.delete_role(role);
    let name = g.roles[g.role_position(role)].name;
    lemma_delete_role_wf(g, role);
    lemma_places(g);
    lemma_places(h);
    let p = g.role_position(role);
    assert(g.role_at(p, role));
    if h.effective_roles(user).contains(name) {
        let r = choose|r: u64| #[trigger] h.user_holds(user, r, name);
        assert(h.user_roles.contains((user, r)));
        assert(r != role);
        let j = h.role_position(r);
        assert(h.role_at(j, r));
        let i = if j < p { j } else { j + 1 };
        assert(h.roles[j] == g.roles[i]);
        assert(g.roles[i].name == g.roles[p].name);
        assert(false);
    }
    assert forall|n: Seq<char>| !h.role_permission_names(role).contains(n) by {
        if h.role_permission_names(role).contains(n) {
            let q = choose|q: u64| #[trigger] h.role_grants(role, q, n);
            assert(h.role_permissions.contains((role, q)));
        }
    }
    assert(h.role_permission_names(role) =~= Set::<Seq<char>>::empty());
}

/// Deleting a user leaves no edge that starts at it, and the graph stays
/// well formed.
pub proof fn law_delete_user_cascades(g: GraphView, user: u64)
    requires
        g.wf(),
    ensures
        g.delete_user(user).wf(),
        !g.delete_user(user).has_user(user),
        forall|e: (u64, u64)| #[trigger] g.delete_user(user).user_roles.contains(e) ==> e.0 != user,
        forall|e: (u64, u64)| #[trigger] g.delete_user(user).user_groups.contains(e) ==> e.0 != user,
{
    crate::graph_view::lemma_delete_user_wf(g, user);
}

/// After the permissions of a role are replaced by a list of names, the role
/// is granted exactly the names of the list that some permission has: a name
/// that no permission has is not among them. Other roles keep what they had,
/// and the graph stays well formed.
pub proof fn law_replace_permissions(
    g: GraphView,
    role: u64,
    names: Seq<Seq<char>>,
    other: u64,
    name: Seq<char>,
)
    requires
        g.wf(),
        g.has_role(role),
    ensures
        g.replace_permissions(role, names).wf(),
        g.replace_permissions(role, names).role_permission_names(role).contains(name) <==> (
        names.contains(name) && g.permission_name_taken(name)),
        other != role ==> g.replace_permissions(role, names).role_permission_names(other)
            == g.role_permission_names(other),
        g.replace_permissions(role, names).user_roles == g.user_roles,
{
    let h = g.replace_permissions(role, names);
    lemma_same_tables(g, h);
    lemma_places(g);
    assert forall|e: (u64, u64)| #[trigger] h.role_permissions.contains(e) implies h.has_role(e.0)
        && h.has_permission(e.1) by {
        if e.0 == role {
            let i = choose|i: int|
                0 <= i < g.permissions.len() && (#[trigger] g.permissions[i]).id == e.1
                    && names.contains(g.permissions[i].name);
            assert(g.permission_at(i, e.1));
        }
    }
    if h.role_permission_names(role).contains(name) {
        let p = choose|p: u64| #[trigger] h.role_grants(role, p, name);
        assert(g.named_among(p, names));
        let i = choose|i: int|
            0 <= i < g.permissions.len() && (#[trigger] g.permissions[i]).id == p && names.contains(
                g.permissions[i].name,
            );
        assert(g.permission_at(i, p));
        assert(g.permissions[i].name == name);
    }
    if names.contains(name) && g.permission_name_taken(name) {
        let i = choose|i: int|
            0 <= i < g.permissions.len() && (#[trigger] g.permissions[i]).name == name;
        let p = g.permissions[i].id;
        assert(g.permission_at(i, p));
        assert(g.named_among(p, names));
        assert(h.role_grants(role, p, name));
    }
    if other != role {
        assert forall|n: Seq<char>|
            h.role_permission_names(other).contains(n) == g.role_permission_names(other).contains(
                n,
            ) by {
            if h.role_permission_names(other).contains(n) {
                let p = choose|p: u64| #[trigger] h.role_grants(other, p, n);
                assert(g.role_grants(other, p, n));
            }
            if g.role_permission_names(other).contains(n) {
                let p = choose|p: u64| #[trigger] g.role_grants(other, p, n);
                assert(h.role_grants(other, p, n));
            }
        }
        assert(h.role_permission_names(other) =~= g.role_permission_names(other));
    }
}

/// Assigning a role to one user gives nothing to any other user.
pub proof fn law_assign_role_is_local(g: GraphView, user: u64, role: u64, other: u64)
    requires
        other != user,
    ensures
        g.assign_role(user, role).effective_permissions(other) == g.effective_permissions(other),
        g.assign_role(user, role).effective_roles(other) == g.effective_roles(other),
{
    let h = g.assign_role(user, role);
    lemma_same_tables(g, h);
    assert forall|r: u64, n: Seq<char>|
        g.role_permission_names(r).contains(n) == h.role_permission_names(r).contains(n) by {
        if g.role_permission_names(r).contains(n) {
            let p = choose|p: u64| #[trigger] g.role_grants(r, p, n);
            assert(h.role_grants(r, p, n));
        }
        if h.role_permission_names(r).contains(n) {
            let p = choose|p: u64| #[trigger] h.role_grants(r, p, n);
            assert(g.role_grants(r, p, n));
        }
    }
    assert forall|n: Seq<char>|
        h.effective_permissions(other).contains(n) == g.effective_permissions(other).contains(
            n,
        ) by {
        if h.effective_permissions(other).contains(n) {
            let r = choose|r: u64| #[trigger] h.user_gets(other, r, n);
            assert(g.user_gets(other, r, n));
        }
        if g.effective_permissions(other).contains(n) {
            let r = choose|r: u64| #[trigger] g.user_gets(other, r, n);
            assert(h.user_gets(other, r, n));
        }
    }
    assert(h.effective_permissions(other) =~= g.effective_permissions(other));
    assert forall|n: Seq<char>|
        h.effective_roles(other).contains(n) == g.effective_roles(other).contains(n) by {
        if h.effective_roles(other).contains(n) {
            let r = choose|r: u64| #[trigger] h.user_holds(other, r, n);
            assert(g.user_holds(other, r, n));
        }
        if g.effective_roles(other).contains(n) {
            let r = choose|r: u64| #[trigger] g.user_holds(other, r, n);
            assert(h.user_holds(other, r, n));
        }
    }
    assert(h.effective_roles(other) =~= g.effective_roles(other));
}

/// Granting a permission to a role gives nothing to a user who does not hold
/// that role.
pub proof fn law_grant_reaches_holders_only(g: GraphView, role: u64, permission: u64, user: u64)
    requires
        !g.user_roles.contains((user, role)),
    ensures
        g.grant_permission(role, permission).effective_permissions(user)
            == g.effective_permissions(user),
{
    let h = g.grant_permission(role, permission);
    lemma_same_tables(g, h);
    assert forall|r: u64, n: Seq<char>| r != role implies g.role_permission_names(r).contains(n)
        == h.role_permission_names(r).contains(n) by {
        if g.role_permission_names(r).contains(n) {
            let p = choose|p: u64| #[trigger] g.role_grants(r, p, n);
            assert(h.role_grants(r, p, n));
        }
        if h.role_permission_names(r).contains(n) {
            let p = choose|p: u64| #[trigger] h.role_grants(r, p, n);
            assert(g.role_grants(r, p, n));
        }
    }
    assert forall|n: Seq<char>|
        h.effective_permissions(user).contains(n) == g.effective_permissions(user).contains(n) by {
        if h.effective_permissions(user).contains(n) {
            let r = choose|r: u64| #[trigger] h.user_gets(user, r, n);
            assert(g.user_gets(user, r, n));
        }
        if g.effective_permissions(user).contains(n) {
            let r = choose|r: u64| #[trigger] g.user_gets(user, r, n);
            assert(h.user_gets(user, r, n));
        }
    }
    assert(h.effective_permissions(user) =~= g.effective_permissions(user));
}

/// Replacing the permissions of a role by an empty list is dropping them all.
pub proof fn law_replace_by_nothing_drops(g: GraphView, role: u64)
    ensures
        g.replace_permissions(role, Seq::empty()) == g.drop_all_permissions(role),
{
    assert forall|e: (u64, u64)| !g.named_among(e.1, Seq::<Seq<char>>::empty()) by {}
    assert(g.replace_permissions(role, Seq::empty()).role_permissions =~= g.drop_all_permissions(
        role,
    ).role_permissions);
}

} // verus!
