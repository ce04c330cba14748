use mtc_auth::error::DbError;
use mtc_auth::graph::AuthorizationGraph;
use mtc_auth::model::{GroupModel, GroupUpdateModel, RoleUpdateModel, UserUpdateModel};

fn names(list: &[&str]) -> Vec<String> {
    list.iter().map(|s| s.to_string()).collect()
}

fn sample() -> (AuthorizationGraph, u64, u64, u64) {
    let mut g = AuthorizationGraph::new();
    let alice = g.create_user("alice", "hash-a".to_string()).unwrap().id;
    let editor = g.create_role("editor", "Editor", 10).unwrap().id;
    let write = g.create_permission("content::write").unwrap().id;
    (g, alice, editor, write)
}

#[test]
fn ids_are_given_in_order_from_one() {
    let (_, alice, editor, write) = sample();
    assert_eq!((alice, editor, write), (1, 2, 3));
}

#[test]
fn assigned_role_gives_its_permissions_and_unassigning_takes_them() {
    let (mut g, alice, editor, write) = sample();
    assert_eq!(g.assign_role(alice, editor), Ok(()));
    assert_eq!(g.grant_permission(editor, write), Ok(()));
    assert_eq!(g.effective_permissions(alice), Ok(names(&["content::write"])));
    assert_eq!(g.unassign_role(alice, editor), Ok(()));
    assert_eq!(g.effective_permissions(alice), Ok(names(&[])));
}

#[test]
fn permission_through_another_role_stays_after_unassign() {
    let (mut g, alice, editor, write) = sample();
    let chief = g.create_role("chief", "Chief", 11).unwrap().id;
    g.assign_role(alice, editor).unwrap();
    g.assign_role(alice, chief).unwrap();
    g.grant_permission(editor, write).unwrap();
    g.grant_permission(chief, write).unwrap();
    g.unassign_role(alice, editor).unwrap();
    assert_eq!(g.effective_permissions(alice), Ok(names(&["content::write"])));
}

#[test]
fn assigning_twice_is_assigning_once() {
    let (mut g, alice, editor, _) = sample();
    assert_eq!(g.assign_role(alice, editor), Ok(()));
    let once = g.effective_roles(alice);
    assert_eq!(g.assign_role(alice, editor), Ok(()));
    assert_eq!(g.effective_roles(alice), once);
    assert_eq!(once, Ok(names(&["editor"])));
    assert_eq!(g.unassign_role(alice, editor), Ok(()));
    assert_eq!(g.effective_roles(alice), Ok(names(&[])));
}

#[test]
fn unassigning_a_missing_edge_succeeds() {
    let (mut g, alice, editor, _) = sample();
    assert_eq!(g.unassign_role(alice, editor), Ok(()));
    assert_eq!(g.effective_roles(alice), Ok(names(&[])));
    assert_eq!(g.revoke_permission(editor, 3), Ok(()));
}

#[test]
fn edge_operations_need_both_ends() {
    let (mut g, alice, editor, write) = sample();
    assert_eq!(g.assign_role(99, editor), Err(DbError::EntryNotFound));
    assert_eq!(g.assign_role(alice, 99), Err(DbError::EntryNotFound));
    assert_eq!(g.unassign_role(alice, 99), Err(DbError::EntryNotFound));
    assert_eq!(g.grant_permission(editor, 99), Err(DbError::EntryNotFound));
    assert_eq!(g.grant_permission(99, write), Err(DbError::EntryNotFound));
    assert_eq!(g.revoke_permission(99, write), Err(DbError::EntryNotFound));
    assert_eq!(g.join_group(alice, 99), Err(DbError::EntryNotFound));
    assert_eq!(g.leave_group(alice, 99), Err(DbError::EntryNotFound));
    // a role id is no permission id
    assert_eq!(g.grant_permission(editor, editor), Err(DbError::EntryNotFound));
    assert_eq!(g.effective_roles(alice), Ok(names(&[])));
}

#[test]
fn effective_permissions_are_sorted_and_listed_once() {
    let (mut g, alice, editor, write) = sample();
    let chief = g.create_role("chief", "Chief", 11).unwrap().id;
    let read = g.create_permission("content::read").unwrap().id;
    let admin = g.create_permission("admin").unwrap().id;
    let zeta = g.create_permission("zeta::write").unwrap().id;
    g.assign_role(alice, editor).unwrap();
    g.assign_role(alice, chief).unwrap();
    g.grant_permission(editor, zeta).unwrap();
    g.grant_permission(editor, write).unwrap();
    g.grant_permission(chief, write).unwrap();
    g.grant_permission(chief, read).unwrap();
    g.grant_permission(chief, admin).unwrap();
    assert_eq!(
        g.effective_permissions(alice),
        Ok(names(&["admin", "content::read", "content::write", "zeta::write"]))
    );
    assert_eq!(g.effective_roles(alice), Ok(names(&["chief", "editor"])));
    assert_eq!(g.permissions_of_role(editor), names(&["content::write", "zeta::write"]));
    assert_eq!(g.permissions_of_role(99), names(&[]));
}

#[test]
fn effective_sets_of_an_unknown_user_are_not_found() {
    let (g, _, _, _) = sample();
    assert_eq!(g.effective_permissions(99), Err(DbError::EntryNotFound));
    assert_eq!(g.effective_roles(99), Err(DbError::EntryNotFound));
    assert_eq!(g.effective_groups(99), Err(DbError::EntryNotFound));
}

#[test]
fn a_user_without_edges_has_empty_sets() {
    let (g, alice, _, _) = sample();
    assert_eq!(g.effective_permissions(alice), Ok(names(&[])));
    assert_eq!(g.effective_roles(alice), Ok(names(&[])));
    assert_eq!(g.effective_groups(alice), Ok(names(&[])));
}

#[test]
fn dropping_all_permissions_leaves_only_what_other_roles_give() {
    let (mut g, alice, editor, write) = sample();
    let chief = g.create_role("chief", "Chief", 11).unwrap().id;
    let read = g.create_permission("content::read").unwrap().id;
    g.assign_role(alice, editor).unwrap();
    g.assign_role(alice, chief).unwrap();
    g.grant_permission(editor, write).unwrap();
    g.grant_permission(chief, read).unwrap();
    g.drop_all_permissions(editor);
    assert_eq!(g.permissions_of_role(editor), names(&[]));
    assert_eq!(g.effective_permissions(alice), Ok(names(&["content::read"])));
    g.drop_all_permissions(chief);
    assert_eq!(g.effective_permissions(alice), Ok(names(&[])));
}

#[test]
fn deleting_a_role_cascades() {
    let (mut g, alice, editor, write) = sample();
    let bob = g.create_user("bob", "hash-b".to_string()).unwrap().id;
    g.assign_role(alice, editor).unwrap();
    g.assign_role(bob, editor).unwrap();
    g.grant_permission(editor, write).unwrap();
    g.delete_role(editor);
    assert_eq!(g.effective_roles(alice), Ok(names(&[])));
    assert_eq!(g.effective_roles(bob), Ok(names(&[])));
    assert_eq!(g.effective_permissions(alice), Ok(names(&[])));
    assert_eq!(g.permissions_of_role(editor), names(&[]));
    assert!(!g.holds_role(alice, editor));
    assert_eq!(g.find_role(editor).unwrap_err(), DbError::EntryNotFound);
    // a role made later under the same name starts without edges
    let again = g.create_role("editor", "Editor", 12).unwrap().id;
    assert_ne!(again, editor);
    assert_eq!(g.permissions_of_role(again), names(&[]));
    assert_eq!(g.effective_roles(alice), Ok(names(&[])));
}

#[test]
fn deleting_a_user_cascades() {
    let (mut g, alice, editor, _) = sample();
    let staff = g.create_group("alice", "staff", "Staff", 5).unwrap().id;
    g.assign_role(alice, editor).unwrap();
    g.join_group(alice, staff).unwrap();
    g.delete_user(alice);
    assert!(!g.holds_role(alice, editor));
    assert_eq!(g.effective_roles(alice), Err(DbError::EntryNotFound));
    assert_eq!(g.find_user(alice).unwrap_err(), DbError::EntryNotFound);
    g.delete_user(alice);
    assert_eq!(g.all_roles().len(), 1);
}

#[test]
fn deleting_a_permission_or_group_cascades() {
    let (mut g, alice, editor, write) = sample();
    let staff = g.create_group("alice", "staff", "Staff", 5).unwrap().id;
    g.assign_role(alice, editor).unwrap();
    g.grant_permission(editor, write).unwrap();
    g.join_group(alice, staff).unwrap();
    assert_eq!(g.effective_groups(alice), Ok(names(&["staff"])));
    g.delete_permission(write);
    g.delete_group(staff);
    assert_eq!(g.effective_permissions(alice), Ok(names(&[])));
    assert_eq!(g.effective_groups(alice), Ok(names(&[])));
    assert_eq!(g.all_groups().len(), 0);
}

#[test]
fn groups_are_joined_left_and_sorted() {
    let (mut g, alice, _, _) = sample();
    let staff = g.create_group("root", "staff", "Staff", 5).unwrap().id;
    let board = g.create_group("root", "board", "Board", 6).unwrap().id;
    assert_eq!(g.join_group(alice, staff), Ok(()));
    assert_eq!(g.join_group(alice, board), Ok(()));
    assert_eq!(g.join_group(alice, board), Ok(()));
    assert_eq!(g.effective_groups(alice), Ok(names(&["board", "staff"])));
    assert_eq!(g.leave_group(alice, staff), Ok(()));
    assert_eq!(g.effective_groups(alice), Ok(names(&["board"])));
}

#[test]
fn names_are_unique_in_each_table() {
    let (mut g, _, _, _) = sample();
    assert_eq!(g.create_user("alice", "x".to_string()).unwrap_err(), DbError::EntryAlreadyExists);
    assert_eq!(g.create_role("editor", "Other", 1).unwrap_err(), DbError::EntryAlreadyExists);
    assert_eq!(g.create_permission("content::write").unwrap_err(), DbError::EntryAlreadyExists);
    g.create_group("a", "staff", "Staff", 1).unwrap();
    assert_eq!(g.create_group("b", "staff", "S", 2).unwrap_err(), DbError::EntryAlreadyExists);
    // the same text may name a role and a permission
    assert!(g.create_permission("editor").is_ok());
}

#[test]
fn records_are_found_by_id_and_by_name() {
    let (mut g, alice, editor, write) = sample();
    let u = g.find_user(alice).unwrap();
    assert_eq!((u.id, u.login.as_str(), u.password.as_str(), u.blocked), (1, "alice", "hash-a", false));
    let u = g.find_user_by_login("alice").unwrap();
    assert_eq!(u.id, alice);
    assert_eq!(g.find_user_by_login("Alice").unwrap_err(), DbError::EntryNotFound);
    let r = g.find_role_by_name("editor").unwrap();
    assert_eq!((r.id, r.title.as_str(), r.created_at, r.updated_at), (editor, "Editor", 10, 10));
    assert_eq!(g.find_role(editor).unwrap().name, "editor");
    assert_eq!(g.find_role_by_name("edit").unwrap_err(), DbError::EntryNotFound);
    assert_eq!(g.find_permission_by_name("content::write").unwrap().id, write);
    assert_eq!(g.find_permission(write).unwrap().name, "content::write");
    assert_eq!(g.find_permission_by_name("content::*").unwrap_err(), DbError::EntryNotFound);
    let staff = g.create_group("root", "staff", "Staff", 7).unwrap();
    let found = g.find_group_by_slug("staff").unwrap();
    assert_eq!(found.id, staff.id);
    assert_eq!(g.find_group(staff.id).unwrap().created_by, "root");
    assert_eq!(g.find_group_by_slug("none").unwrap_err(), DbError::EntryNotFound);
}

#[test]
fn users_are_renamed_and_blocked() {
    let (mut g, alice, _, _) = sample();
    let bob = g.create_user("bob", "hash-b".to_string()).unwrap().id;
    let m = g.update_user(alice, &UserUpdateModel { login: "alicia".to_string() }).unwrap();
    assert_eq!((m.id, m.login.as_str(), m.password.as_str()), (alice, "alicia", "hash-a"));
    assert_eq!(
        g.update_user(bob, &UserUpdateModel { login: "alicia".to_string() }).unwrap_err(),
        DbError::EntryUpdate
    );
    assert!(g.update_user(bob, &UserUpdateModel { login: "bob".to_string() }).is_ok());
    assert_eq!(
        g.update_user(99, &UserUpdateModel { login: "zed".to_string() }).unwrap_err(),
        DbError::EntryUpdate
    );
    assert_eq!(g.set_blocked(alice, true), Ok(()));
    assert!(g.find_user(alice).unwrap().blocked);
    assert_eq!(g.set_blocked(alice, false), Ok(()));
    assert!(!g.find_user(alice).unwrap().blocked);
    assert_eq!(g.set_blocked(99, true), Err(DbError::EntryUpdate));
}

#[test]
fn roles_and_groups_are_updated() {
    let (mut g, alice, editor, write) = sample();
    g.assign_role(alice, editor).unwrap();
    g.grant_permission(editor, write).unwrap();
    let chief = g.create_role("chief", "Chief", 11).unwrap().id;
    let payload = RoleUpdateModel { name: "writer".to_string(), title: "Writer".to_string() };
    let m = g.update_role(editor, &payload, 20).unwrap();
    assert_eq!((m.id, m.name.as_str(), m.title.as_str(), m.created_at, m.updated_at), (editor, "writer", "Writer", 10, 20));
    assert_eq!(g.effective_roles(alice), Ok(names(&["writer"])));
    assert_eq!(g.effective_permissions(alice), Ok(names(&["content::write"])));
    assert_eq!(g.update_role(chief, &payload, 21).unwrap_err(), DbError::EntryUpdate);
    assert_eq!(g.update_role(99, &payload, 21).unwrap_err(), DbError::EntryUpdate);
    let staff = g.create_group("root", "staff", "Staff", 5).unwrap().id;
    let m = g.update_group(staff, "alice", &GroupUpdateModel { title: "Team".to_string() }, 9).unwrap();
    assert_eq!(
        (m.slug.as_str(), m.title.as_str(), m.created_at, m.updated_at, m.created_by.as_str(), m.updated_by.as_str()),
        ("staff", "Team", 5, 9, "root", "alice")
    );
    assert_eq!(
        g.update_group(99, "alice", &GroupUpdateModel { title: "T".to_string() }, 9).unwrap_err(),
        DbError::EntryUpdate
    );
}

#[test]
fn replacing_permissions_passes_over_unknown_names() {
    let (mut g, alice, editor, write) = sample();
    let read = g.create_permission("content::read").unwrap().id;
    g.assign_role(alice, editor).unwrap();
    g.grant_permission(editor, read).unwrap();
    let list = names(&["content::write", "ghost::write", "content::write"]);
    assert_eq!(g.replace_role_permissions(editor, &list), Ok(()));
    assert_eq!(g.effective_permissions(alice), Ok(names(&["content::write"])));
    assert_eq!(g.replace_role_permissions(editor, &names(&[])), Ok(()));
    assert_eq!(g.effective_permissions(alice), Ok(names(&[])));
    assert_eq!(g.replace_role_permissions(99, &list), Err(DbError::EntryNotFound));
    let _ = write;
}

#[test]
fn all_roles_come_in_the_order_made() {
    let (mut g, _, _, _) = sample();
    g.create_role("chief", "Chief", 11).unwrap();
    let all = g.all_roles();
    let listed: Vec<&str> = all.iter().map(|r| r.name.as_str()).collect();
    assert_eq!(listed, vec!["editor", "chief"]);
}

#[test]
fn the_default_group_is_empty() {
    let g = GroupModel::default();
    assert_eq!(g.id, 0);
    assert_eq!(g.slug, "");
    assert_eq!(g.title, "");
    assert_eq!((g.created_at, g.updated_at), (0, 0));
    assert_eq!(g.created_by, "");
    assert_eq!(g.updated_by, "");
}

#[test]
fn assigning_and_granting_reach_nobody_else() {
    let (mut g, alice, editor, write) = sample();
    let bob = g.create_user("bob", "hash-b".to_string()).unwrap().id;
    g.grant_permission(editor, write).unwrap();
    g.assign_role(alice, editor).unwrap();
    assert_eq!(g.effective_permissions(bob), Ok(names(&[])));
    assert_eq!(g.effective_roles(bob), Ok(names(&[])));
    let read = g.create_permission("content::read").unwrap().id;
    g.grant_permission(editor, read).unwrap();
    assert_eq!(g.effective_permissions(bob), Ok(names(&[])));
    assert_eq!(g.effective_permissions(alice), Ok(names(&["content::read", "content::write"])));
}
