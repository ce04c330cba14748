use mtc_auth::error::{ApiError, DbError, SessionError};
use mtc_auth::graph::AuthorizationGraph;
use mtc_auth::handler::{
    role_all_handler, role_create_handler, role_delete_handler, role_get_handler,
    role_get_permissions, role_list_delete_handler, role_set_permissions, role_update_handler,
};
use mtc_auth::model::{RoleCreateModel, RoleUpdateModel};
use mtc_auth::session::SessionManager;

fn names(list: &[&str]) -> Vec<String> {
    list.iter().map(|s| s.to_string()).collect()
}

/// An administrator `root` with every role permission and a session `root-token`,
/// and a user `alice` with the role `editor`, granted `content::write`, and a
/// session `alice-token`.
fn sample() -> (AuthorizationGraph, SessionManager, u64, u64) {
    let mut g = AuthorizationGraph::new();
    let root = g.create_user("root", "hash-r".to_string()).unwrap().id;
    let alice = g.create_user("alice", "hash-a".to_string()).unwrap().id;
    let admin = g.create_role("administrator", "Administrator", 0).unwrap().id;
    let editor = g.create_role("editor", "Editor", 0).unwrap().id;
    for name in ["role::read", "role::write", "role::delete"] {
        let p = g.create_permission(name).unwrap().id;
        g.grant_permission(admin, p).unwrap();
    }
    let write = g.create_permission("content::write").unwrap().id;
    g.create_permission("content::read").unwrap();
    g.grant_permission(editor, write).unwrap();
    g.assign_role(root, admin).unwrap();
    g.assign_role(alice, editor).unwrap();
    let mut s = SessionManager::new(3600);
    s.create_session(&g, root, "root-token".to_string(), 0).unwrap();
    s.create_session(&g, alice, "alice-token".to_string(), 0).unwrap();
    (g, s, alice, editor)
}

#[test]
fn bulk_grant_passes_over_an_unknown_permission() {
    let (mut g, mut s, alice, _) = sample();
    let list = names(&["content::read", "ghost::write", "content::write"]);
    let r = role_set_permissions(&mut g, &mut s, "root-token", 1, "editor", &list);
    assert_eq!(r, Ok(names(&["content::read", "content::write"])));
    assert_eq!(g.effective_permissions(alice), Ok(names(&["content::read", "content::write"])));
    assert!(!g.effective_permissions(alice).unwrap().contains(&"ghost::write".to_string()));
}

#[test]
fn setting_permissions_replaces_the_old_ones_and_reaches_open_sessions() {
    let (mut g, mut s, alice, _) = sample();
    assert!(s.has_permission(&g, "alice-token", "content::write", 1));
    let r = role_set_permissions(&mut g, &mut s, "root-token", 2, "editor", &names(&["content::read"]));
    assert_eq!(r, Ok(names(&["content::read"])));
    assert_eq!(g.effective_permissions(alice), Ok(names(&["content::read"])));
    assert!(!s.has_permission(&g, "alice-token", "content::write", 3));
    assert!(s.has_permission(&g, "alice-token", "content::read", 3));
    assert!(s.has_permission(&g, "root-token", "role::write", 3));
}

#[test]
fn operations_are_refused_before_anything_changes() {
    let (mut g, mut s, alice, editor) = sample();
    let list = names(&["content::read"]);
    let forbidden = ApiError::Session(SessionError::AccessForbidden);
    assert_eq!(role_set_permissions(&mut g, &mut s, "alice-token", 1, "editor", &list), Err(forbidden));
    assert_eq!(role_delete_handler(&mut g, &mut s, "alice-token", 1, "editor"), Err(forbidden));
    assert_eq!(
        role_list_delete_handler(&mut g, &mut s, "alice-token", 1, &names(&["editor"])),
        Err(forbidden)
    );
    let payload = RoleCreateModel { name: "chief".to_string(), title: "Chief".to_string() };
    assert_eq!(role_create_handler(&mut g, &mut s, "alice-token", 1, &payload, &None).unwrap_err(), forbidden);
    let change = RoleUpdateModel { name: "writer".to_string(), title: "Writer".to_string() };
    assert_eq!(
        role_update_handler(&mut g, &mut s, "alice-token", 1, "editor", &change, &None).unwrap_err(),
        forbidden
    );
    assert_eq!(role_all_handler(&g, &mut s, "alice-token", 1).unwrap_err(), forbidden);
    assert_eq!(role_get_handler(&g, &mut s, "alice-token", 1, "editor").unwrap_err(), forbidden);
    assert_eq!(role_get_permissions(&g, &mut s, "alice-token", 1, "editor"), Err(forbidden));
    assert_eq!(g.effective_permissions(alice), Ok(names(&["content::write"])));
    assert_eq!(g.find_role(editor).unwrap().name, "editor");
    assert_eq!(g.all_roles().len(), 2);
}

#[test]
fn operations_forward_the_error_of_the_session() {
    let (mut g, mut s, _, _) = sample();
    assert_eq!(
        role_set_permissions(&mut g, &mut s, "none", 1, "editor", &names(&[])),
        Err(ApiError::Session(SessionError::InvalidSession))
    );
    assert_eq!(
        role_delete_handler(&mut g, &mut s, "root-token", 3600, "editor"),
        Err(ApiError::Session(SessionError::SessionExpired))
    );
    assert!(g.find_role_by_name("editor").is_ok());
}

#[test]
fn roles_are_read() {
    let (g, mut s, _, editor) = sample();
    let all = role_all_handler(&g, &mut s, "root-token", 1).unwrap();
    let listed: Vec<&str> = all.iter().map(|r| r.name.as_str()).collect();
    assert_eq!(listed, vec!["administrator", "editor"]);
    let (role, permissions) = role_get_handler(&g, &mut s, "root-token", 1, "editor").unwrap();
    assert_eq!((role.id, role.title.as_str()), (editor, "Editor"));
    assert_eq!(permissions, names(&["content::write"]));
    assert_eq!(
        role_get_permissions(&g, &mut s, "root-token", 1, "administrator"),
        Ok(names(&["role::delete", "role::read", "role::write"]))
    );
    assert_eq!(
        role_get_handler(&g, &mut s, "root-token", 1, "nobody").unwrap_err(),
        ApiError::Db(DbError::EntryNotFound)
    );
    assert_eq!(
        role_get_permissions(&g, &mut s, "root-token", 1, "nobody"),
        Err(ApiError::Db(DbError::EntryNotFound))
    );
}

#[test]
fn role_is_created_with_its_permissions() {
    let (mut g, mut s, _, _) = sample();
    let payload = RoleCreateModel { name: "chief".to_string(), title: "Chief".to_string() };
    let list = Some(names(&["content::read", "ghost::write"]));
    let role = role_create_handler(&mut g, &mut s, "root-token", 7, &payload, &list).unwrap();
    assert_eq!((role.name.as_str(), role.title.as_str(), role.created_at), ("chief", "Chief", 7));
    assert_eq!(g.permissions_of_role(role.id), names(&["content::read"]));
    assert_eq!(
        role_create_handler(&mut g, &mut s, "root-token", 8, &payload, &None).unwrap_err(),
        ApiError::Db(DbError::EntryAlreadyExists)
    );
    let plain = RoleCreateModel { name: "guest".to_string(), title: "Guest".to_string() };
    let role = role_create_handler(&mut g, &mut s, "root-token", 9, &plain, &None).unwrap();
    assert_eq!(g.permissions_of_role(role.id), names(&[]));
}

#[test]
fn role_is_updated_and_its_permissions_replaced() {
    let (mut g, mut s, alice, editor) = sample();
    let change = RoleUpdateModel { name: "writer".to_string(), title: "Writer".to_string() };
    let list = Some(names(&["content::read"]));
    let role = role_update_handler(&mut g, &mut s, "root-token", 5, "editor", &change, &list).unwrap();
    assert_eq!((role.id, role.name.as_str(), role.updated_at), (editor, "writer", 5));
    assert_eq!(g.effective_roles(alice), Ok(names(&["writer"])));
    assert_eq!(g.effective_permissions(alice), Ok(names(&["content::read"])));
    assert!(!s.has_permission(&g, "alice-token", "content::write", 6));
    // without a list the role is left with no permission
    let role = role_update_handler(&mut g, &mut s, "root-token", 7, "writer", &change, &None).unwrap();
    assert_eq!(g.permissions_of_role(role.id), names(&[]));
    assert_eq!(
        role_update_handler(&mut g, &mut s, "root-token", 8, "editor", &change, &None).unwrap_err(),
        ApiError::Db(DbError::EntryNotFound)
    );
    let taken = RoleUpdateModel { name: "administrator".to_string(), title: "X".to_string() };
    assert_eq!(
        role_update_handler(&mut g, &mut s, "root-token", 9, "writer", &taken, &list).unwrap_err(),
        ApiError::Db(DbError::EntryUpdate)
    );
    assert_eq!(g.find_role(editor).unwrap().name, "writer");
}

#[test]
fn role_is_deleted_with_its_edges() {
    let (mut g, mut s, alice, editor) = sample();
    assert_eq!(role_delete_handler(&mut g, &mut s, "root-token", 1, "editor"), Ok(()));
    assert_eq!(g.effective_roles(alice), Ok(names(&[])));
    assert_eq!(g.permissions_of_role(editor), names(&[]));
    assert!(!s.has_permission(&g, "alice-token", "content::write", 2));
    assert_eq!(role_delete_handler(&mut g, &mut s, "root-token", 3, "editor"), Ok(()));
    assert_eq!(g.all_roles().len(), 1);
}

#[test]
fn roles_are_deleted_by_list() {
    let (mut g, mut s, alice, _) = sample();
    g.create_role("guest", "Guest", 0).unwrap();
    let list = names(&["guest", "nobody", "editor"]);
    assert_eq!(role_list_delete_handler(&mut g, &mut s, "root-token", 1, &list), Ok(()));
    let all = g.all_roles();
    let listed: Vec<&str> = all.iter().map(|r| r.name.as_str()).collect();
    assert_eq!(listed, vec!["administrator"]);
    assert_eq!(g.effective_roles(alice), Ok(names(&[])));
    assert_eq!(role_list_delete_handler(&mut g, &mut s, "root-token", 2, &names(&[])), Ok(()));
}

#[test]
fn deleting_the_own_role_ends_the_own_rights() {
    let (mut g, mut s, _, _) = sample();
    let list = names(&["administrator", "editor"]);
    assert_eq!(role_list_delete_handler(&mut g, &mut s, "root-token", 1, &list), Ok(()));
    assert_eq!(g.all_roles().len(), 0);
    assert_eq!(
        role_all_handler(&g, &mut s, "root-token", 2).unwrap_err(),
        ApiError::Session(SessionError::AccessForbidden)
    );
}
