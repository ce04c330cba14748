use mtc_auth::endpoint::{
    decimal, user_endpoint, user_groups_endpoint, user_list_endpoint, user_roles_endpoint,
};
use mtc_auth::error::{ApiError, SessionError};
use mtc_auth::graph::AuthorizationGraph;
use mtc_auth::handler::{page_bounds, role_list_handler};
use mtc_auth::page::{
    can_add_content, can_delete_content, can_save_content, content_page_visible,
    editor_page_visible, private_storage_visible, schema_page_visible, storage_visible,
};
use mtc_auth::policy::Resource;
use mtc_auth::session::{SessionContext, SessionManager};

fn context(permissions: &[&str]) -> SessionContext {
    let mut list: Vec<String> = permissions.iter().map(|s| s.to_string()).collect();
    list.sort();
    SessionContext { user_id: 1, roles: Vec::new(), permissions: list, groups: Vec::new() }
}

#[test]
fn content_pages_are_for_writers_who_read_schemas() {
    assert!(content_page_visible(&context(&["writer", "schema::read"])));
    assert!(!content_page_visible(&context(&["writer"])));
    assert!(!content_page_visible(&context(&["schema::read"])));
    assert!(editor_page_visible(&context(&["writer", "schema::read"])));
    assert!(!editor_page_visible(&context(&[])));
    assert!(schema_page_visible(&context(&["schema::read"])));
    assert!(!schema_page_visible(&context(&["schema::write"])));
    assert!(context(&["a", "b"]).is_permission("b"));
    assert!(!context(&["a", "b"]).is_permission("c"));
}

#[test]
fn editor_offers_what_the_schema_permission_allows() {
    let public = Resource { slug: "news".to_string(), is_public: true };
    let scoped = Resource { slug: "news".to_string(), is_public: false };
    let auth = context(&["content::write", "news::delete", "storage::read"]);
    assert!(can_save_content(&auth, &public));
    assert!(!can_save_content(&auth, &scoped));
    assert!(can_delete_content(&auth, &scoped, true));
    assert!(!can_delete_content(&auth, &scoped, false));
    assert!(!can_delete_content(&auth, &public, true));
    assert!(can_add_content(&auth, "news", &public));
    assert!(!can_add_content(&auth, "singles", &public));
    assert!(!can_add_content(&auth, "news", &scoped));
    assert!(storage_visible(&auth));
    assert!(!private_storage_visible(&auth));
    assert!(private_storage_visible(&context(&["private_storage::read"])));
}

#[test]
fn numbers_are_written_in_decimal() {
    assert_eq!(decimal(0), "0");
    assert_eq!(decimal(7), "7");
    assert_eq!(decimal(10), "10");
    assert_eq!(decimal(1234567890), "1234567890");
    assert_eq!(decimal(usize::MAX), usize::MAX.to_string());
}

#[test]
fn user_addresses_are_joined_by_slashes() {
    assert_eq!(user_endpoint("http://api", "alice"), "http://api/user/alice");
    assert_eq!(user_list_endpoint("http://api", 12), "http://api/user/list/12");
    assert_eq!(user_groups_endpoint("http://api", "alice"), "http://api/user/alice/groups");
    assert_eq!(user_roles_endpoint("http://api", "alice"), "http://api/user/alice/roles");
    assert_eq!(user_endpoint("", ""), "/user/");
}

#[test]
fn page_bounds_cut_the_rows_into_pages() {
    assert_eq!(page_bounds(25, 10, 1), (0, 10));
    assert_eq!(page_bounds(25, 10, 0), (0, 10));
    assert_eq!(page_bounds(25, 10, 2), (10, 20));
    assert_eq!(page_bounds(25, 10, 3), (20, 25));
    assert_eq!(page_bounds(25, 10, 4), (25, 25));
    assert_eq!(page_bounds(25, 10, usize::MAX), (25, 25));
    assert_eq!(page_bounds(25, usize::MAX, 2), (25, 25));
    assert_eq!(page_bounds(25, 0, 3), (0, 0));
    assert_eq!(page_bounds(0, 10, 1), (0, 0));
    assert_eq!(page_bounds(20, 10, 2), (10, 20));
    assert_eq!(page_bounds(20, 10, 3), (20, 20));
}

#[test]
fn roles_are_listed_by_page() {
    let mut g = AuthorizationGraph::new();
    let root = g.create_user("root", "h".to_string()).unwrap().id;
    let admin = g.create_role("r0", "R0", 0).unwrap().id;
    let read = g.create_permission("role::read").unwrap().id;
    g.grant_permission(admin, read).unwrap();
    g.assign_role(root, admin).unwrap();
    for name in ["r1", "r2", "r3", "r4"] {
        g.create_role(name, name, 0).unwrap();
    }
    let mut s = SessionManager::new(60);
    s.create_session(&g, root, "t".to_string(), 0).unwrap();
    let listed = |list: Vec<mtc_auth::model::RoleModel>| -> Vec<String> {
        list.into_iter().map(|r| r.name).collect()
    };
    assert_eq!(listed(role_list_handler(&g, &mut s, "t", 1, None, 2).unwrap()), vec!["r0", "r1"]);
    assert_eq!(listed(role_list_handler(&g, &mut s, "t", 1, Some(2), 2).unwrap()), vec!["r2", "r3"]);
    assert_eq!(listed(role_list_handler(&g, &mut s, "t", 1, Some(3), 2).unwrap()), vec!["r4"]);
    assert_eq!(listed(role_list_handler(&g, &mut s, "t", 1, Some(4), 2).unwrap()), Vec::<String>::new());
    assert_eq!(
        role_list_handler(&g, &mut s, "x", 1, None, 2).unwrap_err(),
        ApiError::Session(SessionError::InvalidSession)
    );
    assert_eq!(listed(g.roles_between(3, 99)), vec!["r3", "r4"]);
    assert_eq!(listed(g.roles_between(4, 2)), Vec::<String>::new());
    assert_eq!(g.role_count(), 5);
}

#[test]
fn expired_sessions_are_purged() {
    let mut g = AuthorizationGraph::new();
    let alice = g.create_user("alice", "h".to_string()).unwrap().id;
    let mut s = SessionManager::new(10);
    s.create_session(&g, alice, "a".to_string(), 0).unwrap();
    s.create_session(&g, alice, "b".to_string(), 5).unwrap();
    s.create_session(&g, alice, "c".to_string(), 1).unwrap();
    s.purge_expired(9);
    assert!(s.resolve(&g, "a", 9).is_ok());
    s.purge_expired(11);
    assert_eq!(s.resolve(&g, "a", 11).unwrap_err(), SessionError::InvalidSession);
    assert_eq!(s.resolve(&g, "c", 11).unwrap_err(), SessionError::InvalidSession);
    assert!(s.resolve(&g, "b", 11).is_ok());
    assert_eq!(s.resolve(&g, "b", 15).unwrap_err(), SessionError::SessionExpired);
    s.purge_expired(15);
    assert_eq!(s.resolve(&g, "b", 15).unwrap_err(), SessionError::InvalidSession);
    assert!(s.create_session(&g, alice, "a".to_string(), 20).is_ok());
}
