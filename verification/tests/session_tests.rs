use mtc_auth::error::SessionError;
use mtc_auth::graph::AuthorizationGraph;
use mtc_auth::policy::{AccessPolicy, Operation, Resource};
use mtc_auth::session::SessionManager;

fn names(list: &[&str]) -> Vec<String> {
    list.iter().map(|s| s.to_string()).collect()
}

fn sample() -> (AuthorizationGraph, u64, u64, u64) {
    let mut g = AuthorizationGraph::new();
    let alice = g.create_user("alice", "hash-a".to_string()).unwrap().id;
    let editor = g.create_role("editor", "Editor", 10).unwrap().id;
    let write = g.create_permission("content::write").unwrap().id;
    g.assign_role(alice, editor).unwrap();
    g.grant_permission(editor, write).unwrap();
    (g, alice, editor, write)
}

fn public_page() -> Resource {
    Resource { slug: "news".to_string(), is_public: true }
}

#[test]
fn session_lives_until_its_ttl_has_passed() {
    let (g, alice, _, _) = sample();
    let mut s = SessionManager::new(60);
    assert_eq!(s.create_session(&g, alice, "t1".to_string(), 100), Ok("t1".to_string()));
    let c = s.resolve(&g, "t1", 100).unwrap();
    assert_eq!(c.user_id, alice);
    assert_eq!(c.permissions, names(&["content::write"]));
    assert_eq!(c.roles, names(&["editor"]));
    assert_eq!(c.groups, names(&[]));
    assert!(s.resolve(&g, "t1", 159).is_ok());
    assert!(s.has_permission(&g, "t1", "content::write", 159));
    assert_eq!(s.resolve(&g, "t1", 160).unwrap_err(), SessionError::SessionExpired);
    assert_eq!(s.resolve(&g, "t1", 1000).unwrap_err(), SessionError::SessionExpired);
    assert!(!s.has_permission(&g, "t1", "content::write", 160));
    assert_eq!(s.permission(&g, "t1", "content::write", 160), Err(SessionError::SessionExpired));
    assert_eq!(
        AccessPolicy::authorize(&mut s, &g, "t1", &public_page(), Operation::Write, 160),
        Err(SessionError::SessionExpired)
    );
}

#[test]
fn expiry_stops_at_the_end_of_time() {
    let (g, alice, _, _) = sample();
    let mut s = SessionManager::new(u64::MAX);
    s.create_session(&g, alice, "t".to_string(), 5).unwrap();
    assert!(s.resolve(&g, "t", u64::MAX - 1).is_ok());
    assert_eq!(s.resolve(&g, "t", u64::MAX).unwrap_err(), SessionError::SessionExpired);
    let mut zero = SessionManager::new(0);
    zero.create_session(&g, alice, "t".to_string(), 5).unwrap();
    assert_eq!(zero.resolve(&g, "t", 5).unwrap_err(), SessionError::SessionExpired);
}

#[test]
fn revoked_permission_shows_after_invalidation() {
    let (mut g, alice, editor, write) = sample();
    let mut s = SessionManager::new(3600);
    s.create_session(&g, alice, "alice-token".to_string(), 0).unwrap();
    assert_eq!(
        AccessPolicy::authorize(&mut s, &g, "alice-token", &public_page(), Operation::Write, 1),
        Ok(())
    );
    g.revoke_permission(editor, write).unwrap();
    // the snapshot is still the old one
    assert_eq!(
        AccessPolicy::authorize(&mut s, &g, "alice-token", &public_page(), Operation::Write, 2),
        Ok(())
    );
    s.invalidate("alice-token");
    assert_eq!(
        AccessPolicy::authorize(&mut s, &g, "alice-token", &public_page(), Operation::Write, 3),
        Err(SessionError::AccessForbidden)
    );
    assert!(s.resolve(&g, "alice-token", 4).is_ok());
}

#[test]
fn blocked_user_gets_no_session() {
    let (mut g, alice, _, _) = sample();
    g.set_blocked(alice, true).unwrap();
    let mut s = SessionManager::new(60);
    assert_eq!(s.create_session(&g, alice, "t".to_string(), 0), Err(SessionError::UserBlocked));
    assert_eq!(s.resolve(&g, "t", 0).unwrap_err(), SessionError::InvalidSession);
    assert!(!s.has_permission(&g, "t", "content::write", 0));
}

#[test]
fn sessions_are_refused_for_unknown_users_and_used_tokens() {
    let (mut g, alice, _, _) = sample();
    let bob = g.create_user("bob", "hash-b".to_string()).unwrap().id;
    let mut s = SessionManager::new(60);
    assert_eq!(s.create_session(&g, 99, "t".to_string(), 0), Err(SessionError::InvalidCredentials));
    assert_eq!(s.create_session(&g, alice, "t".to_string(), 0), Ok("t".to_string()));
    assert_eq!(s.create_session(&g, bob, "t".to_string(), 0), Err(SessionError::SessionToken));
    assert_eq!(s.auth_id(&g, "t", 1), Ok(alice));
    assert_eq!(s.auth_id(&g, "u", 1), Err(SessionError::InvalidSession));
}

#[test]
fn unknown_token_is_an_invalid_session() {
    let (g, _, _, _) = sample();
    let mut s = SessionManager::new(60);
    assert_eq!(s.resolve(&g, "nope", 0).unwrap_err(), SessionError::InvalidSession);
    assert_eq!(s.permission(&g, "nope", "content::write", 0), Err(SessionError::InvalidSession));
    assert_eq!(
        AccessPolicy::authorize(&mut s, &g, "nope", &public_page(), Operation::Read, 0),
        Err(SessionError::InvalidSession)
    );
}

#[test]
fn snapshot_is_kept_until_it_is_invalidated() {
    let (mut g, alice, editor, _) = sample();
    let read = g.create_permission("content::read").unwrap().id;
    let mut s = SessionManager::new(60);
    s.create_session(&g, alice, "t".to_string(), 0).unwrap();
    g.grant_permission(editor, read).unwrap();
    assert!(!s.has_permission(&g, "t", "content::read", 1));
    s.invalidate_all_for_user(alice);
    assert!(s.has_permission(&g, "t", "content::read", 2));
    assert_eq!(s.resolve(&g, "t", 3).unwrap().permissions, names(&["content::read", "content::write"]));
}

#[test]
fn invalidating_a_role_reaches_its_holders_only() {
    let (mut g, alice, editor, write) = sample();
    let bob = g.create_user("bob", "hash-b".to_string()).unwrap().id;
    let chief = g.create_role("chief", "Chief", 1).unwrap().id;
    g.assign_role(bob, chief).unwrap();
    g.grant_permission(chief, write).unwrap();
    let mut s = SessionManager::new(60);
    s.create_session(&g, alice, "a".to_string(), 0).unwrap();
    s.create_session(&g, bob, "b".to_string(), 0).unwrap();
    g.revoke_permission(editor, write).unwrap();
    g.revoke_permission(chief, write).unwrap();
    s.invalidate_role(&g, editor);
    assert!(!s.has_permission(&g, "a", "content::write", 1));
    assert!(s.has_permission(&g, "b", "content::write", 1));
}

#[test]
fn invalidated_session_of_a_blocked_or_deleted_user_is_invalid() {
    let (mut g, alice, _, _) = sample();
    let mut s = SessionManager::new(60);
    s.create_session(&g, alice, "t".to_string(), 0).unwrap();
    g.set_blocked(alice, true).unwrap();
    assert!(s.resolve(&g, "t", 1).is_ok());
    s.invalidate("t");
    assert_eq!(s.resolve(&g, "t", 2).unwrap_err(), SessionError::InvalidSession);
    g.set_blocked(alice, false).unwrap();
    assert!(s.resolve(&g, "t", 3).is_ok());
    s.invalidate("t");
    g.delete_user(alice);
    assert_eq!(s.resolve(&g, "t", 4).unwrap_err(), SessionError::InvalidSession);
}

#[test]
fn revoked_session_is_gone() {
    let (g, alice, _, _) = sample();
    let mut s = SessionManager::new(60);
    s.create_session(&g, alice, "t".to_string(), 0).unwrap();
    s.create_session(&g, alice, "u".to_string(), 0).unwrap();
    s.revoke("t");
    assert_eq!(s.resolve(&g, "t", 1).unwrap_err(), SessionError::InvalidSession);
    assert!(s.resolve(&g, "u", 1).is_ok());
    s.revoke("t");
    s.invalidate("t");
    assert!(s.create_session(&g, alice, "t".to_string(), 2).is_ok());
}

#[test]
fn required_permission_is_named_by_scope_and_operation() {
    let public = public_page();
    let scoped = Resource { slug: "news".to_string(), is_public: false };
    assert_eq!(AccessPolicy::required_permission(&public, Operation::Write), "content::write");
    assert_eq!(AccessPolicy::required_permission(&public, Operation::Read), "content::read");
    assert_eq!(AccessPolicy::required_permission(&public, Operation::Delete), "content::delete");
    assert_eq!(AccessPolicy::required_permission(&scoped, Operation::Write), "news::write");
    assert_eq!(AccessPolicy::required_permission(&scoped, Operation::Read), "news::read");
    assert_eq!(AccessPolicy::required_permission(&scoped, Operation::Delete), "news::delete");
    let empty = Resource { slug: String::new(), is_public: false };
    assert_eq!(AccessPolicy::required_permission(&empty, Operation::Read), "::read");
}

#[test]
fn scoped_resource_asks_for_its_own_permission() {
    let (mut g, alice, editor, _) = sample();
    let mut s = SessionManager::new(60);
    s.create_session(&g, alice, "t".to_string(), 0).unwrap();
    let scoped = Resource { slug: "news".to_string(), is_public: false };
    assert_eq!(
        AccessPolicy::authorize(&mut s, &g, "t", &scoped, Operation::Write, 1),
        Err(SessionError::AccessForbidden)
    );
    let p = g.create_permission("news::write").unwrap().id;
    g.grant_permission(editor, p).unwrap();
    s.invalidate_role(&g, editor);
    assert_eq!(AccessPolicy::authorize(&mut s, &g, "t", &scoped, Operation::Write, 2), Ok(()));
    assert_eq!(
        AccessPolicy::authorize(&mut s, &g, "t", &scoped, Operation::Delete, 2),
        Err(SessionError::AccessForbidden)
    );
}
