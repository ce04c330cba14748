use mtc_auth::auth::{sign_in, sign_in_with};
use mtc_auth::error::{ApiError, DbError, SessionError};
use mtc_auth::graph::AuthorizationGraph;
use mtc_auth::model::{GroupCreateModel, GroupUpdateModel, UserCreateModel, UserUpdateModel};
use mtc_auth::password::{check_password, hash_password, same_text_steady, verify_password};
use mtc_auth::repository::{
    store_user, GroupRepositoryTrait, GroupService, UserRepository, UserRepositoryTrait,
};
use mtc_auth::session::SessionManager;

const SALT: &str = "c29tZXNhbHR2YWx1ZQ";

fn names(list: &[&str]) -> Vec<String> {
    list.iter().map(|s| s.to_string()).collect()
}

#[test]
fn password_hash_is_an_argon2_string_over_the_salt() {
    let h = hash_password("secret", SALT).unwrap();
    assert!(h.starts_with("$argon2id$v=19$m=19456,t=2,p=1$c29tZXNhbHR2YWx1ZQ$"));
    assert_ne!(h, "secret");
    assert_eq!(h.len(), "$argon2id$v=19$m=19456,t=2,p=1$c29tZXNhbHR2YWx1ZQ$".len() + 43);
    assert_eq!(hash_password("secret", SALT), Ok(h.clone()));
    assert_ne!(hash_password("Secret", SALT), Ok(h));
}

#[test]
fn bad_salt_is_a_hash_failure() {
    assert_eq!(hash_password("secret", "not a salt!"), Err(SessionError::PasswordHash));
    assert_eq!(hash_password("secret", "abc"), Err(SessionError::PasswordHash));
    assert_eq!(hash_password("secret", ""), Err(SessionError::PasswordHash));
    assert_eq!(verify_password("stored", "secret", "abc"), Err(SessionError::PasswordHash));
}

#[test]
fn password_is_verified_against_the_stored_hash() {
    let h = hash_password("secret", SALT).unwrap();
    assert_eq!(verify_password(&h, "secret", SALT), Ok(()));
    assert_eq!(verify_password(&h, "secre", SALT), Err(SessionError::InvalidCredentials));
}

#[test]
fn check_password_tells_failure_from_mismatch() {
    assert_eq!(check_password("abc", &Some("abc".to_string())), Ok(()));
    assert_eq!(check_password("abc", &Some("abd".to_string())), Err(SessionError::InvalidCredentials));
    assert_eq!(check_password("abc", &Some("ab".to_string())), Err(SessionError::InvalidCredentials));
    assert_eq!(check_password("abc", &None), Err(SessionError::PasswordHash));
}

#[test]
fn steady_comparison_is_equality() {
    assert!(same_text_steady("", ""));
    assert!(same_text_steady("abc", "abc"));
    assert!(!same_text_steady("abc", "abd"));
    assert!(!same_text_steady("xbc", "abc"));
    assert!(!same_text_steady("abc", "abcd"));
}

#[test]
fn users_are_registered_with_a_hashed_password() {
    let mut g = AuthorizationGraph::new();
    let repo = UserRepository::new(SALT.to_string());
    let model = UserCreateModel { login: "alice".to_string(), password: "secret".to_string() };
    let user = repo.create(&mut g, model).unwrap();
    assert_eq!((user.id, user.login.as_str(), user.blocked), (1, "alice", false));
    assert_eq!(Ok(user.password.clone()), hash_password("secret", SALT));
    assert_eq!(repo.find(&g, 1).unwrap().password, user.password);
    assert_eq!(repo.find_by_login(&g, "alice").unwrap().id, 1);
    let again = UserCreateModel { login: "alice".to_string(), password: "other".to_string() };
    assert_eq!(repo.create(&mut g, again).unwrap_err(), ApiError::Db(DbError::EntryAlreadyExists));
    let broken = UserRepository::new("?".to_string());
    let model = UserCreateModel { login: "bob".to_string(), password: "secret".to_string() };
    assert_eq!(broken.create(&mut g, model).unwrap_err(), ApiError::Session(SessionError::PasswordHash));
    assert_eq!(repo.find_by_login(&g, "bob").unwrap_err(), ApiError::Db(DbError::EntryNotFound));
}

#[test]
fn store_user_forwards_the_hash_failure() {
    let mut g = AuthorizationGraph::new();
    assert_eq!(
        store_user(&mut g, "alice", Err(SessionError::PasswordHash)).unwrap_err(),
        ApiError::Session(SessionError::PasswordHash)
    );
    let user = store_user(&mut g, "alice", Ok("h".to_string())).unwrap();
    assert_eq!((user.id, user.password.as_str()), (1, "h"));
    assert_eq!(
        store_user(&mut g, "alice", Ok("h".to_string())).unwrap_err(),
        ApiError::Db(DbError::EntryAlreadyExists)
    );
}

#[test]
fn user_repository_changes_roles_and_open_sessions() {
    let mut g = AuthorizationGraph::new();
    let mut s = SessionManager::new(60);
    let repo = UserRepository::new(SALT.to_string());
    let alice = g.create_user("alice", "h".to_string()).unwrap().id;
    let editor = g.create_role("editor", "Editor", 0).unwrap().id;
    let write = g.create_permission("content::write").unwrap().id;
    g.grant_permission(editor, write).unwrap();
    s.create_session(&g, alice, "t".to_string(), 0).unwrap();
    assert_eq!(repo.assign_role(&mut g, &mut s, alice, editor), Ok(()));
    assert_eq!(repo.roles(&g, alice), Ok(names(&["editor"])));
    assert_eq!(repo.permissions(&g, alice), Ok(names(&["content::write"])));
    assert_eq!(repo.groups(&g, alice), Ok(names(&[])));
    assert!(s.has_permission(&g, "t", "content::write", 1));
    assert_eq!(repo.unassign_role(&mut g, &mut s, alice, editor), Ok(()));
    assert!(!s.has_permission(&g, "t", "content::write", 2));
    assert_eq!(repo.unassign_role(&mut g, &mut s, alice, editor), Ok(()));
    assert_eq!(
        repo.assign_role(&mut g, &mut s, alice, 99),
        Err(ApiError::Db(DbError::EntryNotFound))
    );
    assert_eq!(repo.permissions(&g, 99), Err(ApiError::Db(DbError::EntryNotFound)));
    assert_eq!(repo.roles(&g, 99), Err(ApiError::Db(DbError::EntryNotFound)));
    assert_eq!(repo.groups(&g, 99), Err(ApiError::Db(DbError::EntryNotFound)));
    let m = repo.update(&mut g, alice, UserUpdateModel { login: "alicia".to_string() }).unwrap();
    assert_eq!(m.login, "alicia");
    assert_eq!(
        repo.update(&mut g, 99, UserUpdateModel { login: "x".to_string() }).unwrap_err(),
        ApiError::Db(DbError::EntryUpdate)
    );
    assert_eq!(repo.delete(&mut g, &mut s, alice), Ok(()));
    assert_eq!(repo.find(&g, alice).unwrap_err(), ApiError::Db(DbError::EntryNotFound));
    assert_eq!(s.resolve(&g, "t", 3).unwrap_err(), SessionError::InvalidSession);
    assert_eq!(repo.delete(&mut g, &mut s, alice), Ok(()));
}

#[test]
fn group_repository_keeps_groups() {
    let mut g = AuthorizationGraph::new();
    let groups = GroupService;
    let alice = g.create_user("alice", "h".to_string()).unwrap().id;
    let staff = groups
        .create(&mut g, "root", "staff", GroupCreateModel { title: "Staff".to_string() }, 3)
        .unwrap();
    assert_eq!((staff.slug.as_str(), staff.title.as_str(), staff.created_by.as_str()), ("staff", "Staff", "root"));
    assert_eq!(
        groups
            .create(&mut g, "root", "staff", GroupCreateModel { title: "S".to_string() }, 4)
            .unwrap_err(),
        ApiError::Db(DbError::EntryAlreadyExists)
    );
    groups.create(&mut g, "root", "board", GroupCreateModel { title: "Board".to_string() }, 5).unwrap();
    g.join_group(alice, staff.id).unwrap();
    assert_eq!(groups.find_by_user(&g, "alice"), Ok(names(&["staff"])));
    assert_eq!(groups.find_by_user(&g, "bob"), Err(ApiError::Db(DbError::EntryNotFound)));
    assert_eq!(groups.find_by_slug(&g, "staff").unwrap().id, staff.id);
    assert_eq!(groups.find_by_slug(&g, "none").unwrap_err(), ApiError::Db(DbError::EntryNotFound));
    let m = groups
        .update(&mut g, "alice", "staff", GroupUpdateModel { title: "Team".to_string() }, 9)
        .unwrap();
    assert_eq!((m.title.as_str(), m.updated_by.as_str(), m.updated_at, m.created_at), ("Team", "alice", 9, 3));
    assert_eq!(
        groups
            .update(&mut g, "alice", "none", GroupUpdateModel { title: "T".to_string() }, 9)
            .unwrap_err(),
        ApiError::Db(DbError::EntryUpdate)
    );
    let all = groups.all(&g).unwrap();
    let listed: Vec<&str> = all.iter().map(|x| x.slug.as_str()).collect();
    assert_eq!(listed, vec!["staff", "board"]);
    assert_eq!(groups.delete(&mut g, "staff"), Ok(()));
    assert_eq!(groups.delete(&mut g, "staff"), Ok(()));
    assert_eq!(groups.find_by_user(&g, "alice"), Ok(names(&[])));
}

#[test]
fn signing_in_checks_the_password_before_the_session() {
    let mut g = AuthorizationGraph::new();
    let mut s = SessionManager::new(60);
    let repo = UserRepository::new(SALT.to_string());
    let model = UserCreateModel { login: "alice".to_string(), password: "secret".to_string() };
    let alice = repo.create(&mut g, model).unwrap().id;
    assert_eq!(
        sign_in(&mut s, &g, "alice", "wrong", SALT, "t".to_string(), 0),
        Err(SessionError::InvalidCredentials)
    );
    assert_eq!(
        sign_in(&mut s, &g, "nobody", "secret", SALT, "t".to_string(), 0),
        Err(SessionError::InvalidCredentials)
    );
    assert_eq!(
        sign_in(&mut s, &g, "alice", "secret", "?", "t".to_string(), 0),
        Err(SessionError::PasswordHash)
    );
    assert_eq!(s.resolve(&g, "t", 0).unwrap_err(), SessionError::InvalidSession);
    assert_eq!(sign_in(&mut s, &g, "alice", "secret", SALT, "t".to_string(), 0), Ok("t".to_string()));
    assert_eq!(s.auth_id(&g, "t", 1), Ok(alice));
}

#[test]
fn signing_in_with_a_given_hash() {
    let mut g = AuthorizationGraph::new();
    let mut s = SessionManager::new(60);
    let alice = g.create_user("alice", "hash".to_string()).unwrap().id;
    let right = Some("hash".to_string());
    assert_eq!(
        sign_in_with(&mut s, &g, "alice", &Some("hasx".to_string()), "t".to_string(), 0),
        Err(SessionError::InvalidCredentials)
    );
    assert_eq!(
        sign_in_with(&mut s, &g, "alice", &None, "t".to_string(), 0),
        Err(SessionError::PasswordHash)
    );
    assert_eq!(sign_in_with(&mut s, &g, "alice", &right, "t".to_string(), 0), Ok("t".to_string()));
    assert_eq!(
        sign_in_with(&mut s, &g, "alice", &right, "t".to_string(), 1),
        Err(SessionError::SessionToken)
    );
    g.set_blocked(alice, true).unwrap();
    assert_eq!(
        sign_in_with(&mut s, &g, "alice", &right, "u".to_string(), 2),
        Err(SessionError::UserBlocked)
    );
    // a wrong password of a blocked user is still a wrong password
    assert_eq!(
        sign_in_with(&mut s, &g, "alice", &Some("x".to_string()), "u".to_string(), 2),
        Err(SessionError::InvalidCredentials)
    );
}
