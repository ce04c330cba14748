use mtc_auth::error::{ApiError, DbError, SessionError};

#[test]
fn session_errors_have_their_status() {
    assert_eq!(SessionError::InvalidSession.status_code(), 401);
    assert_eq!(SessionError::InvalidCredentials.status_code(), 401);
    assert_eq!(SessionError::SessionExpired.status_code(), 401);
    assert_eq!(SessionError::PasswordHash.status_code(), 500);
    assert_eq!(SessionError::SessionToken.status_code(), 500);
    assert_eq!(SessionError::UserBlocked.status_code(), 403);
    assert_eq!(SessionError::AccessForbidden.status_code(), 403);
}

#[test]
fn session_errors_have_their_message() {
    assert_eq!(SessionError::InvalidSession.message(), "Invalid session");
    assert_eq!(SessionError::SessionExpired.message(), "Session has expired");
    assert_eq!(SessionError::SessionToken.message(), "Session token error");
    assert_eq!(SessionError::AccessForbidden.message(), "Access forbidden");
    assert_eq!(SessionError::InvalidCredentials.message(), "Invalid credentials");
    assert_eq!(SessionError::UserBlocked.message(), "User blocked");
    assert_eq!(SessionError::PasswordHash.message(), "Generate password hash error");
}

#[test]
fn request_errors_wrap_session_and_store_errors() {
    assert_ne!(ApiError::Session(SessionError::AccessForbidden), ApiError::Db(DbError::EntryNotFound));
    assert_eq!(ApiError::Db(DbError::EntryDelete), ApiError::Db(DbError::EntryDelete));
    assert_ne!(DbError::EntryUpdate, DbError::StorageError);
}
