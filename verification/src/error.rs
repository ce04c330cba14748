//! What can go wrong: session and access failures, store failures, and the
//! status each is answered with.

use vstd::prelude::*;

verus! {

/// Why a session could not be made or used, or an operation was refused.
#[derive(Clone, Copy, Debug, PartialEq, Eq, Structural)]
pub enum SessionError {
    InvalidSession,
    SessionExpired,
    SessionToken,
    AccessForbidden,
    InvalidCredentials,
    UserBlocked,
    PasswordHash,
}

/// Why the store refused an operation.
#[derive(Clone, Copy, Debug, PartialEq, Eq, Structural)]
pub enum DbError {
    EntryNotFound,
    EntryAlreadyExists,
    EntryUpdate,
    EntryDelete,
    StorageError,
}

/// Any failure of a request.
#[derive(Clone, Copy, Debug, PartialEq, Eq, Structural)]
pub enum ApiError {
    Session(SessionError),
    Db(DbError),
}

impl SessionError {
    /// The status a session error is answered with: 401 where the caller has to
    /// sign in again, 403 where the caller is known and refused, 500 where the
    /// fault is internal.
    pub open spec fn spec_status_code(self) -> u16 {
        match self {
            SessionError::InvalidSession
            | SessionError::InvalidCredentials
            | SessionError::SessionExpired => 401,
            SessionError::PasswordHash | SessionError::SessionToken => 500,
            SessionError::UserBlocked | SessionError::AccessForbidden => 403,
        }
    }

    /// The status this error is answered with.
    pub fn status_code(&self) -> (code: u16)
        ensures
            code == self.spec_status_code(),
    {
        match self {
            SessionError::InvalidSession
            | SessionError::InvalidCredentials
            | SessionError::SessionExpired => 401,
            SessionError::PasswordHash | SessionError::SessionToken => 500,
            SessionError::UserBlocked | SessionError::AccessForbidden => 403,
        }
    }

    /// The message of each error.
    pub open spec fn spec_message(self) -> Seq<char> {
        match self {
            SessionError::InvalidSession => "Invalid session"@,
            SessionError::SessionExpired => "Session has expired"@,
            SessionError::SessionToken => "Session token error"@,
            SessionError::AccessForbidden => "Access forbidden"@,
            SessionError::InvalidCredentials => "Invalid credentials"@,
            SessionError::UserBlocked => "User blocked"@,
            SessionError::PasswordHash => "Generate password hash error"@,
        }
    }

    /// The message that goes out with this error.
    pub fn message(&self) -> (text: String)
        ensures
            text@ == self.spec_message(),
    {
        let text: &str = match self {
            SessionError::InvalidSession => "Invalid session",
            SessionError::SessionExpired => "Session has expired",
            SessionError::SessionToken => "Session token error",
            SessionError::AccessForbidden => "Access forbidden",
            SessionError::InvalidCredentials => "Invalid credentials",
            SessionError::UserBlocked => "User blocked",
            SessionError::PasswordHash => "Generate password hash error",
        };
        text.to_owned()
    }
}

} // verus!
