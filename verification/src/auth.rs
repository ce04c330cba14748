//! Signing in: the credentials are checked first, and only then is a session
//! made.

use vstd::prelude::*;
use crate::error::SessionError;
use crate::graph::AuthorizationGraph;
use crate::graph_view::{user_place_named, GraphView};
use crate::password::{argon2_phc, check_password, hash_password, password_verdict};
use crate::session::{SessionManager, SessionsView};

verus! {

/// Why signing in is refused, or `None` where a session is made. An unknown
/// login is answered like a wrong password; a failure to hash is told apart
/// from both; a blocked user is refused after the password was found right.
pub open spec fn sign_in_refusal(
    s: SessionsView,
    g: GraphView,
    login: Seq<char>,
    computed: Option<Seq<char>>,
    token: Seq<char>,
) -> Option<SessionError> {
    if !g.login_taken(login) {
        Some(SessionError::InvalidCredentials)
    } else {
        let user = g.users[user_place_named(g.users, login)];
        match password_verdict(user.password, computed) {
            Err(e) => Some(e),
            Ok(()) => s.refusal(g, user.id, token),
        }
    }
}

/// Signs in the user with this login, given what hashing the password
/// offered gave. Where signing in is refused, nothing changes and no token is
/// issued.
pub fn sign_in_with(
    sessions: &mut SessionManager,
    graph: &AuthorizationGraph,
    login: &str,
    computed: &Option<String>,
    token: String,
    now: u64,
) -> (r: Result<String, SessionError>)
    requires
        old(sessions).wf(),
        graph.wf(),
    ensures
        final(sessions).wf(),
        match sign_in_refusal(
            old(sessions)@,
            graph@,
            login@,
            match computed {
                Some(h) => Some(h@),
                None => None,
            },
            token@,
        ) {
            Some(e) => r == Err::<String, SessionError>(e) && final(sessions)@ == old(sessions)@,
            None => r matches Ok(t) && t@ == token@ && final(sessions)@ == old(sessions)@.open(
                graph@,
                graph@.users[user_place_named(graph@.users, login@)].id,
                token@,
                now,
            ),
        },
{
    let user = match graph.find_user_by_login(login) {
        Err(_) => {
            return Err(SessionError::InvalidCredentials);
        },
        Ok(user) => user,
    };
    match check_password(user.password.as_str(), computed) {
        Err(e) => {
            return Err(e);
        },
        Ok(()) => {},
    }
    sessions.create_session(graph, user.id, token, now)
}

/// Signs in the user with this login and password: hashes the password with
/// the salt, compares, and makes a session under the token given.
pub fn sign_in(
    sessions: &mut SessionManager,
    graph: &AuthorizationGraph,
    login: &str,
    password: &str,
    salt: &str,
    token: String,
    now: u64,
) -> (r: Result<String, SessionError>)
    requires
        old(sessions).wf(),
        graph.wf(),
    ensures
        final(sessions).wf(),
        match sign_in_refusal(
            old(sessions)@,
            graph@,
            login@,
            argon2_phc(password@, salt@),
            token@,
        ) {
            Some(e) => r == Err::<String, SessionError>(e) && final(sessions)@ == old(sessions)@,
            None => r matches Ok(t) && t@ == token@ && final(sessions)@ == old(sessions)@.open(
                graph@,
                graph@.users[user_place_named(graph@.users, login@)].id,
                token@,
                now,
            ),
        },
{
    let computed = match hash_password(password, salt) {
        Ok(h) => Some(h),
        Err(_) => None,
    };
    sign_in_with(sessions, graph, login, &computed, token, now)
}

} // verus!
