//! Sessions: a token that stands for a signed-in user for a bounded time, with
//! a snapshot of what the user may do, taken when the session is made and
//! taken again after the snapshot was invalidated.

use vstd::prelude::*;
use crate::error::SessionError;
use crate::graph::AuthorizationGraph;
use crate::graph_view::GraphView;
use crate::text::{
    ascending, copy_names, has_text, lemma_sorted_names, same_text, sorted_names,
};

verus! {

/// What a resolved session knows of its user: the id and the names of the
/// roles, permissions and groups, each list in ascending order.
#[derive(Debug)]
pub struct SessionContext {
    pub user_id: u64,
    pub roles: Vec<String>,
    pub permissions: Vec<String>,
    pub groups: Vec<String>,
}

/// What a `SessionContext` stands for.
pub struct ContextView {
    pub user_id: u64,
    pub roles: Seq<Seq<char>>,
    pub permissions: Seq<Seq<char>>,
    pub groups: Seq<Seq<char>>,
}

impl View for SessionContext {
    type V = ContextView;

    open spec fn view(&self) -> ContextView {
        ContextView {
            user_id: self.user_id,
            roles: self.roles.deep_view(),
            permissions: self.permissions.deep_view(),
            groups: self.groups.deep_view(),
        }
    }
}

impl SessionContext {
    /// A copy of this context.
    pub fn duplicate(&self) -> (r: SessionContext)
        ensures
            r@ == self@,
    {
        SessionContext {
            user_id: self.user_id,
            roles: copy_names(&self.roles),
            permissions: copy_names(&self.permissions),
            groups: copy_names(&self.groups),
        }
    }
}

/// The snapshot of a user in a graph: its effective roles, permissions and
/// groups, each as the list in ascending order.
pub open spec fn snapshot_of(g: GraphView, user: u64) -> ContextView {
    ContextView {
        user_id: user,
        roles: sorted_names(g.effective_roles(user)),
        permissions: sorted_names(g.effective_permissions(user)),
        groups: sorted_names(g.effective_groups(user)),
    }
}

/// The user is in the graph and is not blocked.
pub open spec fn may_sign_in(g: GraphView, user: u64) -> bool {
    g.has_user(user) && !g.users[g.user_position(user)].blocked
}

/// When a session made at `now` ends: `ttl` later, or at the end of time.
pub open spec fn expiry(now: u64, ttl: u64) -> u64 {
    if now + ttl > u64::MAX {
        u64::MAX
    } else {
        (now + ttl) as u64
    }
}

/// One session as a value. `cache` is the snapshot, or `None` after it was
/// invalidated.
pub struct SessionView {
    pub token: Seq<char>,
    pub user_id: u64,
    pub created_at: u64,
    pub expires_at: u64,
    pub cache: Option<ContextView>,
}

impl SessionView {
    /// This session without its snapshot.
    pub open spec fn stale(self) -> SessionView {
        SessionView { cache: None, ..self }
    }
}

/// A place in `sessions` where the session with this token stands.
pub open spec fn session_place(sessions: Seq<SessionView>, token: Seq<char>) -> int {
    choose|i: int| 0 <= i < sessions.len() && (#[trigger] sessions[i]).token == token
}

/// The table of sessions as a value.
pub struct SessionsView {
    pub ttl: u64,
    pub sessions: Seq<SessionView>,
}

impl SessionsView {
    pub open spec fn has_token(self, token: Seq<char>) -> bool {
        exists|i: int| 0 <= i < self.sessions.len() && (#[trigger] self.sessions[i]).token == token
    }

    pub open spec fn position(self, token: Seq<char>) -> int {
        session_place(self.sessions, token)
    }

    /// No token is used twice, and a snapshot is about the session's own user.
    pub open spec fn wf(self) -> bool {
        &&& forall|i: int, j: int|
            0 <= i < j < self.sessions.len() ==> (#[trigger] self.sessions[i]).token != (
            #[trigger] self.sessions[j]).token
        &&& forall|i: int|
            0 <= i < self.sessions.len() ==> ((#[trigger] self.sessions[i]).cache matches Some(c)
                ==> c.user_id == self.sessions[i].user_id)
    }

    /// Why a session cannot be made, or `None` where it can: the user must be
    /// in the graph and not blocked, and the token must be new.
    pub open spec fn refusal(self, g: GraphView, user: u64, token: Seq<char>) -> Option<
        SessionError,
    > {
        if !g.has_user(user) {
            Some(SessionError::InvalidCredentials)
        } else if g.users[g.user_position(user)].blocked {
            Some(SessionError::UserBlocked)
        } else if self.has_token(token) {
            Some(SessionError::SessionToken)
        } else {
            None
        }
    }

    /// The table with a new session for `user`, made at `now`.
    pub open spec fn open(self, g: GraphView, user: u64, token: Seq<char>, now: u64) -> SessionsView {
        SessionsView {
            sessions: self.sessions.push(
                SessionView {
                    token,
                    user_id: user,
                    created_at: now,
                    expires_at: expiry(now, self.ttl),
                    cache: Some(snapshot_of(g, user)),
                },
            ),
            ..self
        }
    }

    /// What resolving `token` at time `now` gives. An unknown token is an
    /// invalid session; a known one is expired from its expiry time on; an
    /// active one gives its snapshot, and where that was invalidated, a new
    /// snapshot of the graph, unless the user is gone or blocked by now.
    pub open spec fn outcome(self, g: GraphView, token: Seq<char>, now: u64) -> Result<
        ContextView,
        SessionError,
    > {
        if !self.has_token(token) {
            Err(SessionError::InvalidSession)
        } else {
            let s = self.sessions[self.position(token)];
            if now >= s.expires_at {
                Err(SessionError::SessionExpired)
            } else {
                match s.cache {
                    Some(c) => Ok(c),
                    None => if may_sign_in(g, s.user_id) {
                        Ok(snapshot_of(g, s.user_id))
                    } else {
                        Err(SessionError::InvalidSession)
                    },
                }
            }
        }
    }

    /// The table after `token` was resolved at `now`: a snapshot that was
    /// taken anew is kept; nothing else changes.
    pub open spec fn after_resolve(self, g: GraphView, token: Seq<char>, now: u64) -> SessionsView {
        match self.outcome(g, token, now) {
            Ok(c) => SessionsView {
                sessions: self.sessions.update(
                    self.position(token),
                    SessionView { cache: Some(c), ..self.sessions[self.position(token)] },
                ),
                ..self
            },
            Err(_) => self,
        }
    }

    /// Whether a check of the permission `name` on `token` at `now` succeeds.
    pub open spec fn permits(self, g: GraphView, token: Seq<char>, name: Seq<char>, now: u64) -> bool {
        match self.outcome(g, token, now) {
            Ok(c) => c.permissions.contains(name),
            Err(_) => false,
        }
    }

    /// The table in which the session of `token` has lost its snapshot.
    pub open spec fn invalidate(self, token: Seq<char>) -> SessionsView {
        SessionsView {
            sessions: self.sessions.map_values(
                |s: SessionView| if s.token == token { s.stale() } else { s },
            ),
            ..self
        }
    }

    /// The table in which every session of `user` has lost its snapshot.
    pub open spec fn invalidate_all_for_user(self, user: u64) -> SessionsView {
        SessionsView {
            sessions: self.sessions.map_values(
                |s: SessionView| if s.user_id == user { s.stale() } else { s },
            ),
            ..self
        }
    }

    /// The table in which every session of a user who holds `role` has lost
    /// its snapshot.
    pub open spec fn invalidate_role(self, g: GraphView, role: u64) -> SessionsView {
        SessionsView {
            sessions: self.sessions.map_values(
                |s: SessionView| if g.user_roles.contains((s.user_id, role)) { s.stale() } else { s },
            ),
            ..self
        }
    }

    /// The table without the sessions that are expired at `now`.
    pub open spec fn purge_expired(self, now: u64) -> SessionsView {
        SessionsView {
            sessions: self.sessions.filter(|s: SessionView| now < s.expires_at),
            ..self
        }
    }

    /// The table without the session of `token`.
    pub open spec fn revoke(self, token: Seq<char>) -> SessionsView {
        SessionsView {
            sessions: if self.has_token(token) {
                self.sessions.remove(self.position(token))
            } else {
                self.sessions
            },
            ..self
        }
    }
}

/// A session as the table holds it.
struct Session {
    token: String,
    user_id: u64,
    created_at: u64,
    expires_at: u64,
    cache: Option<SessionContext>,
}

impl View for Session {
    type V = SessionView;

    closed spec fn view(&self) -> SessionView {
        SessionView {
            token: self.token@,
            user_id: self.user_id,
            created_at: self.created_at,
            expires_at: self.expires_at,
            cache: match self.cache {
                Some(c) => Some(c@),
                None => None,
            },
        }
    }
}

/// Issues, resolves, invalidates and revokes sessions.
pub struct SessionManager {
    ttl: u64,
    sessions: Vec<Session>,
}

impl View for SessionManager {
    type V = SessionsView;

    closed spec fn view(&self) -> SessionsView {
        SessionsView { ttl: self.ttl, sessions: self.sessions@.map_values(|s: Session| s@) }
    }
}

/// Takes the snapshot of a user who is in the graph.
fn take_snapshot(graph: &AuthorizationGraph, user: u64) -> (c: SessionContext)
    requires
        graph.wf(),
        graph@.has_user(user),
    ensures
        c@ == snapshot_of(graph@, user),
{
    let roles = match graph.effective_roles(user) {
        Ok(v) => v,
        Err(_) => Vec::new(),
    };
    let permissions = match graph.effective_permissions(user) {
        Ok(v) => v,
        Err(_) => Vec::new(),
    };
    let groups = match graph.effective_groups(user) {
        Ok(v) => v,
        Err(_) => Vec::new(),
    };
    proof {
        lemma_sorted_names(roles.deep_view());
        lemma_sorted_names(permissions.deep_view());
        lemma_sorted_names(groups.deep_view());
    }
    SessionContext { user_id: user, roles, permissions, groups }
}

impl SessionManager {
    /// The invariant that every operation keeps.
    pub open spec fn wf(&self) -> bool {
        self@.wf()
    }

    /// A manager without sessions, whose sessions will live for `ttl`.
    pub fn new(ttl: u64) -> (m: Self)
        ensures
            m.wf(),
            m@ == (SessionsView { ttl, sessions: Seq::empty() }),
    {
        let m = SessionManager { ttl, sessions: Vec::new() };
        assert(m@.sessions =~= Seq::empty());
        m
    }

    fn index_of(&self, token: &str) -> (r: Option<usize>)
        requires
            self.wf(),
        ensures
            match r {
                Some(i) => i < self.sessions.len() && self@.sessions[i as int].token == token@
                    && self@.has_token(token@) && self@.position(token@) == i,
                None => !self@.has_token(token@),
            },
    {
        let mut i: usize = 0;
        while i < self.sessions.len()
            invariant
                i <= self.sessions.len(),
                self.wf(),
                forall|k: int| 0 <= k < i ==> (#[trigger] self@.sessions[k]).token != token@,
            decreases self.sessions.len() - i,
        {
            if same_text(self.sessions[i].token.as_str(), token) {
                proof {
                    assert(self@.sessions[i as int].token == token@);
                    let j = self@.position(token@);
                    assert(self@.sessions[j].token == token@);
                }
                return Some(i);
            }
            i += 1;
        }
        None
    }

    /// Makes a session for a user under the token given, which must be new
    /// and unguessable, and takes the user's snapshot. Where the session is
    /// refused, nothing changes and no token is issued.
    pub fn create_session(
        &mut self,
        graph: &AuthorizationGraph,
        user: u64,
        token: String,
        now: u64,
    ) -> (r: Result<String, SessionError>)
        requires
            old(self).wf(),
            graph.wf(),
        ensures
            final(self).wf(),
            match r {
                Ok(t) => t@ == token@ && old(self)@.refusal(graph@, user, token@).is_none()
                    && final(self)@ == old(self)@.open(graph@, user, token@, now),
                Err(e) => old(self)@.refusal(graph@, user, token@) == Some(e)
                    && final(self)@ == old(self)@,
            },
    {
        match graph.find_user(user) {
            Err(_) => {
                return Err(SessionError::InvalidCredentials);
            },
            Ok(u) => {
                if u.blocked {
                    return Err(SessionError::UserBlocked);
                }
            },
        }
        if self.index_of(token.as_str()).is_some() {
            return Err(SessionError::SessionToken);
        }
        let expires_at = if now > u64::MAX - self.ttl {
            u64::MAX
        } else {
            now + self.ttl
        };
        let issued = token.clone();
        let session = Session {
            token,
            user_id: user,
            created_at: now,
            expires_at,
            cache: Some(take_snapshot(graph, user)),
        };
        self.sessions.push(session);
        proof {
            assert(self@.sessions =~= old(self)@.open(graph@, user, token@, now).sessions);
        }
        Ok(issued)
    }

    /// Resolves a token at time `now`. A session whose snapshot was
    /// invalidated gets a new one from the graph; otherwise the graph is not
    /// asked and the table stays as it is.
    pub fn resolve(&mut self, graph: &AuthorizationGraph, token: &str, now: u64) -> (r: Result<
        SessionContext,
        SessionError,
    >)
        requires
            old(self).wf(),
            graph.wf(),
        ensures
            final(self).wf(),
            final(self)@ == old(self)@.after_resolve(graph@, token@, now),
            match r {
                Ok(c) => old(self)@.outcome(graph@, token@, now) == Ok::<ContextView, SessionError>(
                    c@,
                ),
                Err(e) => old(self)@.outcome(graph@, token@, now) == Err::<
                    ContextView,
                    SessionError,
                >(e),
            },
    {
        let i = match self.index_of(token) {
            Some(i) => i,
            None => {
                return Err(SessionError::InvalidSession);
            },
        };
        if now >= self.sessions[i].expires_at {
            return Err(SessionError::SessionExpired);
        }
        match &self.sessions[i].cache {
            Some(c) => {
                let copy = c.duplicate();
                proof {
                    assert(self@.sessions =~= old(self)@.after_resolve(graph@, token@, now).sessions);
                }
                return Ok(copy);
            },
            None => {},
        }
        let user = self.sessions[i].user_id;
        match graph.find_user(user) {
            Err(_) => {
                return Err(SessionError::InvalidSession);
            },
            Ok(u) => {
                if u.blocked {
                    return Err(SessionError::InvalidSession);
                }
            },
        }
        let context = take_snapshot(graph, user);
        let copy = context.duplicate();
        let session = Session {
            token: self.sessions[i].token.clone(),
            user_id: user,
            created_at: self.sessions[i].created_at,
            expires_at: self.sessions[i].expires_at,
            cache: Some(context),
        };
        self.sessions.set(i, session);
        proof {
            assert(self@.sessions =~= old(self)@.after_resolve(graph@, token@, now).sessions);
        }
        Ok(copy)
    }

    /// Whether the session of `token` is active at `now` and its user has the
    /// permission `name`. This is the check that comes before every protected
    /// operation.
    pub fn has_permission(
        &mut self,
        graph: &AuthorizationGraph,
        token: &str,
        name: &str,
        now: u64,
    ) -> (r: bool)
        requires
            old(self).wf(),
            graph.wf(),
        ensures
            final(self).wf(),
            final(self)@ == old(self)@.after_resolve(graph@, token@, now),
            r == old(self)@.permits(graph@, token@, name@, now),
    {
        match self.resolve(graph, token, now) {
            Ok(c) => has_text(&c.permissions, name),
            Err(_) => false,
        }
    }

    /// Checks the permission `name` on `token` at `now`: the session's own
    /// error where it does not resolve, `AccessForbidden` where it resolves
    /// and lacks the permission.
    pub fn permission(
        &mut self,
        graph: &AuthorizationGraph,
        token: &str,
        name: &str,
        now: u64,
    ) -> (r: Result<(), SessionError>)
        requires
            old(self).wf(),
            graph.wf(),
        ensures
            final(self).wf(),
            final(self)@ == old(self)@.after_resolve(graph@, token@, now),
            r == check_of(old(self)@.outcome(graph@, token@, now), name@),
    {
        match self.resolve(graph, token, now) {
            Ok(c) => {
                if has_text(&c.permissions, name) {
                    Ok(())
                } else {
                    Err(SessionError::AccessForbidden)
                }
            },
            Err(e) => Err(e),
        }
    }

    /// The id of the user that the session of `token` belongs to, where the
    /// session resolves at `now`.
    pub fn auth_id(&mut self, graph: &AuthorizationGraph, token: &str, now: u64) -> (r: Result<
        u64,
        SessionError,
    >)
        requires
            old(self).wf(),
            graph.wf(),
        ensures
            final(self).wf(),
            final(self)@ == old(self)@.after_resolve(graph@, token@, now),
            match r {
                Ok(id) => old(self)@.outcome(graph@, token@, now).is_ok() && old(self)@.outcome(
                    graph@,
                    token@,
                    now,
                ).unwrap().user_id == id,
                Err(e) => old(self)@.outcome(graph@, token@, now) == Err::<
                    ContextView,
                    SessionError,
                >(e),
            },
    {
        match self.resolve(graph, token, now) {
            Ok(c) => Ok(c.user_id),
            Err(e) => Err(e),
        }
    }

    fn make_stale(&mut self, i: usize)
        requires
            old(self).wf(),
            i < old(self).sessions.len(),
        ensures
            final(self).wf(),
            final(self)@.ttl == old(self)@.ttl,
            final(self).sessions.len() == old(self).sessions.len(),
            final(self)@.sessions == old(self)@.sessions.update(
                i as int,
                old(self)@.sessions[i as int].stale(),
            ),
    {
        let session = Session {
            token: self.sessions[i].token.clone(),
            user_id: self.sessions[i].user_id,
            created_at: self.sessions[i].created_at,
            expires_at: self.sessions[i].expires_at,
            cache: None,
        };
        self.sessions.set(i, session);
        proof {
            assert(self@.sessions =~= old(self)@.sessions.update(
                i as int,
                old(self)@.sessions[i as int].stale(),
            ));
        }
    }

    /// Throws away the snapshot of the session of `token`, so that the next
    /// resolve takes a new one. An unknown token changes nothing.
    pub fn invalidate(&mut self, token: &str)
        requires
            old(self).wf(),
        ensures
            final(self).wf(),
            final(self)@ == old(self)@.invalidate(token@),
    {
        match self.index_of(token) {
            Some(i) => {
                self.make_stale(i);
            },
            None => {},
        }
        proof {
            assert(self@.sessions =~= old(self)@.invalidate(token@).sessions);
        }
    }

    /// Throws away the snapshots of all sessions of a user. To be called
    /// whenever the roles of that user change.
    pub fn invalidate_all_for_user(&mut self, user: u64)
        requires
            old(self).wf(),
        ensures
            final(self).wf(),
            final(self)@ == old(self)@.invalidate_all_for_user(user),
    {
        let mut i: usize = 0;
        while i < self.sessions.len()
            invariant
                i <= self.sessions.len(),
                self.wf(),
                self@.ttl == old(self)@.ttl,
                self.sessions.len() == old(self).sessions.len(),
                self@.sessions.len() == old(self)@.sessions.len(),
                forall|k: int|
                    0 <= k < i ==> #[trigger] self@.sessions[k] == old(self)@.invalidate_all_for_user(
                        user,
                    ).sessions[k],
                forall|k: int|
                    i <= k < self@.sessions.len() ==> #[trigger] self@.sessions[k] == old(self)@.sessions[k],
            decreases self.sessions.len() - i,
        {
            if self.sessions[i].user_id == user {
                self.make_stale(i);
            }
            i += 1;
        }
        proof {
            assert(self@.sessions =~= old(self)@.invalidate_all_for_user(user).sessions);
        }
    }

    /// Throws away the snapshots of all sessions of users who hold `role`. To
    /// be called whenever the permissions of that role change.
    pub fn invalidate_role(&mut self, graph: &AuthorizationGraph, role: u64)
        requires
            old(self).wf(),
        ensures
            final(self).wf(),
            final(self)@ == old(self)@.invalidate_role(graph@, role),
    {
        let mut i: usize = 0;
        while i < self.sessions.len()
            invariant
                i <= self.sessions.len(),
                self.wf(),
                self@.ttl == old(self)@.ttl,
                self.sessions.len() == old(self).sessions.len(),
                self@.sessions.len() == old(self)@.sessions.len(),
                forall|k: int|
                    0 <= k < i ==> #[trigger] self@.sessions[k] == old(self)@.invalidate_role(
                        graph@,
                        role,
                    ).sessions[k],
                forall|k: int|
                    i <= k < self@.sessions.len() ==> #[trigger] self@.sessions[k] == old(self)@.sessions[k],
            decreases self.sessions.len() - i,
        {
            if graph.holds_role(self.sessions[i].user_id, role) {
                self.make_stale(i);
            }
            i += 1;
        }
        proof {
            assert(self@.sessions =~= old(self)@.invalidate_role(graph@, role).sessions);
        }
    }

    /// Takes every session out of the table that is expired at `now`. The
    /// sessions that stay keep their order and their snapshots.
    pub fn purge_expired(&mut self, now: u64)
        requires
            old(self).wf(),
        ensures
            final(self).wf(),
            final(self)@ == old(self)@.purge_expired(now),
    {
        let ghost all = self@.sessions;
        let ghost live = |s: SessionView| now < s.expires_at;
        let mut kept: Vec<Session> = Vec::new();
        proof {
            reveal(Seq::filter);
            assert(all.take(0) =~= Seq::<SessionView>::empty());
            assert(kept@.map_values(|s: Session| s@) =~= all.take(0).filter(live));
        }
        while self.sessions.len() > 0
            invariant
                self.sessions.len() <= all.len(),
                self@.ttl == old(self)@.ttl,
                all == old(self)@.sessions,
                live == (|s: SessionView| now < s.expires_at),
                kept@.map_values(|s: Session| s@) == all.take(
                    all.len() - self.sessions.len(),
                ).filter(live),
                self@.sessions == all.skip(all.len() - self.sessions.len()),
            decreases self.sessions.len(),
        {
            let ghost done = all.len() - self.sessions.len();
            let ghost before = kept@.map_values(|s: Session| s@);
            let ghost rest = self@.sessions;
            let session = self.sessions.remove(0);
            proof {
                assert(session@ == rest[0]);
                assert(rest[0] == all[done]);
                assert(self@.sessions =~= rest.remove(0));
                assert(rest.remove(0) =~= all.skip(done + 1));
                reveal(Seq::filter);
                assert(all.take(done + 1).drop_last() =~= all.take(done));
                assert(all.take(done + 1).last() == all[done]);
            }
            if now < session.expires_at {
                kept.push(session);
                proof {
                    assert(kept@.map_values(|s: Session| s@) =~= before.push(all[done]));
                }
            }
        }
        self.sessions = kept;
        proof {
            assert(all.take(all.len() as int) =~= all);
            let f = all.filter(live);
            assert forall|i: int, j: int| 0 <= i < j < f.len() implies (#[trigger] f[i]).token != (
            #[trigger] f[j]).token by {
                lemma_filter_keeps_order(all, live, i, j);
            }
            assert forall|i: int| 0 <= i < f.len() implies ((#[trigger] f[i]).cache matches Some(c)
                ==> c.user_id == f[i].user_id) by {
                assert(f.contains(f[i]));
                all.lemma_filter_contains_rev(live, f[i]);
            }
        }
    }

    /// Ends the session of `token`: it is taken out of the table, and the
    /// token resolves to nothing from now on. An unknown token changes nothing.
    pub fn revoke(&mut self, token: &str)
        requires
            old(self).wf(),
        ensures
            final(self).wf(),
            final(self)@ == old(self)@.revoke(token@),
            !final(self)@.has_token(token@),
    {
        match self.index_of(token) {
            Some(i) => {
                self.sessions.remove(i);
                proof {
                    assert(self@.sessions =~= old(self)@.revoke(token@).sessions);
                    let p = i as int;
                    assert forall|j: int| 0 <= j < self@.sessions.len() implies #[trigger] self@.sessions[j]
                        == old(self)@.sessions[if j < p {
                        j
                    } else {
                        j + 1
                    }] by {}
                }
            },
            None => {},
        }
    }
}

/// What a permission check answers once the session was resolved: the
/// session's own error, or whether the snapshot holds the permission.
pub open spec fn check_of(outcome: Result<ContextView, SessionError>, name: Seq<char>) -> Result<
    (),
    SessionError,
> {
    match outcome {
        Err(e) => Err(e),
        Ok(c) => if c.permissions.contains(name) {
            Ok(())
        } else {
            Err(SessionError::AccessForbidden)
        },
    }
}

/// A session with a snapshot resolves at any time before its expiry, and
/// from its expiry on the same token gives `SessionExpired` and passes no
/// permission check, whatever the graph holds.
pub proof fn law_session_ttl(
    s: SessionsView,
    g: GraphView,
    token: Seq<char>,
    name: Seq<char>,
    early: u64,
    late: u64,
)
    requires
        s.wf(),
        s.has_token(token),
        s.sessions[s.position(token)].cache.is_some() || may_sign_in(
            g,
            s.sessions[s.position(token)].user_id,
        ),
        early < s.sessions[s.position(token)].expires_at <= late,
    ensures
        s.outcome(g, token, early).is_ok(),
        s.after_resolve(g, token, early).outcome(g, token, late) == Err::<
            ContextView,
            SessionError,
        >(SessionError::SessionExpired),
        !s.after_resolve(g, token, early).permits(g, token, name, late),
        s.outcome(g, token, late) == Err::<ContextView, SessionError>(SessionError::SessionExpired),
        !s.permits(g, token, name, late),
{
    let p = s.position(token);
    let t = s.after_resolve(g, token, early);
    assert(t.sessions[p].token == token);
    assert(t.has_token(token));
    let q = t.position(token);
    assert(t.sessions[q].token == token);
    assert(s.sessions[q].token == token);
    assert(q == p);
}

/// What a filter keeps stands in the order in which it stood: two that are
/// kept at different places were at different places before.
pub proof fn lemma_filter_keeps_order(
    all: Seq<SessionView>,
    live: spec_fn(SessionView) -> bool,
    i: int,
    j: int,
)
    requires
        0 <= i < j < all.filter(live).len(),
    ensures
        exists|a: int, b: int|
            0 <= a < b < all.len() && all[a] == all.filter(live)[i]
                && all[b] == all.filter(live)[j],
    decreases all.len(),
{
    reveal(Seq::filter);
    let f = all.filter(live);
    if all.len() > 0 {
        let front = all.drop_last();
        let g = front.filter(live);
        if live(all.last()) {
            assert(f == g.push(all.last()));
            if j < g.len() {
                lemma_filter_keeps_order(front, live, i, j);
                let (a, b) = choose|a: int, b: int|
                    0 <= a < b < front.len() && front[a] == g[i] && front[b] == g[j];
                assert(all[a] == f[i] && all[b] == f[j]);
            } else {
                assert(g.contains(g[i]));
                front.lemma_filter_contains_rev(live, g[i]);
                let a = choose|a: int| 0 <= a < front.len() && front[a] == g[i];
                assert(all[a] == f[i] && all[all.len() - 1] == f[j]);
            }
        } else {
            assert(f == g);
            lemma_filter_keeps_order(front, live, i, j);
            let (a, b) = choose|a: int, b: int|
                0 <= a < b < front.len() && front[a] == g[i] && front[b] == g[j];
            assert(all[a] == f[i] && all[b] == f[j]);
        }
    }
}

/// After a session's snapshot was invalidated, the next resolve of an active
/// session of a user who may sign in gives the snapshot of the graph as it is
/// then: what was revoked in the meantime is no longer in it.
pub proof fn law_invalidate_refreshes(s: SessionsView, g: GraphView, token: Seq<char>, now: u64)
    requires
        s.wf(),
        s.has_token(token),
        now < s.sessions[s.position(token)].expires_at,
        may_sign_in(g, s.sessions[s.position(token)].user_id),
    ensures
        s.invalidate(token).outcome(g, token, now) == Ok::<ContextView, SessionError>(
            snapshot_of(g, s.sessions[s.position(token)].user_id),
        ),
        s.invalidate_all_for_user(s.sessions[s.position(token)].user_id).outcome(g, token, now)
            == Ok::<ContextView, SessionError>(
            snapshot_of(g, s.sessions[s.position(token)].user_id),
        ),
{
    let p = s.position(token);
    let t = s.invalidate(token);
    assert(t.sessions[p].token == token);
    let q = t.position(token);
    assert(t.sessions[q].token == token);
    assert(s.sessions[q].token == token);
    assert(q == p);
    let u = s.invalidate_all_for_user(s.sessions[p].user_id);
    assert(u.sessions[p].token == token);
    let r = u.position(token);
    assert(u.sessions[r].token == token);
    assert(s.sessions[r].token == token);
    assert(r == p);
}

} // verus!
