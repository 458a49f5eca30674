//! The authentication flows: login, registration, email confirmation,
//! confirmation resend, password reset, and the bearer-token checkpoint.
//!
//! Each flow takes the whole application state — the user directory and the
//! session store — together with the current time in seconds, and returns an
//! explicit result. Sending the confirmation email itself is the caller's
//! job: a flow that obliges one returns the token to embed in it.

use vstd::prelude::*;

verus! {

use crate::accounts::Account;
use crate::accounts::Directory;
use crate::accounts::find_first;
use crate::accounts::same_but_active;
use crate::accounts::same_but_password;
use crate::accounts::with_email;
use crate::accounts::with_id;
use crate::cache::live_value;
use crate::cache::remaining_ttl;
use crate::crypto::MAX_PASSWORD_LEN;
use crate::crypto::hash_password;
use crate::crypto::password_verify;
use crate::crypto::verify_spec;
use crate::ids::dec_seq;
use crate::session::EXPIRE_TIME;
use crate::session::SessionStore;
use crate::session::Token;
use crate::session::is_token;

/// A session whose remaining life has fallen below this many seconds is
/// regenerated on login; one whose remaining life is still above it blocks a
/// confirmation resend.
pub const REGEN_THRESHOLD: u64 = 60 * 60;

/// How an authentication flow can fail.
#[derive(Clone, Copy, Debug, PartialEq, Eq, Structural)]
pub enum AuthError {
    /// No account resolves for the given email.
    NotFound,
    /// The email is already registered.
    AlreadyRegistered,
    /// Password mismatch, or a missing, expired or invalid token.
    Unauthorized,
    /// A confirmation mail was requested while the current one is still fresh.
    DuplicateSend,
}

/// The application state the flows act on.
pub struct State {
    pub users: Directory,
    pub sessions: SessionStore,
}

impl State {
    pub open spec fn wf(&self) -> bool {
        &&& self.users.wf()
        &&& self.sessions.wf()
    }

    /// Empty directory, empty session store.
    pub fn new() -> (r: State)
        ensures
            r.wf(),
            r.users@ == Seq::<Account>::empty(),
            r.sessions@ == Map::<Seq<char>, (Seq<char>, u64)>::empty(),
    {
        State { users: Directory::new(), sessions: SessionStore::new() }
    }
}

/// Login: checks the password of the account registered under `email`, then
/// hands out a session token — the existing one if it still has at least
/// [`REGEN_THRESHOLD`] seconds to live, otherwise a fresh one after the old
/// pair of entries is deleted.
pub fn login(st: &mut State, email: &str, password: &str, now: u64) -> (r: Result<
    Token,
    AuthError,
>)
    requires
        old(st).wf(),
        password@.len() <= MAX_PASSWORD_LEN,
        now + EXPIRE_TIME <= u64::MAX,
    ensures
        final(st).wf(),
        final(st).users@ == old(st).users@,
        ({
            let dir = old(st).users@;
            let m0 = old(st).sessions@;
            let m1 = final(st).sessions@;
            let exp = (now + EXPIRE_TIME) as u64;
            match find_first(dir, with_email(email@)) {
                None => r == Err::<Token, AuthError>(AuthError::NotFound) && m1 == m0,
                Some(i) => {
                    let id = dir[i].id@;
                    let tok = r->Ok_0.token@;
                    if !verify_spec(dir[i].password@, password@) {
                        r == Err::<Token, AuthError>(AuthError::Unauthorized) && m1 == m0
                    } else {
                        &&& r is Ok
                        &&& live_value(m1, id, now) == Some(tok)
                        &&& match live_value(m0, id, now) {
                            Some(ptok) => {
                                if remaining_ttl(m0, id, now) >= REGEN_THRESHOLD {
                                    tok == ptok && m1 == m0
                                } else {
                                    &&& is_token(tok)
                                    &&& m1 == m0.remove(id).remove(ptok).insert(
                                        tok,
                                        (id, exp),
                                    ).insert(id, (tok, exp))
                                    &&& live_value(m1, tok, now) == Some(id)
                                    &&& (tok != ptok && ptok != id ==> live_value(m1, ptok, now)
                                        is None)
                                }
                            },
                            None => {
                                &&& is_token(tok)
                                &&& m1 == m0.insert(tok, (id, exp)).insert(id, (tok, exp))
                                &&& live_value(m1, tok, now) == Some(id)
                            },
                        }
                    }
                },
            }
        }),
{
    let idx = match st.users.find_by_email(email) {
        None => {
            return Err(AuthError::NotFound);
        },
        Some(i) => i,
    };
    if !password_verify(st.users.account(idx).password.as_str(), password) {
        return Err(AuthError::Unauthorized);
    }
    let id = st.users.account(idx).id.clone();
    proof {
        st.users.lemma_id_short(idx as int);
    }
    match st.sessions.lookup(id.as_str(), now) {
        Some(prior) => {
            if st.sessions.remaining(id.as_str(), now) < REGEN_THRESHOLD {
                st.sessions.invalidate(id.as_str(), prior.token.as_str());
                let t = st.sessions.issue(id.as_str(), now);
                Ok(t)
            } else {
                Ok(prior)
            }
        },
        None => {
            let t = st.sessions.issue(id.as_str(), now);
            Ok(t)
        },
    }
}

/// Registration: rejects an email that is already present; otherwise hashes
/// the password, appends the new, inactive account, issues a session token
/// for it and returns that token for the confirmation mail.
pub fn register(
    st: &mut State,
    username: String,
    email: String,
    phone: String,
    password: &str,
    now: u64,
) -> (r: Result<Token, AuthError>)
    requires
        old(st).wf(),
        password@.len() <= MAX_PASSWORD_LEN,
        now + EXPIRE_TIME <= u64::MAX,
    ensures
        final(st).wf(),
        ({
            let dir0 = old(st).users@;
            let dir1 = final(st).users@;
            let m0 = old(st).sessions@;
            let m1 = final(st).sessions@;
            let exp = (now + EXPIRE_TIME) as u64;
            if find_first(dir0, with_email(email@)) is Some {
                r == Err::<Token, AuthError>(AuthError::AlreadyRegistered) && dir1 == dir0 && m1
                    == m0
            } else {
                let tok = r->Ok_0.token@;
                let a = dir1.last();
                let id = a.id@;
                &&& r is Ok
                &&& dir1.len() == dir0.len() + 1
                &&& (forall|j: int| 0 <= j < dir0.len() ==> dir1[j] == dir0[j])
                &&& a.username == username
                &&& a.email == email
                &&& a.phone == phone
                &&& a.active == false
                &&& a.create_at == now
                &&& a.update_at is None
                &&& verify_spec(a.password@, password@)
                &&& id == dec_seq(dir0.len() as nat)
                &&& is_token(tok)
                &&& m1 == m0.insert(tok, (id, exp)).insert(id, (tok, exp))
                &&& live_value(m1, tok, now) == Some(id)
                &&& live_value(m1, id, now) == Some(tok)
            }
        }),
{
    if st.users.find_by_email(email.as_str()).is_some() {
        return Err(AuthError::AlreadyRegistered);
    }
    let hash = hash_password(password);
    let n0 = st.users.len();
    let id = st.users.insert(username, email, hash, phone, now);
    proof {
        st.users.lemma_id_short(n0 as int);
    }
    let t = st.sessions.issue(id.as_str(), now);
    Ok(t)
}

/// Confirmation: consumes the confirmation token, activates the account it
/// resolves to, and answers with a fresh post-activation session token.
pub fn confirm(st: &mut State, token: &str, now: u64) -> (r: Result<Token, AuthError>)
    requires
        old(st).wf(),
        now + EXPIRE_TIME <= u64::MAX,
    ensures
        final(st).wf(),
        ({
            let dir0 = old(st).users@;
            let dir1 = final(st).users@;
            let m0 = old(st).sessions@;
            let m1 = final(st).sessions@;
            let exp = (now + EXPIRE_TIME) as u64;
            match live_value(m0, token@, now) {
                None => r == Err::<Token, AuthError>(AuthError::Unauthorized) && m1 == m0 && dir1
                    == dir0,
                Some(id) => {
                    let tok = r->Ok_0.token@;
                    &&& r is Ok
                    &&& is_token(tok)
                    &&& m1 == m0.remove(token@).remove(id).insert(tok, (id, exp)).insert(
                        id,
                        (tok, exp),
                    )
                    &&& (match find_first(dir0, with_id(id)) {
                        Some(i) => {
                            &&& dir1.len() == dir0.len()
                            &&& (forall|j: int|
                                0 <= j < dir0.len() && j != i ==> dir1[j] == dir0[j])
                            &&& same_but_active(dir1[i], dir0[i])
                        },
                        None => dir1 == dir0,
                    })
                    &&& (tok != token@ && id != token@ ==> live_value(m1, token@, now) is None)
                    &&& (id != tok ==> live_value(m1, tok, now) == Some(id) && live_value(
                        m1,
                        id,
                        now,
                    ) == Some(tok))
                },
            }
        }),
{
    let id = match st.sessions.resolve(token, now) {
        None => {
            return Err(AuthError::Unauthorized);
        },
        Some(id) => id,
    };
    st.sessions.invalidate(id.as_str(), token);
    let _found = st.users.set_active(id.as_str());
    let t = st.sessions.issue(id.as_str(), now);
    Ok(t)
}

/// Confirmation resend: for an account that still has a fresh session
/// (more than [`REGEN_THRESHOLD`] seconds left) the request is rejected as a
/// duplicate; otherwise any stale pair is deleted and a fresh token is
/// issued and returned for the new mail.
pub fn resend(st: &mut State, email: &str, now: u64) -> (r: Result<Token, AuthError>)
    requires
        old(st).wf(),
        now + EXPIRE_TIME <= u64::MAX,
    ensures
        final(st).wf(),
        final(st).users@ == old(st).users@,
        ({
            let dir = old(st).users@;
            let m0 = old(st).sessions@;
            let m1 = final(st).sessions@;
            let exp = (now + EXPIRE_TIME) as u64;
            match find_first(dir, with_email(email@)) {
                None => r == Err::<Token, AuthError>(AuthError::NotFound) && m1 == m0,
                Some(i) => {
                    let id = dir[i].id@;
                    let tok = r->Ok_0.token@;
                    match live_value(m0, id, now) {
                        Some(ptok) => {
                            if remaining_ttl(m0, id, now) > REGEN_THRESHOLD {
                                r == Err::<Token, AuthError>(AuthError::DuplicateSend) && m1 == m0
                            } else {
                                &&& r is Ok
                                &&& is_token(tok)
                                &&& m1 == m0.remove(id).remove(ptok).insert(tok, (id, exp)).insert(
                                    id,
                                    (tok, exp),
                                )
                                &&& live_value(m1, tok, now) == Some(id)
                                &&& live_value(m1, id, now) == Some(tok)
                                &&& (tok != ptok && ptok != id ==> live_value(m1, ptok, now)
                                    is None)
                            }
                        },
                        None => {
                            &&& r is Ok
                            &&& is_token(tok)
                            &&& m1 == m0.insert(tok, (id, exp)).insert(id, (tok, exp))
                            &&& live_value(m1, tok, now) == Some(id)
                            &&& live_value(m1, id, now) == Some(tok)
                        },
                    }
                },
            }
        }),
{
    let idx = match st.users.find_by_email(email) {
        None => {
            return Err(AuthError::NotFound);
        },
        Some(i) => i,
    };
    let id = st.users.account(idx).id.clone();
    proof {
        st.users.lemma_id_short(idx as int);
    }
    match st.sessions.lookup(id.as_str(), now) {
        Some(prior) => {
            if st.sessions.remaining(id.as_str(), now) > REGEN_THRESHOLD {
                return Err(AuthError::DuplicateSend);
            }
            st.sessions.invalidate(id.as_str(), prior.token.as_str());
            let t = st.sessions.issue(id.as_str(), now);
            Ok(t)
        },
        None => {
            let t = st.sessions.issue(id.as_str(), now);
            Ok(t)
        },
    }
}

/// Password reset: the caller presents a live session token; the account the
/// token resolves to gets a fresh hash of the new password. Sessions are not
/// touched.
pub fn reset_pwd(st: &mut State, token: &str, password: &str, now: u64) -> (r: Result<
    (),
    AuthError,
>)
    requires
        old(st).wf(),
        password@.len() <= MAX_PASSWORD_LEN,
    ensures
        final(st).wf(),
        final(st).sessions@ == old(st).sessions@,
        ({
            let dir0 = old(st).users@;
            let dir1 = final(st).users@;
            let m0 = old(st).sessions@;
            match live_value(m0, token@, now) {
                None => r == Err::<(), AuthError>(AuthError::Unauthorized) && dir1 == dir0,
                Some(id) => {
                    &&& r == Ok::<(), AuthError>(())
                    &&& match find_first(dir0, with_id(id)) {
                        Some(i) => {
                            &&& dir1.len() == dir0.len()
                            &&& (forall|j: int|
                                0 <= j < dir0.len() && j != i ==> dir1[j] == dir0[j])
                            &&& same_but_password(dir1[i], dir0[i], dir1[i].password, now)
                            &&& verify_spec(dir1[i].password@, password@)
                        },
                        None => dir1 == dir0,
                    }
                },
            }
        }),
{
    let id = match st.sessions.resolve(token, now) {
        None => {
            return Err(AuthError::Unauthorized);
        },
        Some(id) => id,
    };
    let hash = hash_password(password);
    let _found = st.users.set_password(id.as_str(), hash, now);
    Ok(())
}

/// The access-control checkpoint run before authenticated handlers: takes
/// the bearer token from the request, if any, and resolves it to the
/// identity it stands for.
pub fn authenticate(st: &State, header: Option<&String>, now: u64) -> (r: Result<
    String,
    AuthError,
>)
    requires
        st.wf(),
    ensures
        match header {
            None => r == Err::<String, AuthError>(AuthError::Unauthorized),
            Some(tok) => match live_value(st.sessions@, tok@, now) {
                None => r == Err::<String, AuthError>(AuthError::Unauthorized),
                Some(id) => r is Ok && r->Ok_0@ == id,
            },
        },
{
    match header {
        None => Err(AuthError::Unauthorized),
        Some(tok) => match st.sessions.resolve(tok.as_str(), now) {
            None => Err(AuthError::Unauthorized),
            Some(id) => Ok(id),
        },
    }
}

} // verus!
