//! The session-token store.
//!
//! A session binds an opaque random token to an account identity through two
//! cache entries that expire together: `token -> identity` and
//! `identity -> token`, both set for [`EXPIRE_TIME`] seconds. Issuing writes
//! the pair, invalidating deletes the pair, and the two read directions are
//! `resolve` (token to identity) and `lookup` (identity to token).

use vstd::prelude::*;

verus! {

use crate::cache::TtlCache;
use crate::cache::live_value;
use crate::cache::remaining_ttl;
use crate::crypto::is_alnum;
use crate::crypto::rand_str;

/// Length, in characters, of a session token.
pub const TOKEN_SIZE: usize = 32;

/// Seconds a session lives after it is issued.
pub const EXPIRE_TIME: u64 = 60 * 60 * 12;

/// A session token as handed to and taken from callers.
pub struct Token {
    pub token: String,
}

/// A well-formed token: exactly [`TOKEN_SIZE`] alphanumeric characters. In
/// particular it is longer than any identity the user directory assigns, so
/// token keys and identity keys never collide in the cache.
pub open spec fn is_token(s: Seq<char>) -> bool {
    &&& s.len() == TOKEN_SIZE
    &&& forall|i: int| 0 <= i < s.len() ==> is_alnum(#[trigger] s[i])
}

/// A store of sessions in a TTL cache; its view is the cache's map.
pub struct SessionStore {
    cache: TtlCache,
}

impl SessionStore {
    pub closed spec fn view(&self) -> Map<Seq<char>, (Seq<char>, u64)> {
        self.cache@
    }

    pub closed spec fn wf(&self) -> bool {
        self.cache.wf()
    }

    /// An empty store.
    pub fn new() -> (r: SessionStore)
        ensures
            r.wf(),
            r@ == Map::<Seq<char>, (Seq<char>, u64)>::empty(),
    {
        SessionStore { cache: TtlCache::new() }
    }

    /// Issues a fresh random token for `id` and writes both directions of the
    /// mapping, each good for [`EXPIRE_TIME`] seconds from `now`. Any prior
    /// entry under either key is overwritten, so callers that may hold an
    /// older live token must invalidate it first.
    pub fn issue(&mut self, id: &str, now: u64) -> (t: Token)
        requires
            old(self).wf(),
            now + EXPIRE_TIME <= u64::MAX,
        ensures
            final(self).wf(),
            is_token(t.token@),
            final(self)@ == old(self)@.insert(t.token@, (id@, (now + EXPIRE_TIME) as u64)).insert(
                id@,
                (t.token@, (now + EXPIRE_TIME) as u64),
            ),
            id@ != t.token@ ==> live_value(final(self)@, t.token@, now) == Some(id@),
            id@ != t.token@ ==> live_value(final(self)@, id@, now) == Some(t.token@),
    {
        let tok = rand_str(TOKEN_SIZE);
        self.cache.set_ex(tok.as_str(), id, EXPIRE_TIME, now);
        self.cache.set_ex(id, tok.as_str(), EXPIRE_TIME, now);
        Token { token: tok }
    }

    /// `resolve(token)`: the identity the token stands for, if the token is
    /// live at `now`.
    pub fn resolve(&self, token: &str, now: u64) -> (r: Option<String>)
        requires
            self.wf(),
        ensures
            match r {
                Some(id) => live_value(self@, token@, now) == Some(id@),
                None => live_value(self@, token@, now) is None,
            },
    {
        self.cache.get(token, now)
    }

    /// `lookup(identity)`: the token currently bound to the identity, if one
    /// is live at `now`.
    pub fn lookup(&self, id: &str, now: u64) -> (r: Option<Token>)
        requires
            self.wf(),
        ensures
            match r {
                Some(t) => live_value(self@, id@, now) == Some(t.token@),
                None => live_value(self@, id@, now) is None,
            },
    {
        match self.cache.get(id, now) {
            Some(v) => Some(Token { token: v }),
            None => None,
        }
    }

    /// `remainingTtl(identity)`: seconds before the identity's session entry
    /// expires; zero if there is none.
    pub fn remaining(&self, id: &str, now: u64) -> (r: u64)
        requires
            self.wf(),
        ensures
            r == remaining_ttl(self@, id@, now),
    {
        self.cache.ttl(id, now)
    }

    /// `invalidate(identity, token)`: deletes both directions of the mapping.
    /// Afterwards neither the token nor the identity resolves, at any time.
    pub fn invalidate(&mut self, id: &str, token: &str)
        requires
            old(self).wf(),
        ensures
            final(self).wf(),
            final(self)@ == old(self)@.remove(token@).remove(id@),
            forall|now: u64| live_value(final(self)@, token@, now) is None,
            forall|now: u64| live_value(final(self)@, id@, now) is None,
    {
        self.cache.del(id);
        self.cache.del(token);
        proof {
            assert(final(self)@ =~= old(self)@.remove(token@).remove(id@));
        }
    }
}

} // verus!
