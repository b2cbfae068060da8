use vstd::prelude::*;
use std::collections::HashMap;

verus! {

broadcast use vstd::std_specs::hash::group_hash_axioms;

/// Relies on uuid::Uuid::new_v4: a random version-4 UUID, taken as its 128-bit value.
/// Nothing is promised of the value.
#[verifier::external_body]
fn fresh_token() -> (r: u128) {
    uuid::Uuid::new_v4().as_u128()
}

/// How many random tokens `create_session` draws before it gives up.
pub const TOKEN_ATTEMPTS: u32 = 8;

/// The process-wide map from session token to the identity of the logged-in user.
/// A token is the 128-bit value of a random UUID.
pub struct SessionRegistry {
    sessions: HashMap<u128, i32>,
}

impl View for SessionRegistry {
    type V = Map<u128, i32>;

    closed spec fn view(&self) -> Map<u128, i32> {
        self.sessions@
    }
}

impl SessionRegistry {
    /// The user that `token` stands for in this registry.
    pub open spec fn resolves_to(&self, token: u128) -> Option<i32> {
        if self@.contains_key(token) {
            Some(self@[token])
        } else {
            None
        }
    }

    /// A registry with no sessions.
    pub fn new() -> (r: SessionRegistry)
        ensures
            r@ == Map::<u128, i32>::empty(),
    {
        SessionRegistry { sessions: HashMap::new() }
    }

    /// Starts a session for `user_id` under a fresh random token that no live
    /// session holds, and returns the token. Should every one of a few random
    /// draws be taken already, nothing changes and the answer is `None`.
    pub fn create_session(&mut self, user_id: i32) -> (r: Option<u128>)
        ensures
            match r {
                Some(t) => !old(self)@.contains_key(t) && final(self)@ == old(self)@.insert(
                    t,
                    user_id,
                ),
                None => final(self)@ == old(self)@,
            },
    {
        let mut attempt: u32 = 0;
        while attempt < TOKEN_ATTEMPTS
            invariant
                self@ == old(self)@,
            decreases TOKEN_ATTEMPTS - attempt,
        {
            let token = fresh_token();
            if self.resolve(token).is_none() {
                self.insert_session(token, user_id);
                return Some(token);
            }
            attempt += 1;
        }
        None
    }

    /// Associates `token` with `user_id`, replacing what the token stood for before.
    pub fn insert_session(&mut self, token: u128, user_id: i32)
        ensures
            final(self)@ == old(self)@.insert(token, user_id),
    {
        self.sessions.insert(token, user_id);
    }

    /// The user that `token` stands for, if it is a live session.
    pub fn resolve(&self, token: u128) -> (r: Option<i32>)
        ensures
            r == self.resolves_to(token),
    {
        match self.sessions.get(&token) {
            Some(u) => Some(*u),
            None => None,
        }
    }

    /// Ends the session of `token`; a token that is not live is left alone.
    pub fn destroy(&mut self, token: u128)
        ensures
            final(self)@ == old(self)@.remove(token),
    {
        self.sessions.remove(&token);
    }
}

/// Round trip of a session: the token that `create_session` handed out
/// resolves to the user it was created for; once the token is destroyed it
/// resolves to nothing; and destroying a token that is not live changes nothing.
pub proof fn lemma_session_round_trip(
    before: SessionRegistry,
    created: SessionRegistry,
    destroyed: SessionRegistry,
    token: u128,
    user_id: i32,
)
    requires
        created@ == before@.insert(token, user_id),
        destroyed@ == created@.remove(token),
    ensures
        created.resolves_to(token) == Some(user_id),
        destroyed.resolves_to(token) is None,
{
}

/// Destroying a token that is not live leaves every session as it was.
pub proof fn lemma_destroy_unknown_is_noop(before: SessionRegistry, after: SessionRegistry, token: u128)
    requires
        before.resolves_to(token) is None,
        after@ == before@.remove(token),
    ensures
        after@ == before@,
        forall|t: u128| #[trigger] after.resolves_to(t) == before.resolves_to(t),
{
    assert(after@ =~= before@);
}

} // verus!
