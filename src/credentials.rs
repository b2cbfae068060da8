use vstd::prelude::*;
use crate::errors::AppError;
use crate::models::{copy_user, has_username, identities_exhausted, Database, User};

verus! {

/// The work factor that passwords are hashed with (that of bcrypt::DEFAULT_COST).
pub const DEFAULT_COST: u32 = 12;

/// What bcrypt::verify answers for a password and a stored hash: `Some(matched)`,
/// or `None` where the hash cannot be read.
pub uninterp spec fn bcrypt_verdict(password: Seq<char>, hash: Seq<char>) -> Option<bool>;

/// `h` has the layout of a bcrypt hash of work factor `cost`: 60 characters,
/// starting with `$2b$`, the cost in two decimal digits, and `$`.
pub open spec fn bcrypt_shape(h: Seq<char>, cost: u32) -> bool {
    &&& h.len() == 60
    &&& h[0] == '$'
    &&& h[1] == '2'
    &&& h[2] == 'b'
    &&& h[3] == '$'
    &&& h[4] as u32 == 48 + cost / 10
    &&& h[5] as u32 == 48 + cost % 10
    &&& h[6] == '$'
}

/// Relies on bcrypt::hash: a salted hash with a random salt, which
/// bcrypt::verify accepts for the same password. It succeeds only for a work
/// factor from 4 to 31, and writes it as `$2b$`, the cost in two digits, `$`,
/// then 22 characters of salt and 31 of hash.
#[verifier::external_body]
fn hash_password(password: &str, cost: u32) -> (r: Result<String, bcrypt::BcryptError>)
    ensures
        r matches Ok(h) ==> {
            &&& bcrypt_verdict(password@, h@) == Some(true)
            &&& 4 <= cost <= 31
            &&& bcrypt_shape(h@, cost)
        },
{
    bcrypt::hash(password, cost)
}

/// Relies on bcrypt::verify: the verdict depends on the password and the hash alone.
#[verifier::external_body]
fn check_password(password: &str, hash: &str) -> (r: Result<bool, bcrypt::BcryptError>)
    ensures
        match r {
            Ok(b) => bcrypt_verdict(password@, hash@) == Some(b),
            Err(_) => bcrypt_verdict(password@, hash@) is None,
        },
{
    bcrypt::verify(password, hash)
}

/// Turns the verdict on `user`'s stored hash into the outcome of a login attempt.
pub fn accept_password(user: User, verdict: Result<bool, bcrypt::BcryptError>) -> (r: Result<
    Option<User>,
    AppError,
>)
    ensures
        match verdict {
            Ok(true) => r == Ok::<Option<User>, AppError>(Some(user)),
            Ok(false) => r == Ok::<Option<User>, AppError>(None),
            Err(e) => r == Err::<Option<User>, AppError>(AppError::HashingError(e)),
        },
{
    match verdict {
        Ok(true) => Ok(Some(user)),
        Ok(false) => Ok(None),
        Err(e) => Err(AppError::HashingError(e)),
    }
}

/// The outcome of `verify` for the user stored as `u`.
pub open spec fn verified_as(u: User, password: Seq<char>, r: Result<Option<User>, AppError>) -> bool {
    match bcrypt_verdict(password, u.password_hash@) {
        Some(true) => r == Ok::<Option<User>, AppError>(Some(u)),
        Some(false) => r == Ok::<Option<User>, AppError>(None),
        None => r is Err && r->Err_0 is HashingError,
    }
}

/// `post` is `pre` after `register(username, password, ..)` answered `r`: a
/// taken name is refused with `DuplicateUsername`; on success the new user is
/// the last row, with a hash of work factor `cost` that bcrypt accepts for
/// `password`; a work factor outside 4 to 31 is refused, and a full users
/// table gives `StorageError`; on any
/// failure nothing changed.
pub open spec fn registered(
    pre: Database,
    post: Database,
    username: Seq<char>,
    password: Seq<char>,
    cost: u32,
    created_at: i64,
    r: Result<i32, AppError>,
) -> bool {
    &&& post.phrase_lists == pre.phrase_lists
    &&& post.phrases == pre.phrases
    &&& (r == Err::<i32, AppError>(AppError::DuplicateUsername)) <==> has_username(
        pre.users@,
        username,
    )
    &&& !has_username(pre.users@, username) && pre.users@.len() < i32::MAX ==> (r is Ok
        || r->Err_0 is HashingError)
    &&& !has_username(pre.users@, username) && pre.users@.len() >= i32::MAX ==> (r is Err
        && r->Err_0 is StorageError)
    &&& !(4 <= cost <= 31) ==> r is Err
    &&& r is Err ==> post == pre
    &&& r matches Ok(id) ==> {
        let u = post.users@.last();
        &&& id == pre.users@.len() + 1
        &&& post.users@.len() == pre.users@.len() + 1
        &&& post.users@.drop_last() == pre.users@
        &&& u.id == id
        &&& u.username@ == username
        &&& u.created_at == created_at
        &&& bcrypt_verdict(password, u.password_hash@) == Some(true)
        &&& bcrypt_shape(u.password_hash@, cost)
        &&& password.len() != 60 ==> u.password_hash@ != password
    }
}

/// `r` is what `verify(username, password)` answers on `db`.
pub open spec fn verify_outcome(
    db: Database,
    username: Seq<char>,
    password: Seq<char>,
    r: Result<Option<User>, AppError>,
) -> bool {
    &&& !has_username(db.users@, username) ==> r == Ok::<Option<User>, AppError>(None)
    &&& forall|i: int|
        0 <= i < db.users@.len() && (#[trigger] db.users@[i]).username@ == username
            ==> verified_as(db.users@[i], password, r)
}

impl Database {
    /// Adds a user whose password is stored as a bcrypt hash of work factor
    /// `cost`, and returns the new user's identity. A taken username is refused
    /// and leaves the database as it was, as does every other failure.
    pub fn register(&mut self, username: String, password: &str, cost: u32, created_at: i64) -> (r:
        Result<i32, AppError>)
        requires
            old(self).wf(),
        ensures
            final(self).wf(),
            final(self).phrase_lists == old(self).phrase_lists,
            final(self).phrases == old(self).phrases,
            registered(*old(self), *final(self), username@, password@, cost, created_at, r),
    {
        let mut i: usize = 0;
        while i < self.users.len()
            invariant
                i <= self.users@.len(),
                *self == *old(self),
                self.wf(),
                forall|j: int| 0 <= j < i ==> (#[trigger] self.users@[j]).username@ != username@,
            decreases self.users@.len() - i,
        {
            if self.users[i].username == username {
                return Err(AppError::DuplicateUsername);
            }
            i += 1;
        }
        let n = self.users.len();
        if n >= i32::MAX as usize {
            return Err(identities_exhausted());
        }
        let password_hash = match hash_password(password, cost) {
            Ok(h) => h,
            Err(e) => return Err(AppError::HashingError(e)),
        };
        let id = (n + 1) as i32;
        self.users.push(User { id, username, password_hash, created_at });
        proof {
            assert(self.users@.drop_last() =~= old(self).users@);
            assert forall|k: int| 0 <= k < self.users@.len() implies #[trigger] self.users@[k].id
                == k + 1 by {
                if k < n {
                    assert(self.users@[k] == old(self).users@[k]);
                }
            }
            assert forall|a: int, b: int|
                0 <= a < self.users@.len() && 0 <= b < self.users@.len() && a != b implies #[trigger] self.users@[a].username@
                != #[trigger] self.users@[b].username@ by {
                if a < n {
                    assert(self.users@[a] == old(self).users@[a]);
                }
                if b < n {
                    assert(self.users@[b] == old(self).users@[b]);
                }
            }
        }
        Ok(id)
    }

    /// Looks the user up by name and checks the password against the stored
    /// hash. Answers `Ok(None)` for an unknown name or a wrong password.
    pub fn verify(&self, username: &str, password: &str) -> (r: Result<Option<User>, AppError>)
        requires
            self.wf(),
        ensures
            verify_outcome(*self, username@, password@, r),
    {
        let wanted = username.to_owned();
        let mut i: usize = 0;
        while i < self.users.len()
            invariant
                i <= self.users@.len(),
                self.wf(),
                wanted@ == username@,
                forall|j: int| 0 <= j < i ==> (#[trigger] self.users@[j]).username@ != username@,
            decreases self.users@.len() - i,
        {
            if self.users[i].username == wanted {
                let user = copy_user(&self.users[i]);
                proof {
                    assert forall|k: int|
                        0 <= k < self.users@.len() && (#[trigger] self.users@[k]).username@
                            == username@ implies k == i by {
                        if k != i {
                            assert(self.users@[k].username@ != self.users@[i as int].username@);
                        }
                    }
                }
                let verdict = check_password(password, user.password_hash.as_str());
                return accept_password(user, verdict);
            }
            i += 1;
        }
        Ok(None)
    }
}

/// Registering a name twice: the second registration is refused with
/// `DuplicateUsername`, and the row of the first stays as it was.
pub proof fn lemma_register_twice(
    db0: Database,
    db1: Database,
    db2: Database,
    username: Seq<char>,
    password1: Seq<char>,
    password2: Seq<char>,
    cost1: u32,
    cost2: u32,
    created_at1: i64,
    created_at2: i64,
    r1: Result<i32, AppError>,
    r2: Result<i32, AppError>,
)
    requires
        registered(db0, db1, username, password1, cost1, created_at1, r1),
        registered(db1, db2, username, password2, cost2, created_at2, r2),
        r1 is Ok,
    ensures
        r2 == Err::<i32, AppError>(AppError::DuplicateUsername),
        db2 == db1,
        db2.users@[r1->Ok_0 - 1].username@ == username,
        db2.users@[r1->Ok_0 - 1] == db1.users@.last(),
{
    assert(db1.users@[db1.users@.len() - 1].username@ == username);
}

/// Right after `username` registers with `password`, verifying that name with
/// that password yields the new user's record. Whatever the database,
/// `verify` yields a record only where bcrypt accepts the password against
/// that record's stored hash.
pub proof fn lemma_verify_after_register(
    db0: Database,
    db1: Database,
    username: Seq<char>,
    password: Seq<char>,
    cost: u32,
    created_at: i64,
    r: Result<i32, AppError>,
    v: Result<Option<User>, AppError>,
)
    requires
        db1.wf(),
        registered(db0, db1, username, password, cost, created_at, r),
        r is Ok,
        verify_outcome(db1, username, password, v),
    ensures
        v == Ok::<Option<User>, AppError>(Some(db1.users@.last())),
{
    let k = db1.users@.len() - 1;
    assert(db1.users@[k].username@ == username);
    assert(verified_as(db1.users@[k], password, v));
}

/// A record that `verify` yields carries the name asked for, and bcrypt
/// accepts the password against its stored hash.
pub proof fn lemma_verified_record_matches(
    db: Database,
    username: Seq<char>,
    password: Seq<char>,
    v: Result<Option<User>, AppError>,
)
    requires
        db.wf(),
        verify_outcome(db, username, password, v),
    ensures
        v matches Ok(Some(u)) ==> u.username@ == username && bcrypt_verdict(
            password,
            u.password_hash@,
        ) == Some(true),
{
    if v matches Ok(Some(u)) {
        let i = choose|i: int| 0 <= i < db.users@.len() && (#[trigger] db.users@[i]).username@ == username;
        assert(verified_as(db.users@[i], password, v));
    }
}

} // verus!
