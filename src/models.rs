use vstd::prelude::*;
use crate::errors::AppError;

verus! {

/// A registered account. `created_at` is in seconds since the Unix epoch (UTC).
#[derive(Debug)]
pub struct User {
    pub id: i32,
    pub username: String,
    pub password_hash: String,
    pub created_at: i64,
}

/// The fields of the registration form.
#[derive(Debug)]
pub struct UserRegister {
    pub username: String,
    pub password: String,
}

/// The fields of the login form.
#[derive(Debug)]
pub struct UserLogin {
    pub username: String,
    pub password: String,
}

/// A named phrase list owned by one user.
#[derive(Debug)]
pub struct PhraseList {
    pub id: i32,
    pub user_id: i32,
    pub name: String,
    pub target_lang: String,
    pub source_lang: String,
    pub created_at: i64,
}

/// What a new phrase list is created from.
#[derive(Debug)]
pub struct PhraseListMetadata {
    pub user_id: i32,
    pub name: String,
    pub target_lang: String,
    pub source_lang: String,
}

/// One bilingual pair of a phrase list.
#[derive(Debug)]
pub struct Phrase {
    pub id: i32,
    pub list_id: i32,
    pub target_lang_text: String,
    pub source_lang_text: String,
}

/// A phrase list prepared for display.
#[derive(Debug)]
pub struct PhraseListDisplay {
    pub name: String,
    pub phrases: Vec<Phrase>,
    pub display_mode: String,
}

/// The three tables. Row `i` of each table has identity `i + 1`, so identities
/// are handed out in creation order and never reused.
pub struct Database {
    pub users: Vec<User>,
    pub phrase_lists: Vec<PhraseList>,
    pub phrases: Vec<Phrase>,
}

/// The lists of `s` owned by `user_id`, the most recently created first.
pub open spec fn owned_newest_first(s: Seq<PhraseList>, user_id: i32) -> Seq<PhraseList>
    decreases s.len(),
{
    if s.len() == 0 {
        Seq::empty()
    } else {
        let rest = owned_newest_first(s.drop_last(), user_id);
        if s.last().user_id == user_id {
            seq![s.last()] + rest
        } else {
            rest
        }
    }
}

/// The phrases of `s` that belong to `list_id`, in order of identity.
pub open spec fn phrases_of(s: Seq<Phrase>, list_id: i32) -> Seq<Phrase>
    decreases s.len(),
{
    if s.len() == 0 {
        Seq::empty()
    } else {
        let rest = phrases_of(s.drop_last(), list_id);
        if s.last().list_id == list_id {
            rest.push(s.last())
        } else {
            rest
        }
    }
}

/// Whether list `l` has the given name and owner.
pub open spec fn is_named(l: PhraseList, name: Seq<char>, user_id: i32) -> bool {
    l.name@ == name && l.user_id == user_id
}

/// `i` is the first row of `s` with the given name and owner.
pub open spec fn first_named_at(s: Seq<PhraseList>, name: Seq<char>, user_id: i32, i: int) -> bool {
    0 <= i < s.len() && is_named(s[i], name, user_id) && forall|j: int|
        0 <= j < i ==> !is_named(#[trigger] s[j], name, user_id)
}

/// Some row of `s` has the given name and owner.
pub open spec fn has_named(s: Seq<PhraseList>, name: Seq<char>, user_id: i32) -> bool {
    exists|i: int| 0 <= i < s.len() && is_named(#[trigger] s[i], name, user_id)
}

/// Some user of `s` has the given name.
pub open spec fn has_username(s: Seq<User>, username: Seq<char>) -> bool {
    exists|i: int| 0 <= i < s.len() && (#[trigger] s[i]).username@ == username
}

/// A field-by-field copy of a user row.
pub fn copy_user(u: &User) -> (r: User)
    ensures
        r == *u,
{
    User {
        id: u.id,
        username: u.username.clone(),
        password_hash: u.password_hash.clone(),
        created_at: u.created_at,
    }
}

/// A field-by-field copy of a list row.
pub fn copy_list(l: &PhraseList) -> (r: PhraseList)
    ensures
        r == *l,
{
    PhraseList {
        id: l.id,
        user_id: l.user_id,
        name: l.name.clone(),
        target_lang: l.target_lang.clone(),
        source_lang: l.source_lang.clone(),
        created_at: l.created_at,
    }
}

/// A field-by-field copy of a phrase row.
pub fn copy_phrase(p: &Phrase) -> (r: Phrase)
    ensures
        r == *p,
{
    Phrase {
        id: p.id,
        list_id: p.list_id,
        target_lang_text: p.target_lang_text.clone(),
        source_lang_text: p.source_lang_text.clone(),
    }
}

/// The lists of `owned_newest_first(s, user_id)` are exactly the rows of `s`
/// owned by `user_id`; where `s` is stamped in order, they come newest first.
pub proof fn lemma_owned_newest_first(s: Seq<PhraseList>, user_id: i32)
    ensures
        forall|k: int|
            0 <= k < owned_newest_first(s, user_id).len() ==> (#[trigger] owned_newest_first(
                s,
                user_id,
            )[k]).user_id == user_id && s.contains(owned_newest_first(s, user_id)[k]),
        forall|i: int|
            0 <= i < s.len() && (#[trigger] s[i]).user_id == user_id ==> owned_newest_first(
                s,
                user_id,
            ).contains(s[i]),
        (forall|i: int, j: int|
            0 <= i < j < s.len() ==> #[trigger] s[i].created_at <= #[trigger] s[j].created_at)
            ==> forall|a: int, b: int|
            0 <= a < b < owned_newest_first(s, user_id).len() ==> (#[trigger] owned_newest_first(
                s,
                user_id,
            )[a]).created_at >= (#[trigger] owned_newest_first(s, user_id)[b]).created_at,
    decreases s.len(),
{
    if s.len() > 0 {
        let d = s.drop_last();
        lemma_owned_newest_first(d, user_id);
        let rest = owned_newest_first(d, user_id);
        let r = owned_newest_first(s, user_id);
        assert forall|k: int| 0 <= k < rest.len() implies s.contains(#[trigger] rest[k]) by {
            let i = choose|i: int| 0 <= i < d.len() && d[i] == rest[k];
            assert(s[i] == d[i]);
        }
        if s.last().user_id == user_id {
            assert(r == seq![s.last()] + rest);
            assert(s[s.len() - 1] == s.last());
            assert forall|k: int| 0 <= k < r.len() implies (#[trigger] r[k]).user_id == user_id
                && s.contains(r[k]) by {
                if k > 0 {
                    assert(r[k] == rest[k - 1]);
                }
            }
            assert forall|i: int| 0 <= i < s.len() && (#[trigger] s[i]).user_id == user_id implies r.contains(s[i]) by {
                if i < s.len() - 1 {
                    assert(s[i] == d[i]);
                    let k = choose|k: int| 0 <= k < rest.len() && rest[k] == d[i];
                    assert(r[k + 1] == rest[k]);
                } else {
                    assert(r[0] == s[i]);
                }
            }
            if forall|i: int, j: int|
                0 <= i < j < s.len() ==> #[trigger] s[i].created_at <= #[trigger] s[j].created_at {
                assert forall|i: int, j: int| 0 <= i < j < d.len() implies #[trigger] d[i].created_at
                    <= #[trigger] d[j].created_at by {
                    assert(d[i] == s[i] && d[j] == s[j]);
                }
                assert forall|a: int, b: int| 0 <= a < b < r.len() implies (#[trigger] r[a]).created_at
                    >= (#[trigger] r[b]).created_at by {
                    assert(r[b] == rest[b - 1]);
                    if a > 0 {
                        assert(r[a] == rest[a - 1]);
                    } else {
                        let i = choose|i: int| 0 <= i < d.len() && d[i] == rest[b - 1];
                        assert(d[i] == s[i]);
                        assert(s[i].created_at <= s[s.len() - 1].created_at);
                    }
                }
            }
        } else {
            assert forall|i: int| 0 <= i < s.len() && (#[trigger] s[i]).user_id == user_id implies r.contains(s[i]) by {
                assert(s[i] == d[i]);
            }
            if forall|i: int, j: int|
                0 <= i < j < s.len() ==> #[trigger] s[i].created_at <= #[trigger] s[j].created_at {
                assert forall|i: int, j: int| 0 <= i < j < d.len() implies #[trigger] d[i].created_at
                    <= #[trigger] d[j].created_at by {
                    assert(d[i] == s[i] && d[j] == s[j]);
                }
            }
        }
    }
}

/// Selecting the phrases of a list distributes over concatenation.
pub proof fn lemma_phrases_of_append(s: Seq<Phrase>, t: Seq<Phrase>, list_id: i32)
    ensures
        phrases_of(s + t, list_id) == phrases_of(s, list_id) + phrases_of(t, list_id),
    decreases t.len(),
{
    if t.len() == 0 {
        assert(s + t =~= s);
        assert(phrases_of(s, list_id) + phrases_of(t, list_id) =~= phrases_of(s, list_id));
    } else {
        lemma_phrases_of_append(s, t.drop_last(), list_id);
        assert((s + t).drop_last() =~= s + t.drop_last());
        assert((s + t).last() == t.last());
        if t.last().list_id == list_id {
            assert((phrases_of(s, list_id) + phrases_of(t.drop_last(), list_id)).push(t.last())
                =~= phrases_of(s, list_id) + phrases_of(t.drop_last(), list_id).push(t.last()));
        }
    }
}

/// A run of phrases that all belong to `list_id` is selected whole.
pub proof fn lemma_phrases_of_all(t: Seq<Phrase>, list_id: i32)
    requires
        forall|i: int| 0 <= i < t.len() ==> (#[trigger] t[i]).list_id == list_id,
    ensures
        phrases_of(t, list_id) == t,
    decreases t.len(),
{
    if t.len() > 0 {
        assert(t.last() == t[t.len() - 1]);
        lemma_phrases_of_all(t.drop_last(), list_id);
        assert(t.drop_last().push(t.last()) =~= t);
    }
}

impl Database {
    /// Identities follow row positions; usernames are unique; an owner has at
    /// most one list of each name; and lists are stamped in creation order.
    pub open spec fn wf(&self) -> bool {
        &&& forall|i: int| 0 <= i < self.users@.len() ==> #[trigger] self.users@[i].id == i + 1
        &&& forall|i: int|
            0 <= i < self.phrase_lists@.len() ==> #[trigger] self.phrase_lists@[i].id == i + 1
        &&& forall|i: int| 0 <= i < self.phrases@.len() ==> #[trigger] self.phrases@[i].id == i + 1
        &&& forall|i: int, j: int|
            0 <= i < self.users@.len() && 0 <= j < self.users@.len() && i != j
                ==> #[trigger] self.users@[i].username@ != #[trigger] self.users@[j].username@
        &&& forall|i: int, j: int|
            0 <= i < j < self.phrase_lists@.len() ==> #[trigger] self.phrase_lists@[i].created_at
                <= #[trigger] self.phrase_lists@[j].created_at
        &&& forall|i: int, j: int|
            0 <= i < self.phrase_lists@.len() && 0 <= j < self.phrase_lists@.len() && i != j
                && self.phrase_lists@[i].user_id == self.phrase_lists@[j].user_id
                ==> #[trigger] self.phrase_lists@[i].name@ != #[trigger] self.phrase_lists@[j].name@
    }

    /// An empty database.
    pub fn new() -> (r: Database)
        ensures
            r.wf(),
            r.users@.len() == 0,
            r.phrase_lists@.len() == 0,
            r.phrases@.len() == 0,
    {
        Database { users: Vec::new(), phrase_lists: Vec::new(), phrases: Vec::new() }
    }
}

impl User {
    /// The user with identity `id`.
    pub fn find_by_id(db: &Database, id: i32) -> (r: Result<User, AppError>)
        requires
            db.wf(),
        ensures
            match r {
                Ok(u) => 1 <= id <= db.users@.len() && u == db.users@[id - 1],
                Err(e) => !(1 <= id <= db.users@.len()) && e == AppError::NotFound,
            },
    {
        if 1 <= id && (id as usize) <= db.users.len() {
            Ok(copy_user(&db.users[(id - 1) as usize]))
        } else {
            Err(AppError::NotFound)
        }
    }
}

/// The error reported when a table has handed out every identity an `i32` can hold.
pub fn identities_exhausted() -> (r: AppError)
    ensures
        r is StorageError,
{
    AppError::StorageError("identity space exhausted".to_owned())
}

/// The time stamp a list created at `t` gets: never earlier than that of the
/// latest list, so that creation order and time order agree even where the
/// clock steps back.
pub open spec fn next_created_at(s: Seq<PhraseList>, t: i64) -> i64 {
    if s.len() > 0 && s.last().created_at > t {
        s.last().created_at
    } else {
        t
    }
}

impl PhraseList {
    /// Inserts a new list, owned by `metadata.user_id`, and returns its
    /// identity. An owner has at most one list of a name: where that list
    /// exists already, its identity is returned and nothing changes.
    pub fn create(db: &mut Database, metadata: PhraseListMetadata, created_at: i64) -> (r: Result<
        i32,
        AppError,
    >)
        requires
            old(db).wf(),
        ensures
            final(db).wf(),
            final(db).users == old(db).users,
            final(db).phrases == old(db).phrases,
            has_named(old(db).phrase_lists@, metadata.name@, metadata.user_id) ==> {
                &&& *final(db) == *old(db)
                &&& exists|k: int|
                    0 <= k < old(db).phrase_lists@.len() && is_named(
                        #[trigger] old(db).phrase_lists@[k],
                        metadata.name@,
                        metadata.user_id,
                    ) && r == Ok::<i32, AppError>(old(db).phrase_lists@[k].id)
            },
            !has_named(old(db).phrase_lists@, metadata.name@, metadata.user_id)
                && old(db).phrase_lists@.len() < i32::MAX ==> {
                &&& r == Ok::<i32, AppError>((old(db).phrase_lists@.len() + 1) as i32)
                &&& final(db).phrase_lists@ == old(db).phrase_lists@.push(
                    (PhraseList {
                        id: (old(db).phrase_lists@.len() + 1) as i32,
                        user_id: metadata.user_id,
                        name: metadata.name,
                        target_lang: metadata.target_lang,
                        source_lang: metadata.source_lang,
                        created_at: next_created_at(old(db).phrase_lists@, created_at),
                    }),
                )
            },
            !has_named(old(db).phrase_lists@, metadata.name@, metadata.user_id)
                && old(db).phrase_lists@.len() >= i32::MAX ==> r is Err && r->Err_0 is StorageError
                && *final(db) == *old(db),
    {
        if let Some(existing) = PhraseList::find_by_name_and_user_id(
            db,
            metadata.name.as_str(),
            metadata.user_id,
        ) {
            return Ok(existing.id);
        }
        let n = db.phrase_lists.len();
        if n >= i32::MAX as usize {
            return Err(identities_exhausted());
        }
        let stamp = if n > 0 && db.phrase_lists[n - 1].created_at > created_at {
            db.phrase_lists[n - 1].created_at
        } else {
            created_at
        };
        let id = (n + 1) as i32;
        let ghost name = metadata.name@;
        let ghost user_id = metadata.user_id;
        db.phrase_lists.push(
            PhraseList {
                id,
                user_id: metadata.user_id,
                name: metadata.name,
                target_lang: metadata.target_lang,
                source_lang: metadata.source_lang,
                created_at: stamp,
            },
        );
        proof {
            let pre = old(db).phrase_lists@;
            let post = db.phrase_lists@;
            assert forall|i: int| 0 <= i < post.len() implies #[trigger] post[i].id == i + 1 by {
                if i < n {
                    assert(post[i] == pre[i]);
                }
            }
            assert forall|i: int, j: int| 0 <= i < j < post.len() implies #[trigger] post[i].created_at
                <= #[trigger] post[j].created_at by {
                assert(post[i] == pre[i]);
                if j < n {
                    assert(post[j] == pre[j]);
                } else {
                    assert(pre[i].created_at <= pre[n - 1].created_at);
                }
            }
            assert forall|i: int, j: int|
                0 <= i < post.len() && 0 <= j < post.len() && i != j && post[i].user_id
                    == post[j].user_id implies #[trigger] post[i].name@ != #[trigger] post[j].name@ by {
                if i < n {
                    assert(post[i] == pre[i]);
                }
                if j < n {
                    assert(post[j] == pre[j]);
                }
                if i == n {
                    assert(!is_named(pre[j], name, user_id));
                }
                if j == n {
                    assert(!is_named(pre[i], name, user_id));
                }
            }
        }
        Ok(id)
    }

    /// All lists owned by `user_id`, the most recently created first.
    pub fn find_by_user_id(db: &Database, user_id: i32) -> (r: Vec<PhraseList>)
        requires
            db.wf(),
        ensures
            r@ == owned_newest_first(db.phrase_lists@, user_id),
            forall|k: int|
                0 <= k < r@.len() ==> (#[trigger] r@[k]).user_id == user_id
                    && db.phrase_lists@.contains(r@[k]),
            forall|i: int|
                0 <= i < db.phrase_lists@.len() && (#[trigger] db.phrase_lists@[i]).user_id
                    == user_id ==> r@.contains(db.phrase_lists@[i]),
            forall|a: int, b: int|
                0 <= a < b < r@.len() ==> (#[trigger] r@[a]).created_at >= (#[trigger] r@[b]).created_at,
    {
        let mut r: Vec<PhraseList> = Vec::new();
        let mut i: usize = 0;
        while i < db.phrase_lists.len()
            invariant
                i <= db.phrase_lists@.len(),
                db.wf(),
                r@ == owned_newest_first(db.phrase_lists@.subrange(0, i as int), user_id),
            decreases db.phrase_lists@.len() - i,
        {
            proof {
                let s = db.phrase_lists@.subrange(0, i as int + 1);
                assert(s.drop_last() =~= db.phrase_lists@.subrange(0, i as int));
                assert(s.last() == db.phrase_lists@[i as int]);
            }
            if db.phrase_lists[i].user_id == user_id {
                let l = copy_list(&db.phrase_lists[i]);
                r.insert(0, l);
                proof {
                    let s = db.phrase_lists@.subrange(0, i as int + 1);
                    assert(r@ =~= seq![s.last()] + owned_newest_first(s.drop_last(), user_id));
                }
            }
            i += 1;
        }
        assert(db.phrase_lists@.subrange(0, i as int) =~= db.phrase_lists@);
        proof {
            lemma_owned_newest_first(db.phrase_lists@, user_id);
        }
        r
    }

    /// The list with identity `id`.
    pub fn find_by_id(db: &Database, id: i32) -> (r: Result<PhraseList, AppError>)
        requires
            db.wf(),
        ensures
            match r {
                Ok(l) => 1 <= id <= db.phrase_lists@.len() && l == db.phrase_lists@[id - 1],
                Err(e) => !(1 <= id <= db.phrase_lists@.len()) && e == AppError::NotFound,
            },
    {
        if 1 <= id && (id as usize) <= db.phrase_lists.len() {
            Ok(copy_list(&db.phrase_lists[(id - 1) as usize]))
        } else {
            Err(AppError::NotFound)
        }
    }

    /// The first list created with exactly this name and owner, if any.
    pub fn find_by_name_and_user_id(db: &Database, name: &str, user_id: i32) -> (r: Option<
        PhraseList,
    >)
        ensures
            match r {
                Some(l) => exists|i: int|
                    first_named_at(db.phrase_lists@, name@, user_id, i) && l
                        == #[trigger] db.phrase_lists@[i],
                None => !has_named(db.phrase_lists@, name@, user_id),
            },
    {
        let wanted = name.to_owned();
        let mut i: usize = 0;
        while i < db.phrase_lists.len()
            invariant
                i <= db.phrase_lists@.len(),
                wanted@ == name@,
                forall|j: int| 0 <= j < i ==> !is_named(#[trigger] db.phrase_lists@[j], name@, user_id),
            decreases db.phrase_lists@.len() - i,
        {
            if db.phrase_lists[i].user_id == user_id && db.phrase_lists[i].name == wanted {
                let l = copy_list(&db.phrase_lists[i]);
                assert(first_named_at(db.phrase_lists@, name@, user_id, i as int));
                return Some(l);
            }
            i += 1;
        }
        None
    }
}

impl Phrase {
    /// Appends one phrase and returns its identity. The phrase's own `id` is
    /// ignored: the table hands out the next one.
    pub fn create(db: &mut Database, phrase: Phrase) -> (r: Result<i32, AppError>)
        requires
            old(db).wf(),
        ensures
            final(db).wf(),
            final(db).users == old(db).users,
            final(db).phrase_lists == old(db).phrase_lists,
            old(db).phrases@.len() < i32::MAX ==> r is Ok,
            match r {
                Ok(id) => {
                    &&& id == old(db).phrases@.len() + 1
                    &&& final(db).phrases@ == old(db).phrases@.push(
                        (Phrase {
                            id,
                            list_id: phrase.list_id,
                            target_lang_text: phrase.target_lang_text,
                            source_lang_text: phrase.source_lang_text,
                        }),
                    )
                },
                Err(e) => e is StorageError && *final(db) == *old(db),
            },
    {
        let n = db.phrases.len();
        if n >= i32::MAX as usize {
            return Err(identities_exhausted());
        }
        let id = (n + 1) as i32;
        db.phrases.push(
            Phrase {
                id,
                list_id: phrase.list_id,
                target_lang_text: phrase.target_lang_text,
                source_lang_text: phrase.source_lang_text,
            },
        );
        proof {
            assert forall|i: int| 0 <= i < db.phrases@.len() implies #[trigger] db.phrases@[i].id == i + 1 by {
                if i < n {
                    assert(db.phrases@[i] == old(db).phrases@[i]);
                }
            }
        }
        Ok(id)
    }

    /// The phrases of list `list_id`, in the order they were inserted.
    pub fn find_by_list_id(db: &Database, list_id: i32) -> (r: Vec<Phrase>)
        ensures
            r@ == phrases_of(db.phrases@, list_id),
    {
        let mut r: Vec<Phrase> = Vec::new();
        let mut i: usize = 0;
        while i < db.phrases.len()
            invariant
                i <= db.phrases@.len(),
                r@ == phrases_of(db.phrases@.subrange(0, i as int), list_id),
            decreases db.phrases@.len() - i,
        {
            proof {
                let s = db.phrases@.subrange(0, i as int + 1);
                assert(s.drop_last() =~= db.phrases@.subrange(0, i as int));
                assert(s.last() == db.phrases@[i as int]);
            }
            if db.phrases[i].list_id == list_id {
                r.push(copy_phrase(&db.phrases[i]));
            }
            i += 1;
        }
        assert(db.phrases@.subrange(0, i as int) =~= db.phrases@);
        r
    }
}

} // verus!
