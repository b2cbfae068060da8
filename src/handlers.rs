use vstd::prelude::*;
use crate::credentials::{bcrypt_verdict, registered, DEFAULT_COST};
use crate::errors::AppError;
use crate::import::{csv_records, import_csv, import_fits, imported};
use crate::models::{
    has_username, owned_newest_first, phrases_of, Database, Phrase, PhraseList, User, UserLogin,
    UserRegister,
};
use crate::session::SessionRegistry;

verus! {

/// The landing page.
pub struct IndexTemplate;

/// The registration form.
pub struct RegisterTemplate;

/// The login form.
pub struct LoginTemplate;

/// The CSV upload form.
pub struct ImportTemplate;

/// What the personal page shows: the user's name and lists.
pub struct MyPageTemplate {
    pub username: String,
    pub phrase_lists: Vec<PhraseList>,
}

/// What the page of one list shows.
pub struct ListTemplate {
    pub phrases: Vec<Phrase>,
    pub list_id: i32,
    pub display_mode: String,
    pub list: PhraseList,
}

/// The user that the session cookie's token stands for.
pub open spec fn session_user_of(sessions: SessionRegistry, token: Option<u128>) -> Option<i32> {
    match token {
        Some(t) => sessions.resolves_to(t),
        None => None,
    }
}

/// Resolves the token of the session cookie; a missing cookie or a token that
/// is not live is `Unauthorized`.
pub fn session_user(sessions: &SessionRegistry, token: Option<u128>) -> (r: Result<i32, AppError>)
    ensures
        match session_user_of(*sessions, token) {
            Some(u) => r == Ok::<i32, AppError>(u),
            None => r == Err::<i32, AppError>(AppError::Unauthorized),
        },
{
    match token {
        Some(t) => match sessions.resolve(t) {
            Some(u) => Ok(u),
            None => Err(AppError::Unauthorized),
        },
        None => Err(AppError::Unauthorized),
    }
}

/// Registers the account of the form, hashing its password at the default work factor.
pub fn post_register(db: &mut Database, form: UserRegister, created_at: i64) -> (r: Result<
    i32,
    AppError,
>)
    requires
        old(db).wf(),
    ensures
        final(db).wf(),
        registered(
            *old(db),
            *final(db),
            form.username@,
            form.password@,
            DEFAULT_COST,
            created_at,
            r,
        ),
{
    db.register(form.username, form.password.as_str(), DEFAULT_COST, created_at)
}

/// Checks the credentials of the form and, where they hold, starts a session
/// and returns its token. An unknown name or a wrong password is `Unauthorized`;
/// where no unused token could be drawn the answer is `StorageError`.
pub fn post_login(db: &Database, sessions: &mut SessionRegistry, form: UserLogin) -> (r: Result<
    u128,
    AppError,
>)
    requires
        db.wf(),
    ensures
        r is Err ==> final(sessions)@ == old(sessions)@,
        !has_username(db.users@, form.username@) ==> r == Err::<u128, AppError>(
            AppError::Unauthorized,
        ),
        forall|i: int|
            0 <= i < db.users@.len() && (#[trigger] db.users@[i]).username@ == form.username@
                ==> match bcrypt_verdict(form.password@, db.users@[i].password_hash@) {
                Some(true) => (r matches Ok(t) && !old(sessions)@.contains_key(t)
                    && final(sessions)@ == old(sessions)@.insert(t, db.users@[i].id)) || (r is Err
                    && r->Err_0 is StorageError),
                Some(false) => r == Err::<u128, AppError>(AppError::Unauthorized),
                None => r is Err && r->Err_0 is HashingError,
            },
{
    match db.verify(form.username.as_str(), form.password.as_str()) {
        Ok(Some(user)) => match sessions.create_session(user.id) {
            Some(t) => Ok(t),
            None => Err(AppError::StorageError("no free session token".to_owned())),
        },
        Ok(None) => Err(AppError::Unauthorized),
        Err(e) => Err(e),
    }
}

/// Ends the session of the cookie's token, if there is one.
pub fn logout_user(sessions: &mut SessionRegistry, token: Option<u128>)
    ensures
        match token {
            Some(t) => final(sessions)@ == old(sessions)@.remove(t),
            None => final(sessions)@ == old(sessions)@,
        },
{
    if let Some(t) = token {
        sessions.destroy(t);
    }
}

/// The personal page of the session's user: their name and their lists, the
/// most recently created first.
pub fn my_page(db: &Database, sessions: &SessionRegistry, token: Option<u128>) -> (r: Result<
    MyPageTemplate,
    AppError,
>)
    requires
        db.wf(),
    ensures
        match session_user_of(*sessions, token) {
            None => r is Err && r->Err_0 is Unauthorized,
            Some(u) => if 1 <= u <= db.users@.len() {
                r matches Ok(page) && page.username == db.users@[u - 1].username
                    && page.phrase_lists@ == owned_newest_first(db.phrase_lists@, u) && (forall|
                    a: int,
                    b: int,
                | 0 <= a < b < page.phrase_lists@.len() ==> (#[trigger] page.phrase_lists@[a]).created_at
                    >= (#[trigger] page.phrase_lists@[b]).created_at) && (forall|k: int|
                    0 <= k < page.phrase_lists@.len() ==> (#[trigger] page.phrase_lists@[k]).user_id
                        == u)
            } else {
                r is Err && r->Err_0 is NotFound
            },
        },
{
    let user_id = match session_user(sessions, token) {
        Ok(u) => u,
        Err(e) => return Err(e),
    };
    let user = match User::find_by_id(db, user_id) {
        Ok(u) => u,
        Err(e) => return Err(e),
    };
    let phrase_lists = PhraseList::find_by_user_id(db, user_id);
    Ok(MyPageTemplate { username: user.username, phrase_lists })
}

/// Imports the uploaded CSV into list `name` of the session's user, all or
/// nothing. Without a live session nothing is parsed or stored.
pub fn post_import(
    db: &mut Database,
    sessions: &SessionRegistry,
    token: Option<u128>,
    name: String,
    target_lang: String,
    source_lang: String,
    file: &[u8],
    created_at: i64,
) -> (r: Result<i32, AppError>)
    requires
        old(db).wf(),
    ensures
        final(db).wf(),
        r is Err ==> *final(db) == *old(db),
        session_user_of(*sessions, token) is None ==> r is Err && r->Err_0 is Unauthorized,
        session_user_of(*sessions, token) matches Some(u) ==> {
            &&& csv_records(file@) is None ==> r is Err && r->Err_0 is ParseError
            &&& csv_records(file@) matches Some(rows) ==> match r {
                Ok(list_id) => imported(
                    *old(db),
                    *final(db),
                    u,
                    name@,
                    target_lang@,
                    source_lang@,
                    created_at,
                    rows,
                    list_id,
                ),
                Err(e) => e is StorageError && !import_fits(*old(db), name@, u, rows.len() as int),
            }
        },
{
    let user_id = match session_user(sessions, token) {
        Ok(u) => u,
        Err(e) => return Err(e),
    };
    import_csv(db, user_id, name, target_lang, source_lang, file, created_at)
}

/// The page of list `list_id`, for its owner only: another user's list is
/// `Unauthorized`, an absent one `NotFound`. The display mode defaults to "all".
pub fn get_list(
    db: &Database,
    sessions: &SessionRegistry,
    token: Option<u128>,
    list_id: i32,
    display_mode: Option<String>,
) -> (r: Result<ListTemplate, AppError>)
    requires
        db.wf(),
    ensures
        match session_user_of(*sessions, token) {
            None => r is Err && r->Err_0 is Unauthorized,
            Some(u) => if !(1 <= list_id <= db.phrase_lists@.len()) {
                r is Err && r->Err_0 is NotFound
            } else if db.phrase_lists@[list_id - 1].user_id != u {
                r is Err && r->Err_0 is Unauthorized
            } else {
                r matches Ok(page) && page.list == db.phrase_lists@[list_id - 1] && page.list_id
                    == list_id && page.phrases@ == phrases_of(db.phrases@, list_id) && match display_mode {
                    Some(m) => page.display_mode == m,
                    None => page.display_mode@ == "all"@,
                }
            },
        },
{
    let user_id = match session_user(sessions, token) {
        Ok(u) => u,
        Err(e) => return Err(e),
    };
    let list = match PhraseList::find_by_id(db, list_id) {
        Ok(l) => l,
        Err(e) => return Err(e),
    };
    if list.user_id != user_id {
        return Err(AppError::Unauthorized);
    }
    let phrases = Phrase::find_by_list_id(db, list_id);
    let display_mode = match display_mode {
        Some(m) => m,
        None => "all".to_owned(),
    };
    Ok(ListTemplate { phrases, list_id, display_mode, list })
}

} // verus!
