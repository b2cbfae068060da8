use sophisticate_phrase::credentials::DEFAULT_COST;
use sophisticate_phrase::errors::AppError;
use sophisticate_phrase::handlers::{
    get_list, logout_user, my_page, post_import, post_login, post_register, session_user,
};
use sophisticate_phrase::import::{import_csv, import_records};
use sophisticate_phrase::models::{
    Database, Phrase, PhraseList, PhraseListMetadata, User, UserLogin, UserRegister,
};
use sophisticate_phrase::session::SessionRegistry;

const FAST_COST: u32 = 4;

fn s(x: &str) -> String {
    x.to_string()
}

fn login(db: &Database, sessions: &mut SessionRegistry, user: &str, pw: &str) -> u128 {
    post_login(db, sessions, UserLogin { username: s(user), password: s(pw) }).unwrap()
}

#[test]
fn register_same_username_twice_fails() {
    let mut db = Database::new();
    let first = post_register(&mut db, UserRegister { username: s("alice"), password: s("pw1") }, 10);
    assert_eq!(first.unwrap(), 1);
    let second = post_register(&mut db, UserRegister { username: s("alice"), password: s("other") }, 20);
    assert!(matches!(second, Err(AppError::DuplicateUsername)));
    assert_eq!(db.users.len(), 1);
    assert_eq!(db.users[0].username, "alice");
    assert_eq!(db.users[0].created_at, 10);
    assert!(db.users[0].password_hash.starts_with("$2b$12$"));
    assert!(matches!(db.verify("alice", "pw1"), Ok(Some(_))));
}

#[test]
fn stored_hash_is_not_the_password() {
    let mut db = Database::new();
    db.register(s("bob"), "secret", FAST_COST, 0).unwrap();
    assert_ne!(db.users[0].password_hash, "secret");
    assert!(!db.users[0].password_hash.contains("secret"));
}

#[test]
fn verify_correct_and_wrong_password() {
    let mut db = Database::new();
    db.register(s("alice"), "pw1", FAST_COST, 5).unwrap();
    db.register(s("bob"), "pw2", FAST_COST, 6).unwrap();
    let ok = db.verify("bob", "pw2").unwrap().unwrap();
    assert_eq!(ok.id, 2);
    assert_eq!(ok.username, "bob");
    assert_eq!(ok.created_at, 6);
    assert!(db.verify("bob", "pw1").unwrap().is_none());
    assert!(db.verify("alice", "").unwrap().is_none());
    assert!(db.verify("carol", "pw1").unwrap().is_none());
}

#[test]
fn verify_malformed_hash_is_hashing_error() {
    let mut db = Database::new();
    db.users.push(User { id: 1, username: s("eve"), password_hash: s("not-a-hash"), created_at: 0 });
    assert!(matches!(db.verify("eve", "x"), Err(AppError::HashingError(_))));
    let mut sessions = SessionRegistry::new();
    let r = post_login(&db, &mut sessions, UserLogin { username: s("eve"), password: s("x") });
    assert!(matches!(r, Err(AppError::HashingError(_))));
}

#[test]
fn login_failures_are_unauthorized() {
    let mut db = Database::new();
    db.register(s("alice"), "pw1", FAST_COST, 0).unwrap();
    let mut sessions = SessionRegistry::new();
    let wrong = post_login(&db, &mut sessions, UserLogin { username: s("alice"), password: s("bad") });
    assert!(matches!(wrong, Err(AppError::Unauthorized)));
    let unknown = post_login(&db, &mut sessions, UserLogin { username: s("zed"), password: s("pw1") });
    assert!(matches!(unknown, Err(AppError::Unauthorized)));
}

#[test]
fn session_round_trip() {
    let mut sessions = SessionRegistry::new();
    let t = sessions.create_session(7).unwrap();
    assert_eq!(sessions.resolve(t), Some(7));
    let t2 = sessions.create_session(8).unwrap();
    assert_ne!(t, t2);
    sessions.destroy(t);
    assert_eq!(sessions.resolve(t), None);
    assert_eq!(sessions.resolve(t2), Some(8));
}

#[test]
fn destroying_unknown_token_is_noop() {
    let mut sessions = SessionRegistry::new();
    sessions.insert_session(42, 3);
    sessions.destroy(41);
    sessions.destroy(41);
    assert_eq!(sessions.resolve(42), Some(3));
    assert_eq!(sessions.resolve(41), None);
}

#[test]
fn session_user_requires_live_token() {
    let mut sessions = SessionRegistry::new();
    sessions.insert_session(5, 9);
    assert_eq!(session_user(&sessions, Some(5)).unwrap(), 9);
    assert!(matches!(session_user(&sessions, Some(6)), Err(AppError::Unauthorized)));
    assert!(matches!(session_user(&sessions, None), Err(AppError::Unauthorized)));
    logout_user(&mut sessions, Some(5));
    assert!(matches!(session_user(&sessions, Some(5)), Err(AppError::Unauthorized)));
    logout_user(&mut sessions, None);
}

#[test]
fn import_twice_reuses_list() {
    let mut db = Database::new();
    let a = import_csv(&mut db, 1, s("N"), s("es"), s("en"), b"t,s\nuno,one\ndos,two\n", 100).unwrap();
    let b = import_csv(&mut db, 1, s("N"), s("fr"), s("de"), b"t,s\ntres,three\n", 200).unwrap();
    assert_eq!(a, b);
    assert_eq!(db.phrase_lists.len(), 1);
    assert_eq!(db.phrase_lists[0].target_lang, "es");
    assert_eq!(db.phrase_lists[0].created_at, 100);
    let phrases = Phrase::find_by_list_id(&db, a);
    let texts: Vec<(String, String)> =
        phrases.iter().map(|p| (p.target_lang_text.clone(), p.source_lang_text.clone())).collect();
    assert_eq!(texts, vec![(s("uno"), s("one")), (s("dos"), s("two")), (s("tres"), s("three"))]);
    assert_eq!(phrases.iter().map(|p| p.id).collect::<Vec<i32>>(), vec![1, 2, 3]);
}

#[test]
fn import_same_name_other_user_creates_second_list() {
    let mut db = Database::new();
    let a = import_csv(&mut db, 1, s("N"), s("es"), s("en"), b"t,s\nuno,one\n", 1).unwrap();
    let b = import_csv(&mut db, 2, s("N"), s("es"), s("en"), b"t,s\ndos,two\n", 2).unwrap();
    assert_ne!(a, b);
    assert_eq!(db.phrase_lists.len(), 2);
    assert_eq!(db.phrase_lists[1].user_id, 2);
    assert_eq!(Phrase::find_by_list_id(&db, a).len(), 1);
    assert_eq!(Phrase::find_by_list_id(&db, b)[0].target_lang_text, "dos");
}

#[test]
fn malformed_csv_imports_nothing() {
    let mut db = Database::new();
    let data = b"t,s\na,1\nb,2\nc,3\nd,4\n\xff,5\nf,6\ng,7\nh,8\ni,9\nj,10\n";
    let r = import_csv(&mut db, 1, s("N"), s("es"), s("en"), data, 1);
    assert!(matches!(r, Err(AppError::ParseError(_))));
    assert_eq!(db.phrase_lists.len(), 0);
    assert_eq!(db.phrases.len(), 0);
}

#[test]
fn malformed_csv_keeps_existing_list_unchanged() {
    let mut db = Database::new();
    import_csv(&mut db, 1, s("N"), s("es"), s("en"), b"t,s\nuno,one\n", 1).unwrap();
    let r = import_csv(&mut db, 1, s("N"), s("es"), s("en"), b"t,s\ndos,two\ntr\xffes,x\n", 2);
    assert!(matches!(r, Err(AppError::ParseError(_))));
    assert_eq!(db.phrase_lists.len(), 1);
    assert_eq!(db.phrases.len(), 1);
    assert_eq!(db.phrases[0].target_lang_text, "uno");
}

#[test]
fn invalid_utf8_csv_is_parse_error() {
    let mut db = Database::new();
    let r = import_csv(&mut db, 1, s("N"), s("es"), s("en"), b"t,s\n\xff\xfe,x\n", 1);
    assert!(matches!(r, Err(AppError::ParseError(_))));
    assert_eq!(db.phrases.len(), 0);
}

#[test]
fn missing_column_reads_as_empty() {
    let mut db = Database::new();
    let id = import_csv(&mut db, 1, s("N"), s("es"), s("en"), b"t\nhola\nadios\n", 1).unwrap();
    let phrases = Phrase::find_by_list_id(&db, id);
    assert_eq!(phrases.len(), 2);
    assert_eq!(phrases[0].target_lang_text, "hola");
    assert_eq!(phrases[0].source_lang_text, "");
}

#[test]
fn short_row_reads_missing_column_as_empty() {
    let mut db = Database::new();
    let id = import_csv(&mut db, 1, s("N"), s("es"), s("en"), b"t,s\nuno,one\ndos\n", 1).unwrap();
    let phrases = Phrase::find_by_list_id(&db, id);
    assert_eq!(phrases.len(), 2);
    assert_eq!(phrases[1].target_lang_text, "dos");
    assert_eq!(phrases[1].source_lang_text, "");
}

#[test]
fn list_time_stamps_never_go_back() {
    let mut db = Database::new();
    let a = PhraseListMetadata { user_id: 1, name: s("a"), target_lang: s(""), source_lang: s("") };
    let b = PhraseListMetadata { user_id: 1, name: s("b"), target_lang: s(""), source_lang: s("") };
    PhraseList::create(&mut db, a, 50).unwrap();
    PhraseList::create(&mut db, b, 40).unwrap();
    assert_eq!(db.phrase_lists[1].created_at, 50);
    let again = PhraseListMetadata { user_id: 1, name: s("a"), target_lang: s("x"), source_lang: s("y") };
    assert_eq!(PhraseList::create(&mut db, again, 60).unwrap(), 1);
    assert_eq!(db.phrase_lists.len(), 2);
    let names: Vec<String> = PhraseList::find_by_user_id(&db, 1).iter().map(|l| l.name.clone()).collect();
    assert_eq!(names, vec![s("b"), s("a")]);
}

#[test]
fn header_only_csv_creates_empty_list() {
    let mut db = Database::new();
    let id = import_csv(&mut db, 3, s("Empty"), s(""), s(""), b"t,s\n", 1).unwrap();
    assert_eq!(id, 1);
    assert_eq!(db.phrase_lists.len(), 1);
    assert!(Phrase::find_by_list_id(&db, id).is_empty());
}

#[test]
fn import_records_takes_columns_in_order() {
    let mut db = Database::new();
    let rows = vec![vec![s("a"), s("b"), s("c")], vec![], vec![s("x")]];
    let id = import_records(&mut db, 4, s("L"), s("es"), s("en"), &rows, 9).unwrap();
    let p = Phrase::find_by_list_id(&db, id);
    assert_eq!((p[0].target_lang_text.as_str(), p[0].source_lang_text.as_str()), ("a", "b"));
    assert_eq!((p[1].target_lang_text.as_str(), p[1].source_lang_text.as_str()), ("", ""));
    assert_eq!((p[2].target_lang_text.as_str(), p[2].source_lang_text.as_str()), ("x", ""));
}

#[test]
fn post_import_requires_session() {
    let mut db = Database::new();
    let sessions = SessionRegistry::new();
    let r = post_import(&mut db, &sessions, Some(1), s("N"), s("es"), s("en"), b"t,s\na,b\n", 1);
    assert!(matches!(r, Err(AppError::Unauthorized)));
    assert_eq!(db.phrase_lists.len(), 0);
}

#[test]
fn other_users_list_is_unauthorized() {
    let mut db = Database::new();
    let mut sessions = SessionRegistry::new();
    sessions.insert_session(100, 1);
    sessions.insert_session(200, 2);
    let id = post_import(&mut db, &sessions, Some(100), s("A"), s("es"), s("en"), b"t,s\nsecret,x\n", 1)
        .unwrap();
    let r = get_list(&db, &sessions, Some(200), id, None);
    assert!(matches!(r, Err(AppError::Unauthorized)));
    assert!(matches!(get_list(&db, &sessions, None, id, None), Err(AppError::Unauthorized)));
    assert!(matches!(get_list(&db, &sessions, Some(100), id + 1, None), Err(AppError::NotFound)));
    let page = get_list(&db, &sessions, Some(100), id, Some(s("quiz"))).unwrap();
    assert_eq!(page.display_mode, "quiz");
    assert_eq!(page.phrases[0].target_lang_text, "secret");
}

#[test]
fn my_page_lists_newest_first() {
    let mut db = Database::new();
    db.register(s("ann"), "pw", FAST_COST, 0).unwrap();
    db.register(s("ben"), "pw", FAST_COST, 0).unwrap();
    let mut sessions = SessionRegistry::new();
    sessions.insert_session(1, 1);
    for (i, (owner, name)) in [(1, "first"), (2, "other"), (1, "second")].iter().enumerate() {
        let meta = PhraseListMetadata { user_id: *owner, name: s(name), target_lang: s("es"), source_lang: s("en") };
        PhraseList::create(&mut db, meta, i as i64).unwrap();
    }
    let page = my_page(&db, &sessions, Some(1)).unwrap();
    assert_eq!(page.username, "ann");
    let names: Vec<&str> = page.phrase_lists.iter().map(|l| l.name.as_str()).collect();
    assert_eq!(names, vec!["second", "first"]);
    assert!(matches!(my_page(&db, &sessions, Some(2)), Err(AppError::Unauthorized)));
    sessions.insert_session(3, 99);
    assert!(matches!(my_page(&db, &sessions, Some(3)), Err(AppError::NotFound)));
}

#[test]
fn find_helpers() {
    let mut db = Database::new();
    db.register(s("ann"), "pw", FAST_COST, 3).unwrap();
    assert_eq!(User::find_by_id(&db, 1).unwrap().username, "ann");
    assert!(matches!(User::find_by_id(&db, 0), Err(AppError::NotFound)));
    assert!(matches!(User::find_by_id(&db, 2), Err(AppError::NotFound)));
    let meta = PhraseListMetadata { user_id: 1, name: s("L"), target_lang: s("es"), source_lang: s("en") };
    let id = PhraseList::create(&mut db, meta, 5).unwrap();
    assert_eq!(PhraseList::find_by_id(&db, id).unwrap().source_lang, "en");
    assert!(matches!(PhraseList::find_by_id(&db, -1), Err(AppError::NotFound)));
    assert_eq!(PhraseList::find_by_name_and_user_id(&db, "L", 1).unwrap().id, id);
    assert!(PhraseList::find_by_name_and_user_id(&db, "L", 2).is_none());
    assert!(PhraseList::find_by_name_and_user_id(&db, "l", 1).is_none());
    let pid = Phrase::create(
        &mut db,
        Phrase { id: 77, list_id: id, target_lang_text: s("a"), source_lang_text: s("b") },
    )
    .unwrap();
    assert_eq!(pid, 1);
    assert_eq!(db.phrases[0].id, 1);
}

#[test]
fn error_status_codes() {
    assert_eq!(AppError::StorageError(s("x")).status_code(), 500);
    assert_eq!(AppError::UploadError(s("x")).status_code(), 400);
    assert_eq!(AppError::DuplicateUsername.status_code(), 400);
    assert_eq!(AppError::Unauthorized.status_code(), 401);
    assert_eq!(AppError::NotFound.status_code(), 404);
    let bad = bcrypt::verify("x", "nope").unwrap_err();
    assert_eq!(AppError::HashingError(bad).status_code(), 500);
    let mut db = Database::new();
    let e = import_csv(&mut db, 1, s("N"), s(""), s(""), b"a,b\n\xfe,c\n", 0).unwrap_err();
    assert_eq!(e.status_code(), 400);
}

#[test]
fn end_to_end_example() {
    let mut db = Database::new();
    let mut sessions = SessionRegistry::new();
    db.register(s("alice"), "pw1", FAST_COST, 1).unwrap();
    let token = login(&db, &mut sessions, "alice", "pw1");
    let data = b"target,source\nhola,hello\nadios,goodbye\n";
    let id = post_import(&mut db, &sessions, Some(token), s("Basics"), s("es"), s("en"), data, 2).unwrap();
    let page = my_page(&db, &sessions, Some(token)).unwrap();
    assert_eq!(page.username, "alice");
    assert_eq!(page.phrase_lists.len(), 1);
    assert_eq!(page.phrase_lists[0].name, "Basics");
    assert_eq!(page.phrase_lists[0].source_lang, "en");
    assert_eq!(page.phrase_lists[0].target_lang, "es");
    let list = get_list(&db, &sessions, Some(token), id, None).unwrap();
    assert_eq!(list.display_mode, "all");
    assert_eq!(list.list.name, "Basics");
    let pairs: Vec<(&str, &str)> = list
        .phrases
        .iter()
        .map(|p| (p.target_lang_text.as_str(), p.source_lang_text.as_str()))
        .collect();
    assert_eq!(pairs, vec![("hola", "hello"), ("adios", "goodbye")]);
    logout_user(&mut sessions, Some(token));
    assert!(matches!(my_page(&db, &sessions, Some(token)), Err(AppError::Unauthorized)));
}

#[test]
fn default_cost_is_bcrypt_default() {
    assert_eq!(DEFAULT_COST, bcrypt::DEFAULT_COST);
}
