use vstd::prelude::*;
use crate::errors::AppError;
use crate::models::{
    first_named_at, has_named, is_named, lemma_phrases_of_all, lemma_phrases_of_append,
    next_created_at, phrases_of, Database, Phrase, PhraseList, PhraseListMetadata,
};

verus! {

/// The fields of each row, as text.
pub open spec fn rows_view(rows: Seq<Vec<String>>) -> Seq<Seq<Seq<char>>> {
    Seq::new(rows.len(), |i: int| Seq::new(rows[i]@.len(), |j: int| rows[i]@[j]@))
}

/// What the csv crate reads from `data`, taking its first line as a header and
/// letting records differ in length:
/// the fields of each data record, or `None` where the data is malformed.
pub uninterp spec fn csv_records(data: Seq<u8>) -> Option<Seq<Seq<Seq<char>>>>;

/// Relies on csv::ReaderBuilder::has_headers(true), flexible(true) and
/// Reader::records: the records after the header line, each as its fields
/// (records may differ in length); the first bad record ends the read with
/// its error.
#[verifier::external_body]
fn read_csv_records(data: &[u8]) -> (r: Result<Vec<Vec<String>>, csv::Error>)
    ensures
        match r {
            Ok(rows) => csv_records(data@) == Some(rows_view(rows@)),
            Err(_) => csv_records(data@) is None,
        },
{
    let mut reader = csv::ReaderBuilder::new().has_headers(true).flexible(true).from_reader(data);
    reader.records().map(|rec| rec.map(|fields| fields.iter().map(|f| f.to_string()).collect()))
        .collect()
}

/// Column `k` of a row; a missing column reads as empty text.
pub open spec fn cell(row: Seq<Seq<char>>, k: int) -> Seq<char> {
    if 0 <= k < row.len() {
        row[k]
    } else {
        Seq::empty()
    }
}

/// `p` is the phrase stored, under identity `id`, for `row` of list `list_id`.
pub open spec fn phrase_from_row(p: Phrase, id: int, list_id: i32, row: Seq<Seq<char>>) -> bool {
    &&& p.id == id
    &&& p.list_id == list_id
    &&& p.target_lang_text@ == cell(row, 0)
    &&& p.source_lang_text@ == cell(row, 1)
}

/// `post` is `pre` after importing `rows` into list `name` of `user_id`, which
/// ended up under identity `list_id`: the first list of that name and owner is
/// reused, or else a new one is created; then one phrase per row is appended,
/// in the order of the rows.
pub open spec fn imported(
    pre: Database,
    post: Database,
    user_id: i32,
    name: Seq<char>,
    target_lang: Seq<char>,
    source_lang: Seq<char>,
    created_at: i64,
    rows: Seq<Seq<Seq<char>>>,
    list_id: i32,
) -> bool {
    let base = pre.phrases@.len();
    &&& post.users == pre.users
    &&& has_named(pre.phrase_lists@, name, user_id) ==> {
        &&& post.phrase_lists == pre.phrase_lists
        &&& exists|k: int|
            #[trigger] first_named_at(pre.phrase_lists@, name, user_id, k) && list_id
                == pre.phrase_lists@[k].id
    }
    &&& !has_named(pre.phrase_lists@, name, user_id) ==> {
        let l = post.phrase_lists@.last();
        &&& list_id == pre.phrase_lists@.len() + 1
        &&& post.phrase_lists@.len() == pre.phrase_lists@.len() + 1
        &&& post.phrase_lists@.drop_last() == pre.phrase_lists@
        &&& l.id == list_id
        &&& l.user_id == user_id
        &&& l.name@ == name
        &&& l.target_lang@ == target_lang
        &&& l.source_lang@ == source_lang
        &&& l.created_at == next_created_at(pre.phrase_lists@, created_at)
    }
    &&& post.phrases@.len() == base + rows.len()
    &&& post.phrases@.subrange(0, base as int) == pre.phrases@
    &&& forall|i: int|
        0 <= i < rows.len() ==> phrase_from_row(
            #[trigger] post.phrases@[base + i],
            base + i + 1,
            list_id,
            rows[i],
        )
}

/// Whether the tables have room for the identities that importing `n_rows`
/// rows into list `name` of `user_id` hands out.
pub open spec fn import_fits(db: Database, name: Seq<char>, user_id: i32, n_rows: int) -> bool {
    &&& db.phrases@.len() + n_rows <= i32::MAX
    &&& !has_named(db.phrase_lists@, name, user_id) ==> db.phrase_lists@.len() < i32::MAX
}

/// Column `k` of `row`, or empty text where the row is shorter.
fn cell_text(row: &Vec<String>, k: usize) -> (r: String)
    ensures
        r@ == cell(Seq::new(row@.len(), |j: int| row@[j]@), k as int),
{
    if k < row.len() {
        row[k].clone()
    } else {
        String::new()
    }
}

/// Imports already parsed CSV records: reuses the list of this name and owner,
/// or creates it, and appends one phrase per record, all or nothing. Fails with
/// `StorageError`, changing nothing, only where the tables have run out of
/// identities.
pub fn import_records(
    db: &mut Database,
    user_id: i32,
    name: String,
    target_lang: String,
    source_lang: String,
    rows: &Vec<Vec<String>>,
    created_at: i64,
) -> (r: Result<i32, AppError>)
    requires
        old(db).wf(),
    ensures
        final(db).wf(),
        match r {
            Ok(list_id) => imported(
                *old(db),
                *final(db),
                user_id,
                name@,
                target_lang@,
                source_lang@,
                created_at,
                rows_view(rows@),
                list_id,
            ),
            Err(e) => e is StorageError && *final(db) == *old(db),
        },
        r is Ok <==> import_fits(*old(db), name@, user_id, rows@.len() as int),
{
    let ghost pre = *db;
    let found = PhraseList::find_by_name_and_user_id(db, name.as_str(), user_id);
    if db.phrases.len() > i32::MAX as usize || rows.len() > i32::MAX as usize - db.phrases.len() {
        return Err(crate::models::identities_exhausted());
    }
    if found.is_none() && db.phrase_lists.len() >= i32::MAX as usize {
        return Err(crate::models::identities_exhausted());
    }
    let ghost found_g = found;
    let ghost name_g = name@;
    let list_id = match found {
        Some(existing) => existing.id,
        None => {
            let metadata = PhraseListMetadata { user_id, name, target_lang, source_lang };
            match PhraseList::create(db, metadata, created_at) {
                Ok(id) => id,
                Err(e) => return Err(e),
            }
        },
    };
    proof {
        if let Some(existing) = found_g {
            let j = choose|j: int|
                first_named_at(pre.phrase_lists@, name_g, user_id, j) && existing
                    == #[trigger] pre.phrase_lists@[j];
            assert(first_named_at(pre.phrase_lists@, name_g, user_id, j) && list_id
                == pre.phrase_lists@[j].id);
        } else {
            assert(db.phrase_lists@.drop_last() =~= pre.phrase_lists@);
        }
    }
    let ghost lists = db.phrase_lists;
    let base = db.phrases.len();
    let mut i: usize = 0;
    while i < rows.len()
        invariant
            db.wf(),
            db.users == pre.users,
            db.phrase_lists == lists,
            base == pre.phrases@.len(),
            base + rows@.len() <= i32::MAX,
            i <= rows@.len(),
            db.phrases@.len() == base + i,
            db.phrases@.subrange(0, base as int) == pre.phrases@,
            forall|k: int|
                0 <= k < i ==> phrase_from_row(
                    #[trigger] db.phrases@[base + k],
                    base + k + 1,
                    list_id,
                    rows_view(rows@)[k],
                ),
        decreases rows@.len() - i,
    {
        let phrase = Phrase {
            id: 0,
            list_id,
            target_lang_text: cell_text(&rows[i], 0),
            source_lang_text: cell_text(&rows[i], 1),
        };
        let ghost before = db.phrases@;
        let _ = Phrase::create(db, phrase);
        proof {
            assert(db.phrases@ == before.push(db.phrases@.last()));
            assert(db.phrases@.subrange(0, base as int) =~= before.subrange(0, base as int));
            assert forall|k: int| 0 <= k < i + 1 implies phrase_from_row(
                #[trigger] db.phrases@[base + k],
                base + k + 1,
                list_id,
                rows_view(rows@)[k],
            ) by {
                if k < i {
                    assert(db.phrases@[base + k] == before[base + k]);
                }
            }
        }
        i += 1;
    }
    Ok(list_id)
}

/// The import pipeline: parses `data` as CSV with a header line and imports its
/// records into list `name` of `user_id`, all or nothing. Malformed CSV fails
/// with `ParseError` and changes nothing.
pub fn import_csv(
    db: &mut Database,
    user_id: i32,
    name: String,
    target_lang: String,
    source_lang: String,
    data: &[u8],
    created_at: i64,
) -> (r: Result<i32, AppError>)
    requires
        old(db).wf(),
    ensures
        final(db).wf(),
        r is Err ==> *final(db) == *old(db),
        csv_records(data@) is None ==> r is Err && r->Err_0 is ParseError,
        csv_records(data@) matches Some(rows) ==> match r {
            Ok(list_id) => imported(
                *old(db),
                *final(db),
                user_id,
                name@,
                target_lang@,
                source_lang@,
                created_at,
                rows,
                list_id,
            ),
            Err(e) => e is StorageError && !import_fits(*old(db), name@, user_id, rows.len() as int),
        },
{
    match read_csv_records(data) {
        Ok(rows) => import_records(db, user_id, name, target_lang, source_lang, &rows, created_at),
        Err(e) => Err(AppError::ParseError(e)),
    }
}

/// Importing into list `name` of `user_id` twice: both imports land in the
/// same list, which is then the only list of that name and owner, and the
/// phrases of that list are the ones it had before followed by those of the
/// first import and then those of the second, each in file order.
pub proof fn lemma_import_twice_one_list(
    db0: Database,
    db1: Database,
    db2: Database,
    user_id: i32,
    name: Seq<char>,
    target_lang1: Seq<char>,
    source_lang1: Seq<char>,
    target_lang2: Seq<char>,
    source_lang2: Seq<char>,
    created_at1: i64,
    created_at2: i64,
    rows1: Seq<Seq<Seq<char>>>,
    rows2: Seq<Seq<Seq<char>>>,
    id1: i32,
    id2: i32,
)
    requires
        db0.wf(),
        db1.wf(),
        db2.wf(),
        imported(db0, db1, user_id, name, target_lang1, source_lang1, created_at1, rows1, id1),
        imported(db1, db2, user_id, name, target_lang2, source_lang2, created_at2, rows2, id2),
    ensures
        id2 == id1,
        db2.phrase_lists == db1.phrase_lists,
        1 <= id1 <= db2.phrase_lists@.len(),
        forall|k: int|
            0 <= k < db2.phrase_lists@.len() ==> (is_named(
                #[trigger] db2.phrase_lists@[k],
                name,
                user_id,
            ) <==> db2.phrase_lists@[k].id == id1),
        db2.phrases@.len() == db0.phrases@.len() + rows1.len() + rows2.len(),
        phrases_of(db2.phrases@, id1) == phrases_of(db0.phrases@, id1) + db2.phrases@.subrange(
            db0.phrases@.len() as int,
            db2.phrases@.len() as int,
        ),
        forall|i: int|
            0 <= i < rows1.len() ==> phrase_from_row(
                #[trigger] db2.phrases@[db0.phrases@.len() + i],
                db0.phrases@.len() + i + 1,
                id1,
                rows1[i],
            ),
        forall|i: int|
            0 <= i < rows2.len() ==> phrase_from_row(
                #[trigger] db2.phrases@[db0.phrases@.len() + rows1.len() + i],
                db0.phrases@.len() + rows1.len() + i + 1,
                id1,
                rows2[i],
            ),
{
    let n = db0.phrase_lists@.len() as int;
    let base0 = db0.phrases@.len() as int;
    let base1 = db1.phrases@.len() as int;
    let base2 = db2.phrases@.len() as int;
    let l1 = db1.phrase_lists@;
    // The list of the first import is a named row of db1 at index id1 - 1.
    if has_named(db0.phrase_lists@, name, user_id) {
        let k = choose|k: int|
            #[trigger] first_named_at(db0.phrase_lists@, name, user_id, k) && id1
                == db0.phrase_lists@[k].id;
        assert(is_named(l1[k], name, user_id) && l1[k].id == k + 1);
    } else {
        assert(l1[n] == l1.last());
    }
    let m = id1 - 1;
    assert(0 <= m < l1.len() && is_named(l1[m], name, user_id));
    // The second import finds that same row.
    assert(has_named(l1, name, user_id));
    let k2 = choose|k: int| #[trigger] first_named_at(l1, name, user_id, k) && id2 == l1[k].id;
    if k2 != m {
        assert(l1[k2].name@ != l1[m].name@);
    }
    assert forall|k: int| 0 <= k < db2.phrase_lists@.len() implies (is_named(
        #[trigger] db2.phrase_lists@[k],
        name,
        user_id,
    ) <==> db2.phrase_lists@[k].id == id1) by {
        if k != m && is_named(l1[k], name, user_id) {
            assert(l1[k].name@ != l1[m].name@);
        }
    }
    assert forall|i: int| 0 <= i < rows1.len() implies phrase_from_row(
        #[trigger] db2.phrases@[base0 + i],
        base0 + i + 1,
        id1,
        rows1[i],
    ) by {
        assert(db2.phrases@[base0 + i] == db2.phrases@.subrange(0, base1)[base0 + i]);
    }
    assert(db2.phrases@.subrange(0, base0) =~= db2.phrases@.subrange(0, base1).subrange(0, base0));
    assert(db1.phrases@.subrange(0, base0) =~= db0.phrases@);
    let block = db2.phrases@.subrange(base0, base2);
    assert(db2.phrases@ =~= db0.phrases@ + block);
    assert forall|i: int| 0 <= i < block.len() implies (#[trigger] block[i]).list_id == id1 by {
        if i < rows1.len() {
            assert(block[i] == db2.phrases@[base0 + i]);
        } else {
            let q = i - rows1.len();
            assert(block[i] == db2.phrases@[base0 + rows1.len() + q]);
        }
    }
    lemma_phrases_of_append(db0.phrases@, block, id1);
    lemma_phrases_of_all(block, id1);
}

/// Importing a name for another user never reuses a list owned by someone else.
pub proof fn lemma_import_other_owner_distinct(
    db: Database,
    post: Database,
    user_id: i32,
    name: Seq<char>,
    target_lang: Seq<char>,
    source_lang: Seq<char>,
    created_at: i64,
    rows: Seq<Seq<Seq<char>>>,
    list_id: i32,
    k: int,
)
    requires
        db.wf(),
        0 <= k < db.phrase_lists@.len(),
        db.phrase_lists@[k].user_id != user_id,
        imported(db, post, user_id, name, target_lang, source_lang, created_at, rows, list_id),
    ensures
        list_id != db.phrase_lists@[k].id,
{
    if has_named(db.phrase_lists@, name, user_id) {
        let f = choose|f: int|
            #[trigger] first_named_at(db.phrase_lists@, name, user_id, f) && list_id
                == db.phrase_lists@[f].id;
        assert(f != k);
    }
}

} // verus!
