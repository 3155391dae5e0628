use cstfs::index::{
    check_insert, check_inserted_rows, check_matched_paths, check_updated_rows, ContentIndex, Error,
};

fn s(x: &str) -> String {
    x.to_string()
}

#[test]
fn insert_then_scan_keeps_insertion_order() {
    let mut idx = ContentIndex::new();
    assert_eq!(idx.insert(&s("a.jpg"), &s("h1")), Ok(()));
    assert_eq!(idx.insert(&s("b.jpg"), &s("h2")), Ok(()));
    assert_eq!(idx.scan_all(), vec![(s("a.jpg"), s("h1")), (s("b.jpg"), s("h2"))]);
    assert_eq!(idx.path_for_hash(&s("h2")), Some(s("b.jpg")));
    assert_eq!(idx.path_for_hash(&s("h3")), None);
}

#[test]
fn second_insert_of_a_hash_is_a_duplicate() {
    let mut idx = ContentIndex::new();
    idx.insert(&s("a.jpg"), &s("h1")).unwrap();
    let r = idx.insert(&s("copy.jpg"), &s("h1"));
    assert_eq!(r, Err(Error::DuplicateInsertion { path_new: s("copy.jpg"), path_old: s("a.jpg") }));
    assert_eq!(idx.scan_all(), vec![(s("a.jpg"), s("h1"))]);
}

#[test]
fn rebind_moves_the_single_entry() {
    let mut idx = ContentIndex::new();
    idx.insert(&s("p1"), &s("h")).unwrap();
    idx.insert(&s("q"), &s("k")).unwrap();
    assert_eq!(idx.rebind_path(&s("p2"), &s("h")), Ok(()));
    assert_eq!(idx.scan_all(), vec![(s("p2"), s("h")), (s("q"), s("k"))]);
}

#[test]
fn rebind_of_unknown_hash_fails() {
    let mut idx = ContentIndex::new();
    idx.insert(&s("p1"), &s("h")).unwrap();
    assert_eq!(idx.rebind_path(&s("p2"), &s("nope")), Err(Error::HashDoesNotExist(s("nope"))));
    assert_eq!(idx.scan_all(), vec![(s("p1"), s("h"))]);
}

#[test]
fn insert_check_reports_the_stored_path() {
    assert_eq!(check_insert(None, &s("n")), Ok(()));
    assert_eq!(
        check_insert(Some(s("o")), &s("n")),
        Err(Error::DuplicateInsertion { path_new: s("n"), path_old: s("o") })
    );
}

#[test]
fn inserted_rows_must_be_one() {
    assert_eq!(check_inserted_rows(1, &s("p"), &s("h")), Ok(()));
    assert_eq!(
        check_inserted_rows(2, &s("p"), &s("h")),
        Err(Error::Unknown(s("More than one row was updated on insert: path=p, hash=h")))
    );
}

#[test]
fn matched_paths_decide_rebinding() {
    assert_eq!(check_matched_paths(vec![], &s("h")), Err(Error::HashDoesNotExist(s("h"))));
    assert_eq!(check_matched_paths(vec![s("a")], &s("h")), Ok(()));
    assert_eq!(
        check_matched_paths(vec![s("a"), s("b")], &s("h")),
        Err(Error::DuplicatePaths(vec![s("a"), s("b")]))
    );
}

#[test]
fn updated_rows_must_be_one() {
    let msg = s("updating a hash path should update a single row");
    assert_eq!(check_updated_rows(1), Ok(()));
    assert_eq!(
        check_updated_rows(0),
        Err(Error::TooFewRowsAffected { count: 0, min_rows: 1, max_rows: 1, msg: msg.clone() })
    );
    assert_eq!(
        check_updated_rows(3),
        Err(Error::TooManyRowsAffected { count: 3, min_rows: 1, max_rows: 1, msg })
    );
}

#[test]
fn remove_drops_only_the_entry_of_the_hash() {
    let mut idx = ContentIndex::new();
    idx.insert(&s("a"), &s("h1")).unwrap();
    idx.insert(&s("b"), &s("h2")).unwrap();
    idx.insert(&s("c"), &s("h3")).unwrap();
    assert_eq!(idx.remove(&s("h2")), Some(s("b")));
    assert_eq!(idx.remove(&s("h2")), None);
    assert_eq!(idx.scan_all(), vec![(s("a"), s("h1")), (s("c"), s("h3"))]);
    assert_eq!(idx.insert(&s("b2"), &s("h2")), Ok(()));
}
