use cstfs::diff::{coalesce_diffs, remove_indeces, Diff, DiffType};
use cstfs::refresh::{elementary_diffs, generate_diffs};

fn pairs(v: &[(&str, &str)]) -> Vec<(String, String)> {
    v.iter().map(|(p, h)| (p.to_string(), h.to_string())).collect()
}

fn diff(path: &str, hash: &str, ty: DiffType) -> Diff {
    Diff { path: path.to_string(), hash: hash.to_string(), ty }
}

#[test]
fn moved_file_is_reported_once() {
    let db = pairs(&[("a.jpg", "h1"), ("b.jpg", "h2")]);
    let live = pairs(&[("b.jpg", "h2"), ("c.jpg", "h1")]);
    let diffs = generate_diffs(&live, &db);
    assert_eq!(
        diffs,
        vec![diff("c.jpg", "h1", DiffType::Moved { orig_path: "a.jpg".to_string() })]
    );
}

#[test]
fn copied_file_is_a_duplicate() {
    let db = pairs(&[("a.jpg", "h1"), ("b.jpg", "h2")]);
    let live = pairs(&[("a.jpg", "h1"), ("b.jpg", "h2"), ("d.jpg", "h1")]);
    let diffs = generate_diffs(&live, &db);
    assert_eq!(
        diffs,
        vec![diff("d.jpg", "h1", DiffType::Duplicate { orig_path: "a.jpg".to_string() })]
    );
}

#[test]
fn elementary_records_partition_the_tree() {
    let db = pairs(&[("same.png", "h1"), ("edit.png", "h2"), ("gone.png", "h3")]);
    let live = pairs(&[("same.png", "h1"), ("edit.png", "h9"), ("fresh.png", "h4")]);
    let diffs = elementary_diffs(&live, &db);
    assert_eq!(
        diffs,
        vec![
            diff("edit.png", "h9", DiffType::Changed { prev_hash: "h2".to_string() }),
            diff("fresh.png", "h4", DiffType::New),
            diff("gone.png", "h3", DiffType::Removed),
        ]
    );
}

#[test]
fn unrelated_new_and_removed_stay_apart() {
    let db = pairs(&[("old.mp3", "h1")]);
    let live = pairs(&[("new.mp3", "h2")]);
    let diffs = generate_diffs(&live, &db);
    assert_eq!(
        diffs,
        vec![diff("new.mp3", "h2", DiffType::New), diff("old.mp3", "h1", DiffType::Removed)]
    );
}

#[test]
fn empty_tree_and_index_give_no_diff() {
    let diffs = generate_diffs(&Vec::new(), &Vec::new());
    assert!(diffs.is_empty());
}

#[test]
fn coalescing_pairs_new_with_removed() {
    let db = pairs(&[("pA", "h")]);
    let mut diffs = vec![diff("x", "k", DiffType::Changed { prev_hash: "j".to_string() }),
        diff("pB", "h", DiffType::New), diff("pA", "h", DiffType::Removed)];
    coalesce_diffs(&mut diffs, &db);
    assert_eq!(
        diffs,
        vec![
            diff("x", "k", DiffType::Changed { prev_hash: "j".to_string() }),
            diff("pB", "h", DiffType::Moved { orig_path: "pA".to_string() }),
        ]
    );
}

#[test]
fn coalescing_twice_changes_nothing() {
    let db = pairs(&[("a", "h1"), ("b", "h2"), ("c", "h3")]);
    let live = pairs(&[("a", "h1"), ("d", "h1"), ("e", "h2"), ("f", "h4")]);
    let once = generate_diffs(&live, &db);
    let mut twice = once.clone();
    coalesce_diffs(&mut twice, &db);
    assert_eq!(once, twice);
    assert_eq!(
        once,
        vec![
            diff("f", "h4", DiffType::New),
            diff("c", "h3", DiffType::Removed),
            diff("d", "h1", DiffType::Duplicate { orig_path: "a".to_string() }),
            diff("e", "h2", DiffType::Moved { orig_path: "b".to_string() }),
        ]
    );
}

#[test]
fn coalescing_never_grows_the_record_count() {
    let db = pairs(&[("a", "h1"), ("b", "h2")]);
    let mut diffs = vec![
        diff("n1", "h1", DiffType::New),
        diff("n2", "h1", DiffType::New),
        diff("a", "h1", DiffType::Removed),
        diff("n3", "h2", DiffType::New),
    ];
    let before = diffs.len();
    coalesce_diffs(&mut diffs, &db);
    assert!(diffs.len() <= before);
    assert_eq!(
        diffs,
        vec![
            diff("n1", "h1", DiffType::Moved { orig_path: "a".to_string() }),
            diff("n2", "h1", DiffType::Duplicate { orig_path: "a".to_string() }),
            diff("n3", "h2", DiffType::Duplicate { orig_path: "b".to_string() }),
        ]
    );
}

#[test]
fn remove_indeces_keeps_order_and_ignores_out_of_range() {
    let mut v = vec![10, 11, 12, 13, 14];
    remove_indeces(&mut v, &[3, 0, 9, 3]);
    assert_eq!(v, vec![11, 12, 14]);
    let mut w: Vec<u8> = vec![];
    remove_indeces(&mut w, &[0]);
    assert!(w.is_empty());
}
