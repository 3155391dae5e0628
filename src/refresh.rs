//! Comparison of a live scan of the tree with the persisted snapshot.
use vstd::prelude::*;
use crate::diff::{coalesce_diffs, coalesced, snap, views, Diff, DiffType, DiffV, KindV, Snapshot};

verus! {

/// The hash that the first entry at or after `k` of `s` records for `path`.
pub open spec fn hash_of_path(s: Snapshot, path: Seq<char>, k: nat) -> Option<Seq<char>>
    decreases s.len() - k,
{
    if k >= s.len() {
        None
    } else if s[k as int].0 == path {
        Some(s[k as int].1)
    } else {
        hash_of_path(s, path, k + 1)
    }
}

/// What a live file yields: `New` when the snapshot lacks its path, `Changed`
/// when the snapshot records another hash for it, nothing otherwise.
pub open spec fn live_record(e: (Seq<char>, Seq<char>), s: Snapshot) -> Seq<DiffV> {
    match hash_of_path(s, e.0, 0) {
        None => seq![DiffV { path: e.0, hash: e.1, kind: KindV::New }],
        Some(h) => if h != e.1 {
            seq![DiffV { path: e.0, hash: e.1, kind: KindV::Changed { prev_hash: h } }]
        } else {
            seq![]
        },
    }
}

pub open spec fn live_pass(live: Snapshot, s: Snapshot) -> Seq<DiffV>
    decreases live.len(),
{
    if live.len() == 0 {
        seq![]
    } else {
        live_pass(live.drop_last(), s) + live_record(live.last(), s)
    }
}

pub open spec fn has_path(live: Snapshot, path: Seq<char>) -> bool {
    exists|i: int| 0 <= i < live.len() && live[i].0 == path
}

/// What a persisted entry yields: `Removed` when its path is not live.
pub open spec fn persisted_record(e: (Seq<char>, Seq<char>), live: Snapshot) -> Seq<DiffV> {
    if has_path(live, e.0) {
        seq![]
    } else {
        seq![DiffV { path: e.0, hash: e.1, kind: KindV::Removed }]
    }
}

pub open spec fn removed_pass(s: Snapshot, live: Snapshot) -> Seq<DiffV>
    decreases s.len(),
{
    if s.len() == 0 {
        seq![]
    } else {
        removed_pass(s.drop_last(), live) + persisted_record(s.last(), live)
    }
}

/// The elementary diff of a live tree against a snapshot: the records of the
/// live files in order, then those of the persisted entries in order.
pub open spec fn elementary(live: Snapshot, s: Snapshot) -> Seq<DiffV> {
    live_pass(live, s) + removed_pass(s, live)
}

fn find_hash_of_path(db: &Vec<(String, String)>, path: &String) -> (r: Option<String>)
    ensures
        r matches Some(h) ==> hash_of_path(snap(db@), path@, 0) == Some(h@),
        r is None ==> hash_of_path(snap(db@), path@, 0) is None,
{
    let ghost s = snap(db@);
    let mut k: usize = 0;
    while k < db.len()
        invariant
            s == snap(db@),
            k <= db.len(),
            hash_of_path(s, path@, 0) == hash_of_path(s, path@, k as nat),
        decreases db.len() - k,
    {
        if db[k].0 == *path {
            return Some(db[k].1.clone());
        }
        k = k + 1;
    }
    None
}

fn is_live(live: &Vec<(String, String)>, path: &String) -> (r: bool)
    ensures
        r == has_path(snap(live@), path@),
{
    let ghost l = snap(live@);
    let mut k: usize = 0;
    while k < live.len()
        invariant
            l == snap(live@),
            k <= live.len(),
            forall|i: int| 0 <= i < k ==> l[i].0 != path@,
        decreases live.len() - k,
    {
        if live[k].0 == *path {
            assert(l[k as int].0 == path@);
            return true;
        }
        k = k + 1;
    }
    false
}

/// The records of `ds` about `path`, in order.
pub open spec fn records_for(ds: Seq<DiffV>, path: Seq<char>) -> Seq<DiffV>
    decreases ds.len(),
{
    if ds.len() == 0 {
        seq![]
    } else {
        records_for(ds.drop_last(), path) + if ds.last().path == path {
            seq![ds.last()]
        } else {
            seq![]
        }
    }
}

/// No two entries share a path.
pub open spec fn unique_paths(s: Snapshot) -> bool {
    forall|i: int, j: int| 0 <= i < s.len() && 0 <= j < s.len() && i != j ==> s[i].0 != s[j].0
}

proof fn lemma_records_for_add(a: Seq<DiffV>, b: Seq<DiffV>, path: Seq<char>)
    ensures
        records_for(a + b, path) == records_for(a, path) + records_for(b, path),
    decreases b.len(),
{
    if b.len() == 0 {
        assert(a + b =~= a);
        assert(records_for(a, path) + records_for(b, path) =~= records_for(a, path));
    } else {
        lemma_records_for_add(a, b.drop_last(), path);
        assert((a + b).drop_last() =~= a + b.drop_last());
        assert((a + b).last() == b.last());
        let tail = if b.last().path == path {
            seq![b.last()]
        } else {
            seq![]
        };
        assert(records_for(a, path) + records_for(b.drop_last(), path) + tail =~= records_for(a, path)
            + (records_for(b.drop_last(), path) + tail));
    }
}

proof fn lemma_records_for_one(x: DiffV, path: Seq<char>)
    ensures
        records_for(seq![x], path) == if x.path == path {
            seq![x]
        } else {
            seq![]
        },
{
    assert(seq![x].drop_last() =~= Seq::<DiffV>::empty());
    assert(records_for(Seq::<DiffV>::empty(), path) =~= Seq::<DiffV>::empty());
    assert(Seq::<DiffV>::empty() + seq![x] =~= seq![x]);
    assert(Seq::<DiffV>::empty() + Seq::<DiffV>::empty() =~= Seq::<DiffV>::empty());
}

proof fn lemma_hash_of_path(s: Snapshot, path: Seq<char>, k: nat)
    ensures
        hash_of_path(s, path, k) matches Some(h) ==> exists|i: int|
            k <= i < s.len() && s[i].0 == path && s[i].1 == h,
        hash_of_path(s, path, k) is None ==> forall|i: int| k <= i < s.len() ==> #[trigger] s[i].0 != path,
    decreases s.len() - k,
{
    if k < s.len() {
        if s[k as int].0 != path {
            lemma_hash_of_path(s, path, k + 1);
        }
    }
}

proof fn lemma_live_pass_records(live: Snapshot, s: Snapshot, path: Seq<char>)
    requires
        unique_paths(live),
    ensures
        forall|i: int| 0 <= i < live.len() && live[i].0 == path ==> records_for(live_pass(live, s), path)
            == live_record(live[i], s),
        !has_path(live, path) ==> records_for(live_pass(live, s), path) == Seq::<DiffV>::empty(),
    decreases live.len(),
{
    if live.len() == 0 {
    } else {
        let rest = live.drop_last();
        let e = live.last();
        assert(unique_paths(rest));
        lemma_live_pass_records(rest, s, path);
        lemma_records_for_add(live_pass(rest, s), live_record(e, s), path);
        match hash_of_path(s, e.0, 0) {
            None => lemma_records_for_one(DiffV { path: e.0, hash: e.1, kind: KindV::New }, e.0),
            Some(h) => if h != e.1 {
                lemma_records_for_one(DiffV { path: e.0, hash: e.1, kind: KindV::Changed { prev_hash: h } }, e.0);
            },
        }
        match hash_of_path(s, e.0, 0) {
            None => lemma_records_for_one(DiffV { path: e.0, hash: e.1, kind: KindV::New }, path),
            Some(h) => if h != e.1 {
                lemma_records_for_one(DiffV { path: e.0, hash: e.1, kind: KindV::Changed { prev_hash: h } }, path);
            },
        }
        if e.0 == path {
            assert(!has_path(rest, path)) by {
                assert forall|i: int| 0 <= i < rest.len() implies rest[i].0 != path by {
                    assert(live[i].0 != live[live.len() - 1].0);
                }
            }
            assert(records_for(live_pass(live, s), path) =~= live_record(e, s));
            assert forall|i: int| 0 <= i < live.len() && live[i].0 == path implies i == live.len() - 1 by {}
        } else {
            assert(records_for(live_record(e, s), path) =~= Seq::<DiffV>::empty());
            assert(records_for(live_pass(live, s), path) =~= records_for(live_pass(rest, s), path));
            assert forall|i: int| 0 <= i < live.len() && live[i].0 == path implies rest[i] == live[i]
                && i < rest.len() by {}
            if !has_path(live, path) {
                assert(!has_path(rest, path)) by {
                    assert forall|i: int| 0 <= i < rest.len() implies rest[i].0 != path by {
                        assert(rest[i] == live[i]);
                    }
                }
            }
        }
    }
}

proof fn lemma_removed_pass_records(s: Snapshot, live: Snapshot, path: Seq<char>)
    requires
        unique_paths(s),
    ensures
        forall|j: int| 0 <= j < s.len() && s[j].0 == path ==> records_for(removed_pass(s, live), path)
            == persisted_record(s[j], live),
        !has_path(s, path) ==> records_for(removed_pass(s, live), path) == Seq::<DiffV>::empty(),
    decreases s.len(),
{
    if s.len() == 0 {
    } else {
        let rest = s.drop_last();
        let e = s.last();
        assert(unique_paths(rest));
        lemma_removed_pass_records(rest, live, path);
        lemma_records_for_add(removed_pass(rest, live), persisted_record(e, live), path);
        if !has_path(live, e.0) {
            lemma_records_for_one(DiffV { path: e.0, hash: e.1, kind: KindV::Removed }, path);
        }
        if e.0 == path {
            assert(!has_path(rest, path)) by {
                assert forall|j: int| 0 <= j < rest.len() implies rest[j].0 != path by {
                    assert(s[j].0 != s[s.len() - 1].0);
                }
            }
            assert(records_for(removed_pass(s, live), path) =~= persisted_record(e, live));
            assert forall|j: int| 0 <= j < s.len() && s[j].0 == path implies j == s.len() - 1 by {}
        } else {
            assert(records_for(persisted_record(e, live), path) =~= Seq::<DiffV>::empty());
            assert(records_for(removed_pass(s, live), path) =~= records_for(removed_pass(rest, live), path));
            assert forall|j: int| 0 <= j < s.len() && s[j].0 == path implies rest[j] == s[j] && j
                < rest.len() by {}
            if !has_path(s, path) {
                assert(!has_path(rest, path)) by {
                    assert forall|j: int| 0 <= j < rest.len() implies rest[j].0 != path by {
                        assert(rest[j] == s[j]);
                    }
                }
            }
        }
    }
}

/// The elementary diff of a tree against a snapshot, each with one entry per
/// path, partitions the paths: a live path that the snapshot lacks has exactly
/// one `New` record, a path in both with another hash exactly one `Changed`
/// record, a path in both with the same hash none, a persisted path that is not
/// live exactly one `Removed` record, and any other path none.
pub proof fn lemma_diff_completeness(live: Snapshot, s: Snapshot, path: Seq<char>)
    requires
        unique_paths(live),
        unique_paths(s),
    ensures
        forall|i: int|
            0 <= i < live.len() && live[i].0 == path && !has_path(s, path) ==> records_for(
                elementary(live, s),
                path,
            ) == seq![DiffV { path: path, hash: live[i].1, kind: KindV::New }],
        forall|i: int, j: int|
            0 <= i < live.len() && 0 <= j < s.len() && live[i].0 == path && s[j].0 == path
                && live[i].1 != s[j].1 ==> records_for(elementary(live, s), path) == seq![
                DiffV { path: path, hash: live[i].1, kind: KindV::Changed { prev_hash: s[j].1 } },
            ],
        forall|i: int, j: int|
            0 <= i < live.len() && 0 <= j < s.len() && live[i].0 == path && s[j].0 == path
                && live[i].1 == s[j].1 ==> records_for(elementary(live, s), path) == Seq::<
                DiffV,
            >::empty(),
        forall|j: int|
            0 <= j < s.len() && s[j].0 == path && !has_path(live, path) ==> records_for(
                elementary(live, s),
                path,
            ) == seq![DiffV { path: path, hash: s[j].1, kind: KindV::Removed }],
        !has_path(live, path) && !has_path(s, path) ==> records_for(elementary(live, s), path)
            == Seq::<DiffV>::empty(),
{
    lemma_live_pass_records(live, s, path);
    lemma_removed_pass_records(s, live, path);
    lemma_records_for_add(live_pass(live, s), removed_pass(s, live), path);
    lemma_hash_of_path(s, path, 0);
    assert forall|j: int| 0 <= j < s.len() && s[j].0 == path implies hash_of_path(s, path, 0) == Some(
        s[j].1,
    ) by {
        if let Some(h) = hash_of_path(s, path, 0) {
            let k = choose|k: int| 0 <= k < s.len() && s[k].0 == path && s[k].1 == h;
            assert(k == j);
        }
    }
    if has_path(live, path) {
        assert forall|j: int| 0 <= j < s.len() && s[j].0 == path implies persisted_record(s[j], live)
            == Seq::<DiffV>::empty() by {}
    }
    assert(Seq::<DiffV>::empty() + Seq::<DiffV>::empty() =~= Seq::<DiffV>::empty());
    assert forall|x: Seq<DiffV>| x + Seq::<DiffV>::empty() =~= x && Seq::<DiffV>::empty() + x =~= x by {}
}

/// The elementary diff of the live files `live` against the persisted entries
/// `db`, both as (root-relative path, hash) pairs.
pub fn elementary_diffs(live: &Vec<(String, String)>, db: &Vec<(String, String)>) -> (r: Vec<Diff>)
    ensures
        views(r@) == elementary(snap(live@), snap(db@)),
{
    let ghost l = snap(live@);
    let ghost s = snap(db@);
    let mut diffs: Vec<Diff> = Vec::new();
    let mut i: usize = 0;
    while i < live.len()
        invariant
            l == snap(live@),
            s == snap(db@),
            i <= live.len(),
            views(diffs@) == live_pass(l.take(i as int), s),
        decreases live.len() - i,
    {
        let ghost before = views(diffs@);
        let path = &live[i].0;
        let hash = &live[i].1;
        match find_hash_of_path(db, path) {
            None => {
                diffs.push(Diff { path: path.clone(), hash: hash.clone(), ty: DiffType::New });
            },
            Some(prev) => {
                if prev != *hash {
                    diffs.push(
                        Diff { path: path.clone(), hash: hash.clone(), ty: DiffType::Changed { prev_hash: prev } },
                    );
                }
            },
        }
        assert(l.take(i + 1).drop_last() =~= l.take(i as int));
        assert(views(diffs@) =~= before + live_record(l[i as int], s));
        i = i + 1;
    }
    assert(l.take(live.len() as int) =~= l);
    let ghost first = views(diffs@);
    let mut k: usize = 0;
    while k < db.len()
        invariant
            l == snap(live@),
            s == snap(db@),
            k <= db.len(),
            views(diffs@) == first + removed_pass(s.take(k as int), l),
        decreases db.len() - k,
    {
        let ghost before = views(diffs@);
        if !is_live(live, &db[k].0) {
            diffs.push(Diff { path: db[k].0.clone(), hash: db[k].1.clone(), ty: DiffType::Removed });
        }
        assert(s.take(k + 1).drop_last() =~= s.take(k as int));
        assert(s.take(k + 1).last() == s[k as int]);
        assert(removed_pass(s.take(k + 1), l) == removed_pass(s.take(k as int), l)
            + persisted_record(s[k as int], l));
        assert(views(diffs@) =~= before + persisted_record(s[k as int], l));
        assert(views(diffs@) =~= first + removed_pass(s.take(k + 1), l));
        k = k + 1;
    }
    assert(s.take(db.len() as int) =~= s);
    diffs
}

/// The diff of a refresh: the elementary diff of `live` against `db`, coalesced.
pub fn generate_diffs(live: &Vec<(String, String)>, db: &Vec<(String, String)>) -> (r: Vec<Diff>)
    ensures
        views(r@) == coalesced(elementary(snap(live@), snap(db@)), snap(db@)),
{
    let mut diffs = elementary_diffs(live, db);
    coalesce_diffs(&mut diffs, db);
    diffs
}

} // verus!
