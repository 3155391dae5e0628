//! Diff records and the coalescing of elementary records into moves and duplicates.
use vstd::prelude::*;

verus! {

/// The kind of change that a diff records, with what the kind needs besides.
#[derive(Debug, Clone, PartialEq, Eq)]
pub enum DiffType {
    /// A path whose hash the index does not hold.
    New,
    /// A new path whose hash the index holds under a path that still exists.
    Duplicate { orig_path: String },
    /// A path whose hash differs from the one the index recorded for it.
    Changed { prev_hash: String },
    /// A new path whose hash was recorded under a path that is gone.
    Moved { orig_path: String },
    /// An indexed path that no longer exists, with no new path of the same hash.
    Removed,
}

/// A change in the indexed tree.
#[derive(Debug, Clone, PartialEq, Eq)]
pub struct Diff {
    pub path: String,
    pub hash: String,
    pub ty: DiffType,
}

pub ghost enum KindV {
    New,
    Duplicate { orig_path: Seq<char> },
    Changed { prev_hash: Seq<char> },
    Moved { orig_path: Seq<char> },
    Removed,
}

pub ghost struct DiffV {
    pub path: Seq<char>,
    pub hash: Seq<char>,
    pub kind: KindV,
}

impl View for DiffType {
    type V = KindV;

    open spec fn view(&self) -> KindV {
        match self {
            DiffType::New => KindV::New,
            DiffType::Duplicate { orig_path } => KindV::Duplicate { orig_path: orig_path@ },
            DiffType::Changed { prev_hash } => KindV::Changed { prev_hash: prev_hash@ },
            DiffType::Moved { orig_path } => KindV::Moved { orig_path: orig_path@ },
            DiffType::Removed => KindV::Removed,
        }
    }
}

impl View for Diff {
    type V = DiffV;

    open spec fn view(&self) -> DiffV {
        DiffV { path: self.path@, hash: self.hash@, kind: self.ty@ }
    }
}

/// A persisted snapshot of the index: (path, hash) pairs.
pub type Snapshot = Seq<(Seq<char>, Seq<char>)>;

pub open spec fn snap(v: Seq<(String, String)>) -> Snapshot {
    v.map_values(|e: (String, String)| (e.0@, e.1@))
}

pub open spec fn views(v: Seq<Diff>) -> Seq<DiffV> {
    v.map_values(|d: Diff| d@)
}

/// The path of the first entry at or after `k` in `s` that records `hash`.
pub open spec fn path_of_hash(s: Snapshot, hash: Seq<char>, k: nat) -> Option<Seq<char>>
    decreases s.len() - k,
{
    if k >= s.len() {
        None
    } else if s[k as int].1 == hash {
        Some(s[k as int].0)
    } else {
        path_of_hash(s, hash, k + 1)
    }
}

/// A `New` record whose hash the snapshot holds: it is to be merged.
pub open spec fn mergeable(d: DiffV, s: Snapshot) -> bool {
    d.kind is New && path_of_hash(s, d.hash, 0) is Some
}

/// The first position at or after `k` of a mergeable record.
pub open spec fn first_mergeable(ds: Seq<DiffV>, s: Snapshot, k: nat) -> Option<nat>
    decreases ds.len() - k,
{
    if k >= ds.len() {
        None
    } else if mergeable(ds[k as int], s) {
        Some(k)
    } else {
        first_mergeable(ds, s, k + 1)
    }
}

/// The first position at or after `k` of a `Removed` record for `hash`.
pub open spec fn first_removed(ds: Seq<DiffV>, hash: Seq<char>, k: nat) -> Option<nat>
    decreases ds.len() - k,
{
    if k >= ds.len() {
        None
    } else if ds[k as int].kind is Removed && ds[k as int].hash == hash {
        Some(k)
    } else {
        first_removed(ds, hash, k + 1)
    }
}

/// One merge of the mergeable record at `i`: with the first `Removed` record of
/// its hash into a `Moved`, or alone into a `Duplicate` of the indexed path.
pub open spec fn merge_at(ds: Seq<DiffV>, s: Snapshot, i: int) -> Seq<DiffV> {
    let d = ds[i];
    match first_removed(ds, d.hash, 0) {
        Some(j) => {
            let (hi, lo) = if i > j { (i, j as int) } else { (j as int, i) };
            ds.remove(hi).remove(lo).push(
                DiffV { path: d.path, hash: d.hash, kind: KindV::Moved { orig_path: ds[j as int].path } },
            )
        },
        None => ds.remove(i).push(
            DiffV {
                path: d.path,
                hash: d.hash,
                kind: KindV::Duplicate { orig_path: path_of_hash(s, d.hash, 0)->0 },
            },
        ),
    }
}

/// Merges repeated at most `fuel` times, each at the first mergeable record.
pub open spec fn merge_rounds(ds: Seq<DiffV>, s: Snapshot, fuel: nat) -> Seq<DiffV>
    decreases fuel,
{
    if fuel == 0 {
        ds
    } else {
        match first_mergeable(ds, s, 0) {
            None => ds,
            Some(i) => merge_rounds(merge_at(ds, s, i as int), s, (fuel - 1) as nat),
        }
    }
}

/// The number of `New` records.
pub open spec fn count_new(ds: Seq<DiffV>) -> nat
    decreases ds.len(),
{
    if ds.len() == 0 {
        0
    } else {
        count_new(ds.drop_last()) + if ds.last().kind is New {
            1nat
        } else {
            0nat
        }
    }
}

/// The fixed point of merging: every merge consumes a `New` record, so as many
/// rounds as there are `New` records reach it.
pub open spec fn coalesced(ds: Seq<DiffV>, s: Snapshot) -> Seq<DiffV> {
    merge_rounds(ds, s, count_new(ds))
}

proof fn lemma_count_new_push(ds: Seq<DiffV>, x: DiffV)
    ensures
        count_new(ds.push(x)) == count_new(ds) + if x.kind is New {
            1nat
        } else {
            0nat
        },
{
    assert(ds.push(x).drop_last() =~= ds);
}

proof fn lemma_count_new_remove(ds: Seq<DiffV>, i: int)
    requires
        0 <= i < ds.len(),
    ensures
        count_new(ds.remove(i)) + (if ds[i].kind is New {
            1nat
        } else {
            0nat
        }) == count_new(ds),
    decreases ds.len(),
{
    if i == ds.len() - 1 {
        assert(ds.remove(i) =~= ds.drop_last());
    } else {
        lemma_count_new_remove(ds.drop_last(), i);
        assert(ds.remove(i).drop_last() =~= ds.drop_last().remove(i));
    }
}

proof fn lemma_first_mergeable(ds: Seq<DiffV>, s: Snapshot, k: nat)
    ensures
        first_mergeable(ds, s, k) matches Some(i) ==> k <= i < ds.len() && mergeable(
            ds[i as int],
            s,
        ),
        first_mergeable(ds, s, k) is None ==> forall|i: int|
            k <= i < ds.len() ==> !mergeable(#[trigger] ds[i], s),
    decreases ds.len() - k,
{
    if k < ds.len() && !mergeable(ds[k as int], s) {
        lemma_first_mergeable(ds, s, k + 1);
    }
}

proof fn lemma_first_removed(ds: Seq<DiffV>, hash: Seq<char>, k: nat)
    ensures
        first_removed(ds, hash, k) matches Some(j) ==> k <= j < ds.len() && ds[j as int].kind is Removed
            && ds[j as int].hash == hash,
        first_removed(ds, hash, k) is None ==> forall|j: int|
            k <= j < ds.len() ==> !(#[trigger] ds[j].kind is Removed && ds[j].hash == hash),
    decreases ds.len() - k,
{
    if k < ds.len() && !(ds[k as int].kind is Removed && ds[k as int].hash == hash) {
        lemma_first_removed(ds, hash, k + 1);
    }
}

/// A merge consumes exactly one `New` record.
pub proof fn lemma_merge_consumes_new(ds: Seq<DiffV>, s: Snapshot, i: int)
    requires
        0 <= i < ds.len(),
        mergeable(ds[i], s),
    ensures
        count_new(merge_at(ds, s, i)) + 1 == count_new(ds),
{
    let d = ds[i];
    lemma_first_removed(ds, d.hash, 0);
    match first_removed(ds, d.hash, 0) {
        Some(j) => {
            let j = j as int;
            let (hi, lo) = if i > j { (i, j) } else { (j, i) };
            lemma_count_new_remove(ds, hi);
            assert(ds.remove(hi)[lo] == ds[lo]);
            lemma_count_new_remove(ds.remove(hi), lo);
            lemma_count_new_push(
                ds.remove(hi).remove(lo),
                DiffV { path: d.path, hash: d.hash, kind: KindV::Moved { orig_path: ds[j].path } },
            );
        },
        None => {
            lemma_count_new_remove(ds, i);
            lemma_count_new_push(
                ds.remove(i),
                DiffV {
                    path: d.path,
                    hash: d.hash,
                    kind: KindV::Duplicate { orig_path: path_of_hash(s, d.hash, 0)->0 },
                },
            );
        },
    }
}

proof fn lemma_no_new_no_merge(ds: Seq<DiffV>, s: Snapshot)
    requires
        count_new(ds) == 0,
    ensures
        first_mergeable(ds, s, 0) is None,
{
    lemma_first_mergeable(ds, s, 0);
    if let Some(i) = first_mergeable(ds, s, 0) {
        lemma_count_new_remove(ds, i as int);
    }
}

proof fn lemma_rounds_settle(ds: Seq<DiffV>, s: Snapshot, fuel: nat)
    requires
        fuel >= count_new(ds),
    ensures
        first_mergeable(merge_rounds(ds, s, fuel), s, 0) is None,
        merge_rounds(ds, s, fuel).len() <= ds.len(),
    decreases fuel,
{
    if fuel == 0 {
        lemma_no_new_no_merge(ds, s);
    } else {
        lemma_first_mergeable(ds, s, 0);
        if let Some(i) = first_mergeable(ds, s, 0) {
            lemma_merge_consumes_new(ds, s, i as int);
            lemma_merge_not_longer(ds, s, i as int);
            lemma_rounds_settle(merge_at(ds, s, i as int), s, (fuel - 1) as nat);
        }
    }
}

/// A merge never adds a record, and one that makes a `Moved` record takes one
/// away: the two records it consumes give way to one.
pub proof fn lemma_merge_not_longer(ds: Seq<DiffV>, s: Snapshot, i: int)
    requires
        0 <= i < ds.len(),
        mergeable(ds[i], s),
    ensures
        merge_at(ds, s, i).len() <= ds.len(),
        first_removed(ds, ds[i].hash, 0) is Some ==> merge_at(ds, s, i).len() + 1 == ds.len(),
        first_removed(ds, ds[i].hash, 0) is None ==> merge_at(ds, s, i).len() == ds.len(),
{
    lemma_first_removed(ds, ds[i].hash, 0);
}

/// Coalescing terminates: every merge consumes one `New` record, so the rounds
/// that `coalesced` runs reach a state with nothing left to merge, and the
/// result holds no more records than the input.
pub proof fn lemma_coalesce_terminates(ds: Seq<DiffV>, s: Snapshot)
    ensures
        first_mergeable(coalesced(ds, s), s, 0) is None,
        coalesced(ds, s).len() <= ds.len(),
        forall|i: int|
            0 <= i < ds.len() && mergeable(ds[i], s) ==> #[trigger] count_new(merge_at(ds, s, i)) + 1
                == count_new(ds),
{
    lemma_rounds_settle(ds, s, count_new(ds));
    assert forall|i: int| 0 <= i < ds.len() && mergeable(ds[i], s) implies #[trigger] count_new(
        merge_at(ds, s, i),
    ) + 1 == count_new(ds) by {
        lemma_merge_consumes_new(ds, s, i);
    }
}

/// Coalescing its own output merges nothing more: the output is a fixed point.
pub proof fn lemma_coalesce_idempotent(ds: Seq<DiffV>, s: Snapshot)
    ensures
        coalesced(coalesced(ds, s), s) == coalesced(ds, s),
{
    let r = coalesced(ds, s);
    lemma_rounds_settle(ds, s, count_new(ds));
    assert(merge_rounds(r, s, count_new(r)) == r);
}

/// The number of records that satisfy `p`.
pub open spec fn count_where(ds: Seq<DiffV>, p: spec_fn(DiffV) -> bool) -> nat
    decreases ds.len(),
{
    if ds.len() == 0 {
        0
    } else {
        count_where(ds.drop_last(), p) + if p(ds.last()) {
            1nat
        } else {
            0nat
        }
    }
}

pub open spec fn is_record(x: DiffV) -> spec_fn(DiffV) -> bool {
    |d: DiffV| d == x
}

pub open spec fn new_of(h: Seq<char>) -> spec_fn(DiffV) -> bool {
    |d: DiffV| d.kind is New && d.hash == h
}

pub open spec fn removed_of(h: Seq<char>) -> spec_fn(DiffV) -> bool {
    |d: DiffV| d.kind is Removed && d.hash == h
}

/// Only the kinds that the elementary diff produces.
pub open spec fn elementary_kinds(ds: Seq<DiffV>) -> bool {
    forall|k: int| 0 <= k < ds.len() ==> (#[trigger] ds[k].kind is New || ds[k].kind is Changed
        || ds[k].kind is Removed)
}

proof fn lemma_count_push(ds: Seq<DiffV>, x: DiffV, p: spec_fn(DiffV) -> bool)
    ensures
        count_where(ds.push(x), p) == count_where(ds, p) + if p(x) {
            1nat
        } else {
            0nat
        },
{
    assert(ds.push(x).drop_last() =~= ds);
}

proof fn lemma_count_remove(ds: Seq<DiffV>, i: int, p: spec_fn(DiffV) -> bool)
    requires
        0 <= i < ds.len(),
    ensures
        count_where(ds.remove(i), p) + (if p(ds[i]) {
            1nat
        } else {
            0nat
        }) == count_where(ds, p),
    decreases ds.len(),
{
    if i == ds.len() - 1 {
        assert(ds.remove(i) =~= ds.drop_last());
    } else {
        lemma_count_remove(ds.drop_last(), i, p);
        assert(ds.remove(i).drop_last() =~= ds.drop_last().remove(i));
    }
}

proof fn lemma_count_mono(ds: Seq<DiffV>, q: spec_fn(DiffV) -> bool, p: spec_fn(DiffV) -> bool)
    requires
        forall|d: DiffV| #[trigger] q(d) ==> p(d),
    ensures
        count_where(ds, q) <= count_where(ds, p),
    decreases ds.len(),
{
    if ds.len() > 0 {
        lemma_count_mono(ds.drop_last(), q, p);
    }
}

proof fn lemma_count_none(ds: Seq<DiffV>, p: spec_fn(DiffV) -> bool)
    requires
        forall|k: int| 0 <= k < ds.len() ==> !p(#[trigger] ds[k]),
    ensures
        count_where(ds, p) == 0,
    decreases ds.len(),
{
    if ds.len() > 0 {
        lemma_count_none(ds.drop_last(), p);
    }
}

proof fn lemma_count_witness(ds: Seq<DiffV>, p: spec_fn(DiffV) -> bool)
    requires
        count_where(ds, p) > 0,
    ensures
        exists|k: int| 0 <= k < ds.len() && p(#[trigger] ds[k]),
{
    if !exists|k: int| 0 <= k < ds.len() && p(#[trigger] ds[k]) {
        lemma_count_none(ds, p);
    }
}

/// Where `p` holds of one record only and `q` is narrower, the record of `p`
/// at `i` is the record of `q`.
proof fn lemma_sole_record(ds: Seq<DiffV>, i: int, q: spec_fn(DiffV) -> bool, p: spec_fn(DiffV) -> bool)
    requires
        0 <= i < ds.len(),
        p(ds[i]),
        count_where(ds, p) == 1,
        count_where(ds, q) == 1,
        forall|d: DiffV| #[trigger] q(d) ==> p(d),
    ensures
        q(ds[i]),
{
    lemma_count_remove(ds, i, p);
    lemma_count_remove(ds, i, q);
    lemma_count_mono(ds.remove(i), q, p);
}

/// The record that a lone `New` record of `h` at `new_path` becomes.
pub open spec fn merged_record(new_path: Seq<char>, h: Seq<char>, removed: Option<Seq<char>>, s: Snapshot) -> DiffV {
    match removed {
        Some(pa) => DiffV { path: new_path, hash: h, kind: KindV::Moved { orig_path: pa } },
        None => DiffV {
            path: new_path,
            hash: h,
            kind: KindV::Duplicate { orig_path: path_of_hash(s, h, 0)->0 },
        },
    }
}

/// Before the merge of the `New` record of `h`: that record, and the `Removed`
/// record of `h` when there is one, are the only ones of their kind for `h`.
pub open spec fn before_merge(ds: Seq<DiffV>, s: Snapshot, h: Seq<char>, new_path: Seq<char>, removed: Option<Seq<char>>) -> bool {
    &&& count_where(ds, new_of(h)) == 1
    &&& count_where(ds, is_record(DiffV { path: new_path, hash: h, kind: KindV::New })) == 1
    &&& count_where(ds, removed_of(h)) == if removed is Some {
        1nat
    } else {
        0nat
    }
    &&& (removed matches Some(pa) ==> count_where(
        ds,
        is_record(DiffV { path: pa, hash: h, kind: KindV::Removed }),
    ) == 1)
    &&& count_where(ds, is_record(merged_record(new_path, h, removed, s))) == 0
}

/// After it: the merged record stands once, and no `New` or `Removed` record of `h` is left.
pub open spec fn after_merge(ds: Seq<DiffV>, s: Snapshot, h: Seq<char>, new_path: Seq<char>, removed: Option<Seq<char>>) -> bool {
    &&& count_where(ds, new_of(h)) == 0
    &&& count_where(ds, removed_of(h)) == 0
    &&& count_where(ds, is_record(merged_record(new_path, h, removed, s))) == 1
}

proof fn lemma_merge_tracks(ds: Seq<DiffV>, s: Snapshot, i: int, h: Seq<char>, new_path: Seq<char>, removed: Option<Seq<char>>)
    requires
        0 <= i < ds.len(),
        mergeable(ds[i], s),
        before_merge(ds, s, h, new_path, removed) || after_merge(ds, s, h, new_path, removed),
    ensures
        before_merge(merge_at(ds, s, i), s, h, new_path, removed) || after_merge(
            merge_at(ds, s, i),
            s,
            h,
            new_path,
            removed,
        ),
{
    let d = ds[i];
    let nb = DiffV { path: new_path, hash: h, kind: KindV::New };
    let r = merged_record(new_path, h, removed, s);
    let preds = seq![new_of(h), removed_of(h), is_record(nb), is_record(r)];
    let ra_pred = is_record(DiffV { path: removed->0, hash: h, kind: KindV::Removed });
    lemma_first_removed(ds, d.hash, 0);
    let x = match first_removed(ds, d.hash, 0) {
        Some(j) => DiffV { path: d.path, hash: d.hash, kind: KindV::Moved { orig_path: ds[j as int].path } },
        None => DiffV {
            path: d.path,
            hash: d.hash,
            kind: KindV::Duplicate { orig_path: path_of_hash(s, d.hash, 0)->0 },
        },
    };
    // The count of every predicate after the merge, from the records it takes and adds.
    assert forall|p: spec_fn(DiffV) -> bool| #![auto]
        count_where(merge_at(ds, s, i), p) + (if p(d) {
            1nat
        } else {
            0nat
        }) + (if first_removed(ds, d.hash, 0) is Some && p(ds[first_removed(ds, d.hash, 0)->0 as int]) {
            1nat
        } else {
            0nat
        }) == count_where(ds, p) + (if p(x) {
            1nat
        } else {
            0nat
        }) by {
        match first_removed(ds, d.hash, 0) {
            Some(j) => {
                let j = j as int;
                let (hi, lo) = if i > j { (i, j) } else { (j, i) };
                lemma_count_remove(ds, hi, p);
                assert(ds.remove(hi)[lo] == ds[lo]);
                lemma_count_remove(ds.remove(hi), lo, p);
                lemma_count_push(ds.remove(hi).remove(lo), x, p);
            },
            None => {
                lemma_count_remove(ds, i, p);
                lemma_count_push(ds.remove(i), x, p);
            },
        }
    }
    if d.hash != h {
    } else if after_merge(ds, s, h, new_path, removed) {
        lemma_count_remove(ds, i, new_of(h));
    } else {
        lemma_sole_record(ds, i, is_record(nb), new_of(h));
        match first_removed(ds, h, 0) {
            Some(j) => {
                let j = j as int;
                if removed is None {
                    lemma_count_remove(ds, j, removed_of(h));
                } else {
                    lemma_sole_record(ds, j, ra_pred, removed_of(h));
                }
            },
            None => {
                if removed is Some {
                    lemma_count_witness(ds, removed_of(h));
                }
            },
        }
    }
}

proof fn lemma_rounds_track(ds: Seq<DiffV>, s: Snapshot, fuel: nat, h: Seq<char>, new_path: Seq<char>, removed: Option<Seq<char>>)
    requires
        before_merge(ds, s, h, new_path, removed) || after_merge(ds, s, h, new_path, removed),
    ensures
        before_merge(merge_rounds(ds, s, fuel), s, h, new_path, removed) || after_merge(
            merge_rounds(ds, s, fuel),
            s,
            h,
            new_path,
            removed,
        ),
    decreases fuel,
{
    if fuel > 0 {
        lemma_first_mergeable(ds, s, 0);
        if let Some(i) = first_mergeable(ds, s, 0) {
            lemma_merge_tracks(ds, s, i as int, h, new_path, removed);
            lemma_rounds_track(merge_at(ds, s, i as int), s, (fuel - 1) as nat, h, new_path, removed);
        }
    }
}

proof fn lemma_coalesce_tracks(ds: Seq<DiffV>, s: Snapshot, h: Seq<char>, new_path: Seq<char>, removed: Option<Seq<char>>)
    requires
        before_merge(ds, s, h, new_path, removed),
        path_of_hash(s, h, 0) is Some,
    ensures
        after_merge(coalesced(ds, s), s, h, new_path, removed),
        count_where(coalesced(ds, s), is_record(DiffV { path: new_path, hash: h, kind: KindV::New })) == 0,
        removed matches Some(pa) ==> count_where(
            coalesced(ds, s),
            is_record(DiffV { path: pa, hash: h, kind: KindV::Removed }),
        ) == 0,
{
    let c = coalesced(ds, s);
    let nb = DiffV { path: new_path, hash: h, kind: KindV::New };
    lemma_rounds_track(ds, s, count_new(ds), h, new_path, removed);
    lemma_rounds_settle(ds, s, count_new(ds));
    lemma_first_mergeable(c, s, 0);
    if before_merge(c, s, h, new_path, removed) {
        lemma_count_witness(c, is_record(nb));
    }
    lemma_count_mono(c, is_record(nb), new_of(h));
    if let Some(pa) = removed {
        lemma_count_mono(c, is_record(DiffV { path: pa, hash: h, kind: KindV::Removed }), removed_of(h));
    }
}

/// A `New` record of path `pb` and a `Removed` record of path `pa`, the only
/// records of their kinds for a hash `h` that the snapshot holds, coalesce
/// into exactly one `Moved` record from `pa` to `pb`, and neither is left.
pub proof fn lemma_coalesce_move(ds: Seq<DiffV>, s: Snapshot, h: Seq<char>, pb: Seq<char>, pa: Seq<char>)
    requires
        elementary_kinds(ds),
        count_where(ds, new_of(h)) == 1,
        count_where(ds, is_record(DiffV { path: pb, hash: h, kind: KindV::New })) == 1,
        count_where(ds, removed_of(h)) == 1,
        count_where(ds, is_record(DiffV { path: pa, hash: h, kind: KindV::Removed })) == 1,
        path_of_hash(s, h, 0) is Some,
    ensures
        count_where(
            coalesced(ds, s),
            is_record(DiffV { path: pb, hash: h, kind: KindV::Moved { orig_path: pa } }),
        ) == 1,
        count_where(coalesced(ds, s), is_record(DiffV { path: pb, hash: h, kind: KindV::New })) == 0,
        count_where(coalesced(ds, s), is_record(DiffV { path: pa, hash: h, kind: KindV::Removed }))
            == 0,
{
    assert forall|k: int| 0 <= k < ds.len() implies !is_record(merged_record(pb, h, Some(pa), s))(
        #[trigger] ds[k],
    ) by {
        assert(ds[k].kind is New || ds[k].kind is Changed || ds[k].kind is Removed);
    }
    lemma_count_none(ds, is_record(merged_record(pb, h, Some(pa), s)));
    lemma_coalesce_tracks(ds, s, h, pb, Some(pa));
}

/// A `New` record of path `pb`, the only one for a hash `h` that the snapshot
/// records under `po`, with no `Removed` record of `h`, coalesces into exactly
/// one `Duplicate` record of `po`, and is not left.
pub proof fn lemma_coalesce_duplicate(ds: Seq<DiffV>, s: Snapshot, h: Seq<char>, pb: Seq<char>, po: Seq<char>)
    requires
        elementary_kinds(ds),
        count_where(ds, new_of(h)) == 1,
        count_where(ds, is_record(DiffV { path: pb, hash: h, kind: KindV::New })) == 1,
        count_where(ds, removed_of(h)) == 0,
        path_of_hash(s, h, 0) == Some(po),
    ensures
        count_where(
            coalesced(ds, s),
            is_record(DiffV { path: pb, hash: h, kind: KindV::Duplicate { orig_path: po } }),
        ) == 1,
        count_where(coalesced(ds, s), is_record(DiffV { path: pb, hash: h, kind: KindV::New })) == 0,
{
    assert forall|k: int| 0 <= k < ds.len() implies !is_record(merged_record(pb, h, None, s))(
        #[trigger] ds[k],
    ) by {
        assert(ds[k].kind is New || ds[k].kind is Changed || ds[k].kind is Removed);
    }
    lemma_count_none(ds, is_record(merged_record(pb, h, None, s)));
    lemma_coalesce_tracks(ds, s, h, pb, None);
}

/// Looks up the first path that the snapshot records for `hash`.
fn find_path_of_hash(db: &Vec<(String, String)>, hash: &String) -> (r: Option<String>)
    ensures
        r matches Some(p) ==> path_of_hash(snap(db@), hash@, 0) == Some(p@),
        r is None ==> path_of_hash(snap(db@), hash@, 0) is None,
{
    let ghost s = snap(db@);
    let mut k: usize = 0;
    while k < db.len()
        invariant
            s == snap(db@),
            k <= db.len(),
            path_of_hash(s, hash@, 0) == path_of_hash(s, hash@, k as nat),
        decreases db.len() - k,
    {
        if db[k].1 == *hash {
            return Some(db[k].0.clone());
        }
        k = k + 1;
    }
    None
}

/// Finds the first mergeable record, with the path the snapshot holds for its hash.
fn find_mergeable(diffs: &Vec<Diff>, db: &Vec<(String, String)>) -> (r: Option<(usize, String)>)
    ensures
        r is None ==> first_mergeable(views(diffs@), snap(db@), 0) is None,
        r matches Some((i, p)) ==> first_mergeable(views(diffs@), snap(db@), 0) == Some(i as nat)
            && path_of_hash(snap(db@), diffs@[i as int].hash@, 0) == Some(p@),
{
    let ghost ds = views(diffs@);
    let ghost s = snap(db@);
    let mut k: usize = 0;
    while k < diffs.len()
        invariant
            ds == views(diffs@),
            s == snap(db@),
            k <= diffs.len(),
            first_mergeable(ds, s, 0) == first_mergeable(ds, s, k as nat),
        decreases diffs.len() - k,
    {
        if let DiffType::New = diffs[k].ty {
            if let Some(p) = find_path_of_hash(db, &diffs[k].hash) {
                return Some((k, p));
            }
        }
        k = k + 1;
    }
    None
}

/// Finds the first `Removed` record for `hash`.
fn find_removed(diffs: &Vec<Diff>, hash: &String) -> (r: Option<usize>)
    ensures
        r is None ==> first_removed(views(diffs@), hash@, 0) is None,
        r matches Some(j) ==> first_removed(views(diffs@), hash@, 0) == Some(j as nat),
{
    let ghost ds = views(diffs@);
    let mut k: usize = 0;
    while k < diffs.len()
        invariant
            ds == views(diffs@),
            k <= diffs.len(),
            first_removed(ds, hash@, 0) == first_removed(ds, hash@, k as nat),
        decreases diffs.len() - k,
    {
        if let DiffType::Removed = diffs[k].ty {
            if diffs[k].hash == *hash {
                return Some(k);
            }
        }
        k = k + 1;
    }
    None
}

/// Rewrites `diffs` into its coalesced form: each `New` record whose hash the
/// snapshot holds becomes a `Moved` (taking the first `Removed` record of that
/// hash with it) or else a `Duplicate` of the indexed path, one merge per pass,
/// until a pass finds nothing to merge.
pub fn coalesce_diffs(diffs: &mut Vec<Diff>, db_paths_and_hashes: &Vec<(String, String)>)
    ensures
        views(final(diffs)@) == coalesced(views(old(diffs)@), snap(db_paths_and_hashes@)),
{
    let ghost s = snap(db_paths_and_hashes@);
    let ghost goal = coalesced(views(diffs@), s);
    loop
        invariant
            s == snap(db_paths_and_hashes@),
            merge_rounds(views(diffs@), s, count_new(views(diffs@))) == goal,
        ensures
            views(diffs@) == goal,
        decreases count_new(views(diffs@)),
    {
        let ghost ds = views(diffs@);
        proof {
            lemma_first_mergeable(ds, s, 0);
        }
        match find_mergeable(diffs, db_paths_and_hashes) {
            None => {
                assert(merge_rounds(ds, s, count_new(ds)) == ds);
                break;
            },
            Some((i, db_path)) => {
                proof {
                    lemma_merge_consumes_new(ds, s, i as int);
                    lemma_first_removed(ds, ds[i as int].hash, 0);
                }
                let removed = find_removed(diffs, &diffs[i].hash);
                match removed {
                    Some(j) => {
                        let (d, r) = if i > j {
                            let d = diffs.remove(i);
                            let r = diffs.remove(j);
                            (d, r)
                        } else {
                            let r = diffs.remove(j);
                            let d = diffs.remove(i);
                            (d, r)
                        };
                        diffs.push(
                            Diff { path: d.path, hash: d.hash, ty: DiffType::Moved { orig_path: r.path } },
                        );
                    },
                    None => {
                        let d = diffs.remove(i);
                        diffs.push(
                            Diff { path: d.path, hash: d.hash, ty: DiffType::Duplicate { orig_path: db_path } },
                        );
                    },
                }
                assert(views(diffs@) =~= merge_at(ds, s, i as int));
            },
        }
    }
}

/// The elements of `s` from position `k` on whose positions `drop` does not hold.
pub open spec fn keep_positions<T>(s: Seq<T>, drop: Set<int>, k: nat) -> Seq<T>
    decreases s.len() - k,
{
    if k >= s.len() {
        Seq::empty()
    } else {
        let rest = keep_positions(s, drop, k + 1);
        if drop.contains(k as int) {
            rest
        } else {
            seq![s[k as int]] + rest
        }
    }
}

/// Removes from `v` the elements at the given positions; positions past the end
/// are ignored, and the order of the remaining elements is kept.
pub fn remove_indeces<T>(v: &mut Vec<T>, indices: &[usize])
    ensures
        final(v)@ == keep_positions(
            old(v)@,
            Set::new(|k: int| exists|j: int| 0 <= j < indices@.len() && indices@[j] == k),
            0,
        ),
{
    let ghost s = v@;
    let ghost drop = Set::new(|k: int| exists|j: int| 0 <= j < indices@.len() && indices@[j] == k);
    // Going from the last position down, no removal shifts a position still to visit.
    let mut k: usize = v.len();
    while k > 0
        invariant
            k <= s.len(),
            drop == Set::new(|k: int| exists|j: int| 0 <= j < indices@.len() && indices@[j] == k),
            v@ == s.take(k as int) + keep_positions(s, drop, k as nat),
        decreases k,
    {
        let ghost before = v@;
        k = k - 1;
        let mut listed = false;
        let mut j: usize = 0;
        while j < indices.len()
            invariant
                j <= indices@.len(),
                listed == exists|m: int| 0 <= m < j && indices@[m] == k,
            decreases indices.len() - j,
        {
            if indices[j] == k {
                listed = true;
            }
            j = j + 1;
        }
        proof {
            if listed {
                let m = choose|m: int| 0 <= m < j && indices@[m] == k;
                assert(0 <= m < indices@.len() && indices@[m] == k as int);
            } else {
                assert forall|m: int| 0 <= m < indices@.len() implies indices@[m] != k as int by {
                    if indices@[m] == k as int {
                        assert(exists|m: int| 0 <= m < j && indices@[m] == k);
                    }
                }
            }
        }
        assert(listed == drop.contains(k as int));
        assert(v@ == before);
        if listed {
            v.remove(k);
            assert(v@ =~= s.take(k as int) + keep_positions(s, drop, k as nat));
        } else {
            assert(v@ =~= s.take(k as int) + keep_positions(s, drop, k as nat));
        }
    }
    assert(v@ =~= keep_positions(s, drop, 0));
}

} // verus!
