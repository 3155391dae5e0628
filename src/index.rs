//! The content index: one path per hash, with the checks that every store of it
//! applies on insertion and on rebinding.
use vstd::prelude::*;
use vstd::string::*;
use crate::diff::{path_of_hash, snap, Snapshot};

verus! {

/// Name of the index's own file inside the indexed root.
pub const INDEX_FILE_NAME: &'static str = "cstfs.db";

#[derive(Debug, PartialEq, Eq)]
pub enum Error {
    Open(String),
    Migration(String),
    InsertionFailure { path: String, hash: String, source: String },
    DuplicateInsertion { path_new: String, path_old: String },
    QueryFailure(String),
    UpdateFailure(String),
    DuplicatePaths(Vec<String>),
    HashDoesNotExist(String),
    TooManyRowsAffected { count: usize, min_rows: usize, max_rows: usize, msg: String },
    TooFewRowsAffected { count: usize, min_rows: usize, max_rows: usize, msg: String },
    Unknown(String),
}

/// Decides an insertion from the path already stored under its hash, if any:
/// a stored path makes it a `DuplicateInsertion`.
pub fn check_insert(existing_path: Option<String>, path_new: &String) -> (r: Result<(), Error>)
    ensures
        existing_path is None <==> r is Ok,
        existing_path matches Some(o) ==> (r matches Err(
            Error::DuplicateInsertion { path_new: pn, path_old: po },
        ) && pn@ == path_new@ && po@ == o@),
{
    match existing_path {
        None => Ok(()),
        Some(path_old) => Err(Error::DuplicateInsertion { path_new: path_new.clone(), path_old }),
    }
}

/// Checks that an insertion affected exactly one row.
pub fn check_inserted_rows(rows: usize, path: &String, hash: &String) -> (r: Result<(), Error>)
    ensures
        r is Ok <==> rows == 1,
        r is Err ==> r matches Err(Error::Unknown(_)),
{
    if rows == 1 {
        Ok(())
    } else {
        let mut msg = String::from_str("More than one row was updated on insert: path=");
        msg.append(path.as_str());
        msg.append(", hash=");
        msg.append(hash.as_str());
        Err(Error::Unknown(msg))
    }
}

/// Decides a rebinding from the paths stored under its hash: none is
/// `HashDoesNotExist`, more than one breaks the index's invariant.
pub fn check_matched_paths(matched: Vec<String>, hash: &String) -> (r: Result<(), Error>)
    ensures
        r is Ok <==> matched@.len() == 1,
        matched@.len() == 0 ==> (r matches Err(Error::HashDoesNotExist(h)) && h@ == hash@),
        matched@.len() > 1 ==> (r matches Err(Error::DuplicatePaths(ps)) && ps@ == matched@),
{
    if matched.len() == 0 {
        Err(Error::HashDoesNotExist(hash.clone()))
    } else if matched.len() == 1 {
        Ok(())
    } else {
        Err(Error::DuplicatePaths(matched))
    }
}

/// Checks that rebinding a hash updated exactly one row.
pub fn check_updated_rows(rows: usize) -> (r: Result<(), Error>)
    ensures
        r is Ok <==> rows == 1,
        rows == 0 ==> (r matches Err(Error::TooFewRowsAffected { count, min_rows, max_rows, .. })
            && count == 0 && min_rows == 1 && max_rows == 1),
        rows > 1 ==> (r matches Err(Error::TooManyRowsAffected { count, min_rows, max_rows, .. })
            && count == rows && min_rows == 1 && max_rows == 1),
{
    if rows == 1 {
        Ok(())
    } else if rows == 0 {
        Err(
            Error::TooFewRowsAffected {
                count: rows,
                min_rows: 1,
                max_rows: 1,
                msg: String::from_str("updating a hash path should update a single row"),
            },
        )
    } else {
        Err(
            Error::TooManyRowsAffected {
                count: rows,
                min_rows: 1,
                max_rows: 1,
                msg: String::from_str("updating a hash path should update a single row"),
            },
        )
    }
}

/// No two entries share a hash.
pub open spec fn unique_hashes(s: Snapshot) -> bool {
    forall|i: int, j: int| 0 <= i < s.len() && 0 <= j < s.len() && i != j ==> s[i].1 != s[j].1
}

/// The position of the first entry at or after `k` that records `hash`.
pub open spec fn position_of_hash(s: Snapshot, hash: Seq<char>, k: nat) -> Option<nat>
    decreases s.len() - k,
{
    if k >= s.len() {
        None
    } else if s[k as int].1 == hash {
        Some(k)
    } else {
        position_of_hash(s, hash, k + 1)
    }
}

proof fn lemma_position_of_hash(s: Snapshot, hash: Seq<char>, k: nat)
    ensures
        position_of_hash(s, hash, k) matches Some(i) ==> k <= i < s.len() && s[i as int].1 == hash
            && path_of_hash(s, hash, k) == Some(s[i as int].0),
        position_of_hash(s, hash, k) is None ==> path_of_hash(s, hash, k) is None && forall|i: int|
            k <= i < s.len() ==> #[trigger] s[i].1 != hash,
    decreases s.len() - k,
{
    if k < s.len() && s[k as int].1 != hash {
        lemma_position_of_hash(s, hash, k + 1);
    }
}

/// An index kept in memory: (path, hash) entries in insertion order.
pub struct ContentIndex {
    entries: Vec<(String, String)>,
}

impl View for ContentIndex {
    type V = Snapshot;

    closed spec fn view(&self) -> Snapshot {
        snap(self.entries@)
    }
}

impl ContentIndex {
    pub open spec fn wf(&self) -> bool {
        unique_hashes(self@)
    }

    pub fn new() -> (r: ContentIndex)
        ensures
            r.wf(),
            r@ == Seq::<(Seq<char>, Seq<char>)>::empty(),
    {
        let r = ContentIndex { entries: Vec::new() };
        assert(r@ =~= Seq::<(Seq<char>, Seq<char>)>::empty());
        r
    }

    /// The path stored under `hash`, if any.
    pub fn path_for_hash(&self, hash: &String) -> (r: Option<String>)
        ensures
            r matches Some(p) ==> path_of_hash(self@, hash@, 0) == Some(p@),
            r is None ==> path_of_hash(self@, hash@, 0) is None,
    {
        let ghost s = self@;
        let mut k: usize = 0;
        while k < self.entries.len()
            invariant
                s == self@,
                s == snap(self.entries@),
                k <= self.entries.len(),
                path_of_hash(s, hash@, 0) == path_of_hash(s, hash@, k as nat),
            decreases self.entries.len() - k,
        {
            if self.entries[k].1 == *hash {
                return Some(self.entries[k].0.clone());
            }
            k = k + 1;
        }
        None
    }

    /// Inserts `path` under `hash`, unless an entry already holds `hash`: then
    /// the index is left as it was and the insertion is a `DuplicateInsertion`.
    pub fn insert(&mut self, path: &String, hash: &String) -> (r: Result<(), Error>)
        requires
            old(self).wf(),
        ensures
            final(self).wf(),
            path_of_hash(old(self)@, hash@, 0) is None <==> r is Ok,
            r is Ok ==> final(self)@ == old(self)@.push((path@, hash@)),
            path_of_hash(old(self)@, hash@, 0) is Some ==> final(self)@ == old(self)@,
            path_of_hash(old(self)@, hash@, 0) matches Some(o) ==> (r matches Err(
                Error::DuplicateInsertion { path_new: pn, path_old: po },
            ) && pn@ == path@ && po@ == o),
    {
        let existing = self.path_for_hash(hash);
        check_insert(existing, path)?;
        proof {
            lemma_position_of_hash(self@, hash@, 0);
        }
        let ghost before = self@;
        self.entries.push((path.clone(), hash.clone()));
        assert(self@ =~= before.push((path@, hash@)));
        check_inserted_rows(1, path, hash)
    }

    /// Points the entry for `hash` at `path`. Fails with `HashDoesNotExist`,
    /// the index unchanged, when no entry holds `hash`.
    pub fn rebind_path(&mut self, path: &String, hash: &String) -> (r: Result<(), Error>)
        requires
            old(self).wf(),
        ensures
            final(self).wf(),
            path_of_hash(old(self)@, hash@, 0) is Some <==> r is Ok,
            r is Err ==> final(self)@ == old(self)@,
            r is Err ==> (r matches Err(Error::HashDoesNotExist(h)) && h@ == hash@),
            r is Ok ==> final(self)@ == old(self)@.update(
                position_of_hash(old(self)@, hash@, 0)->0 as int,
                (path@, hash@),
            ),
            r is Ok ==> path_of_hash(final(self)@, hash@, 0) == Some(path@),
    {
        let ghost s = self@;
        proof {
            lemma_position_of_hash(s, hash@, 0);
        }
        let mut matched: Vec<String> = Vec::new();
        let mut k: usize = 0;
        while k < self.entries.len()
            invariant
                s == self@,
                s == snap(self.entries@),
                unique_hashes(s),
                k <= self.entries.len(),
                position_of_hash(s, hash@, 0) matches Some(i) ==> (matched@.len() == if i < k {
                    1int
                } else {
                    0int
                }),
                position_of_hash(s, hash@, 0) is None ==> matched@.len() == 0,
                position_of_hash(s, hash@, 0) is None ==> forall|i: int|
                    0 <= i < s.len() ==> #[trigger] s[i].1 != hash@,
            decreases self.entries.len() - k,
        {
            assert(s[k as int] == (self.entries@[k as int].0@, self.entries@[k as int].1@));
            if self.entries[k].1 == *hash {
                matched.push(self.entries[k].0.clone());
            }
            proof {
                lemma_position_of_hash(s, hash@, 0);
                if let Some(i) = position_of_hash(s, hash@, 0) {
                    assert(s[k as int].1 == hash@ <==> i == k);
                }
            }
            k = k + 1;
        }
        check_matched_paths(matched, hash)?;
        let ghost i = position_of_hash(s, hash@, 0)->0 as int;
        let mut rows: usize = 0;
        let mut k: usize = 0;
        while k < self.entries.len()
            invariant
                0 <= i < s.len(),
                s[i].1 == hash@,
                unique_hashes(s),
                self.entries@.len() == s.len(),
                k <= self.entries.len(),
                rows == if i < k {
                    1usize
                } else {
                    0usize
                },
                snap(self.entries@) == if i < k {
                    s.update(i, (path@, hash@))
                } else {
                    s
                },
            decreases self.entries.len() - k,
        {
            if self.entries[k].1 == *hash {
                assert(snap(self.entries@)[k as int].1 == hash@);
                assert(k == i);
                self.entries.set(k, (path.clone(), hash.clone()));
                rows = rows + 1;
                assert(snap(self.entries@) =~= s.update(i, (path@, hash@)));
            } else {
                assert(snap(self.entries@)[k as int] == s[k as int]);
            }
            k = k + 1;
        }
        assert(self@ == s.update(i, (path@, hash@)));
        assert(unique_hashes(self@)) by {
            assert forall|a: int, b: int|
                0 <= a < self@.len() && 0 <= b < self@.len() && a != b implies self@[a].1
                != self@[b].1 by {
                assert(a != i ==> self@[a] == s[a]);
                assert(b != i ==> self@[b] == s[b]);
            }
        }
        proof {
            lemma_position_of_hash(self@, hash@, 0);
            assert(self@[i].1 == hash@);
        }
        check_updated_rows(rows)
    }

    /// Removes the entry for `hash`, returning the path it held; without such
    /// an entry the index is left as it was.
    pub fn remove(&mut self, hash: &String) -> (r: Option<String>)
        requires
            old(self).wf(),
        ensures
            final(self).wf(),
            position_of_hash(old(self)@, hash@, 0) is None ==> r is None && final(self)@ == old(self)@,
            position_of_hash(old(self)@, hash@, 0) matches Some(i) ==> (r matches Some(p) && p@ == old(
                self,
            )@[i as int].0 && final(self)@ == old(self)@.remove(i as int)),
    {
        let ghost s = self@;
        proof {
            lemma_position_of_hash(s, hash@, 0);
        }
        let mut k: usize = 0;
        while k < self.entries.len()
            invariant
                s == self@,
                s == snap(self.entries@),
                s == old(self)@,
                unique_hashes(s),
                k <= self.entries.len(),
                position_of_hash(s, hash@, 0) == position_of_hash(s, hash@, k as nat),
            decreases self.entries.len() - k,
        {
            assert(s[k as int] == (self.entries@[k as int].0@, self.entries@[k as int].1@));
            if self.entries[k].1 == *hash {
                assert(position_of_hash(s, hash@, k as nat) == Some(k as nat));
                let (path, _) = self.entries.remove(k);
                assert(path@ == s[k as int].0);
                assert(self@ =~= s.remove(k as int));
                assert(unique_hashes(self@)) by {
                    assert forall|a: int, b: int|
                        0 <= a < self@.len() && 0 <= b < self@.len() && a != b implies self@[a].1
                        != self@[b].1 by {
                        let a2 = if a < k { a } else { a + 1 };
                        let b2 = if b < k { b } else { b + 1 };
                        assert(self@[a] == s[a2]);
                        assert(self@[b] == s[b2]);
                    }
                }
                return Some(path);
            }
            k = k + 1;
        }
        None
    }

    /// A copy of every entry, as (path, hash) pairs in insertion order.
    pub fn scan_all(&self) -> (r: Vec<(String, String)>)
        ensures
            snap(r@) == self@,
    {
        let mut r: Vec<(String, String)> = Vec::new();
        let mut k: usize = 0;
        while k < self.entries.len()
            invariant
                k <= self.entries.len(),
                r@.len() == k,
                snap(r@) == snap(self.entries@).take(k as int),
            decreases self.entries.len() - k,
        {
            let ghost before = r@;
            r.push((self.entries[k].0.clone(), self.entries[k].1.clone()));
            assert(r@ == before.push(r@[k as int]));
            assert(snap(r@)[k as int] == snap(self.entries@)[k as int]);
            assert(snap(r@) =~= snap(self.entries@).take(k + 1));
            k = k + 1;
        }
        assert(snap(self.entries@).take(k as int) =~= snap(self.entries@));
        r
    }
}

} // verus!
