//! The keyed store state: a namespaced map from byte-string keys to records.
//!
//! The store is modelled as an association list with pairwise-distinct
//! `(column, key)` pairs; its mathematical view is a `Map` from those pairs to
//! record models.  Live transaction views and immutable snapshots both hold a
//! value of this type, so all read-only accessors work unmodified against
//! either.

use vstd::prelude::*;
use crate::types::{bytes_eq, Column, Record, RecordV};
use crate::meta::copy_bytes;

verus! {

/// One stored pair: a column, a key and the record under them.
pub struct KvEntry {
    pub col: Column,
    pub key: Vec<u8>,
    pub value: Record,
}

/// The `(column, key)` pair an entry is stored under.
pub open spec fn entry_key(e: KvEntry) -> (Column, Seq<u8>) {
    (e.col, e.key@)
}

/// The map an entry list denotes; later entries would win, though a
/// well-formed list holds each pair at most once.
pub open spec fn entries_map(s: Seq<KvEntry>) -> Map<(Column, Seq<u8>), RecordV>
    decreases s.len(),
{
    if s.len() == 0 {
        Map::empty()
    } else {
        entries_map(s.drop_last()).insert(entry_key(s.last()), s.last().value@)
    }
}

/// No two entries share a `(column, key)` pair.
pub open spec fn distinct_keys(s: Seq<KvEntry>) -> bool {
    forall|i: int, j: int| 0 <= i < j < s.len() ==> entry_key(s[i]) != entry_key(s[j])
}

/// A pair is in the denoted map exactly when some entry holds it.
pub proof fn lemma_entries_map_contains(s: Seq<KvEntry>, k: (Column, Seq<u8>))
    ensures
        entries_map(s).contains_key(k) <==> (exists|i: int|
            0 <= i < s.len() && entry_key(s[i]) == k),
    decreases s.len(),
{
    if s.len() == 0 {
    } else {
        lemma_entries_map_contains(s.drop_last(), k);
        if entry_key(s.last()) == k {
            assert(entry_key(s[s.len() - 1]) == k);
        } else {
            if entries_map(s).contains_key(k) {
                let i = choose|i: int| 0 <= i < s.drop_last().len() && entry_key(
                    s.drop_last()[i],
                ) == k;
                assert(entry_key(s[i]) == k);
            }
            if exists|i: int| 0 <= i < s.len() && entry_key(s[i]) == k {
                let i = choose|i: int| 0 <= i < s.len() && entry_key(s[i]) == k;
                assert(i != s.len() - 1);
                assert(entry_key(s.drop_last()[i]) == k);
            }
        }
    }
}

/// In a well-formed list the denoted map sends each held pair to the record
/// of the entry holding it.
pub proof fn lemma_entries_map_at(s: Seq<KvEntry>, i: int)
    requires
        distinct_keys(s),
        0 <= i < s.len(),
    ensures
        entries_map(s).contains_key(entry_key(s[i])),
        entries_map(s)[entry_key(s[i])] == s[i].value@,
    decreases s.len(),
{
    if i == s.len() - 1 {
    } else {
        assert(distinct_keys(s.drop_last())) by {
            assert(forall|x: int, y: int|
                0 <= x < y < s.drop_last().len() ==> entry_key(s.drop_last()[x]) != entry_key(
                    s.drop_last()[y],
                ));
        }
        lemma_entries_map_at(s.drop_last(), i);
        assert(s.drop_last()[i] == s[i]);
        assert(entry_key(s[i]) != entry_key(s.last()));
    }
}

/// Replacing the entry of a pair updates the denoted map at that pair alone.
pub proof fn lemma_entries_map_update(s: Seq<KvEntry>, i: int, e: KvEntry)
    requires
        distinct_keys(s),
        0 <= i < s.len(),
        entry_key(e) == entry_key(s[i]),
    ensures
        entries_map(s.update(i, e)) == entries_map(s).insert(entry_key(e), e.value@),
    decreases s.len(),
{
    let s2 = s.update(i, e);
    if i == s.len() - 1 {
        assert(s2.drop_last() =~= s.drop_last());
        assert(entries_map(s).insert(entry_key(e), e.value@) =~= entries_map(
            s.drop_last(),
        ).insert(entry_key(e), e.value@));
    } else {
        assert(distinct_keys(s.drop_last())) by {
            assert(forall|x: int, y: int|
                0 <= x < y < s.drop_last().len() ==> entry_key(s.drop_last()[x]) != entry_key(
                    s.drop_last()[y],
                ));
        }
        assert(s.drop_last()[i] == s[i]);
        lemma_entries_map_update(s.drop_last(), i, e);
        assert(s2.drop_last() =~= s.drop_last().update(i, e));
        assert(s2.last() == s.last());
        assert(entry_key(s[i]) != entry_key(s.last()));
        assert(entries_map(s.drop_last()).insert(entry_key(e), e.value@).insert(
            entry_key(s.last()),
            s.last().value@,
        ) =~= entries_map(s.drop_last()).insert(entry_key(s.last()), s.last().value@).insert(
            entry_key(e),
            e.value@,
        ));
    }
}

/// Removing the entry of a pair removes that pair from the denoted map.
pub proof fn lemma_entries_map_remove(s: Seq<KvEntry>, i: int)
    requires
        distinct_keys(s),
        0 <= i < s.len(),
    ensures
        entries_map(s.remove(i)) == entries_map(s).remove(entry_key(s[i])),
    decreases s.len(),
{
    let k = entry_key(s[i]);
    if i == s.len() - 1 {
        assert(s.remove(i) =~= s.drop_last());
        lemma_entries_map_contains(s.drop_last(), k);
        assert(forall|j: int|
            0 <= j < s.drop_last().len() ==> entry_key(s.drop_last()[j]) == entry_key(s[j]));
        assert(!entries_map(s.drop_last()).contains_key(k));
        assert(entries_map(s.drop_last()) =~= entries_map(s.drop_last()).insert(
            k,
            s.last().value@,
        ).remove(k));
    } else {
        assert(distinct_keys(s.drop_last())) by {
            assert(forall|x: int, y: int|
                0 <= x < y < s.drop_last().len() ==> entry_key(s.drop_last()[x]) != entry_key(
                    s.drop_last()[y],
                ));
        }
        assert(s.drop_last()[i] == s[i]);
        lemma_entries_map_remove(s.drop_last(), i);
        assert(s.remove(i).drop_last() =~= s.drop_last().remove(i));
        assert(s.remove(i).last() == s.last());
        assert(entry_key(s[i]) != entry_key(s.last()));
        assert(entries_map(s.drop_last()).remove(k).insert(
            entry_key(s.last()),
            s.last().value@,
        ) =~= entries_map(s.drop_last()).insert(entry_key(s.last()), s.last().value@).remove(k));
    }
}

/// Lists with pairwise-equal keys and record models denote the same map.
pub proof fn lemma_entries_map_congruent(s1: Seq<KvEntry>, s2: Seq<KvEntry>)
    requires
        s1.len() == s2.len(),
        forall|j: int|
            0 <= j < s1.len() ==> entry_key(s1[j]) == entry_key(s2[j]) && s1[j].value@
                == s2[j].value@,
    ensures
        entries_map(s1) == entries_map(s2),
    decreases s1.len(),
{
    if s1.len() == 0 {
    } else {
        assert(forall|j: int|
            0 <= j < s1.drop_last().len() ==> s1.drop_last()[j] == s1[j] && s2.drop_last()[j]
                == s2[j]);
        lemma_entries_map_congruent(s1.drop_last(), s2.drop_last());
        assert(s1.last() == s1[s1.len() - 1] && s2.last() == s2[s1.len() - 1]);
    }
}

/// The keyed store state.
pub struct KvMap {
    pub entries: Vec<KvEntry>,
}

impl View for KvMap {
    type V = Map<(Column, Seq<u8>), RecordV>;

    open spec fn view(&self) -> Map<(Column, Seq<u8>), RecordV> {
        entries_map(self.entries@)
    }
}

impl KvMap {
    /// The entry list holds each `(column, key)` pair at most once.
    pub open spec fn wf(&self) -> bool {
        distinct_keys(self.entries@)
    }

    /// An empty store.
    pub fn new() -> (r: KvMap)
        ensures
            r.wf(),
            r@ == Map::<(Column, Seq<u8>), RecordV>::empty(),
    {
        KvMap { entries: Vec::new() }
    }

    /// The position of the entry holding a pair, if any.
    fn find(&self, col: Column, key: &Vec<u8>) -> (r: Option<usize>)
        ensures
            match r {
                Some(i) => i < self.entries@.len() && entry_key(self.entries@[i as int]) == (
                    col,
                    key@,
                ),
                None => forall|i: int|
                    0 <= i < self.entries@.len() ==> entry_key(self.entries@[i]) != (col, key@),
            },
    {
        let mut i: usize = 0;
        while i < self.entries.len()
            invariant
                i <= self.entries@.len(),
                forall|j: int| 0 <= j < i ==> entry_key(self.entries@[j]) != (col, key@),
            decreases self.entries@.len() - i,
        {
            let e = &self.entries[i];
            if e.col == col && bytes_eq(&e.key, key) {
                return Some(i);
            }
            i = i + 1;
        }
        None
    }

    /// The record under a pair, if any.
    pub fn get(&self, col: Column, key: &Vec<u8>) -> (r: Option<&Record>)
        requires
            self.wf(),
        ensures
            match r {
                Some(rec) => self@.contains_key((col, key@)) && rec@ == self@[(col, key@)],
                None => !self@.contains_key((col, key@)),
            },
    {
        match self.find(col, key) {
            Some(i) => {
                proof {
                    lemma_entries_map_at(self.entries@, i as int);
                }
                Some(&self.entries[i].value)
            },
            None => {
                proof {
                    lemma_entries_map_contains(self.entries@, (col, key@));
                }
                None
            },
        }
    }

    /// Stores a record under a pair, replacing any record already there.
    pub fn put(&mut self, col: Column, key: Vec<u8>, value: Record)
        requires
            old(self).wf(),
        ensures
            final(self).wf(),
            final(self)@ == old(self)@.insert((col, key@), value@),
    {
        let ghost k = (col, key@);
        match self.find(col, &key) {
            Some(i) => {
                let e = KvEntry { col, key, value };
                proof {
                    lemma_entries_map_update(self.entries@, i as int, e);
                }
                self.entries.set(i, e);
                proof {
                    assert(forall|x: int, y: int|
                        0 <= x < y < self.entries@.len() ==> entry_key(self.entries@[x])
                            != entry_key(self.entries@[y]));
                }
            },
            None => {
                let e = KvEntry { col, key, value };
                proof {
                    lemma_entries_map_contains(self.entries@, k);
                    assert(self.entries@.push(e).drop_last() =~= self.entries@);
                }
                self.entries.push(e);
                proof {
                    assert(forall|x: int, y: int|
                        0 <= x < y < self.entries@.len() ==> entry_key(self.entries@[x])
                            != entry_key(self.entries@[y]));
                }
            },
        }
    }

    /// Deletes the record under a pair; a pair not held is left as it is.
    pub fn delete(&mut self, col: Column, key: &Vec<u8>)
        requires
            old(self).wf(),
        ensures
            final(self).wf(),
            final(self)@ == old(self)@.remove((col, key@)),
    {
        let ghost k = (col, key@);
        match self.find(col, key) {
            Some(i) => {
                proof {
                    lemma_entries_map_remove(self.entries@, i as int);
                }
                self.entries.remove(i);
                proof {
                    assert(forall|x: int, y: int|
                        0 <= x < y < self.entries@.len() ==> entry_key(self.entries@[x])
                            != entry_key(self.entries@[y]));
                }
            },
            None => {
                proof {
                    lemma_entries_map_contains(self.entries@, k);
                    assert(old(self)@ =~= old(self)@.remove(k));
                }
            },
        }
    }

    /// An owned copy with the same contents.
    pub fn duplicate(&self) -> (r: KvMap)
        requires
            self.wf(),
        ensures
            r.wf(),
            r@ == self@,
    {
        let mut entries: Vec<KvEntry> = Vec::new();
        let mut i: usize = 0;
        while i < self.entries.len()
            invariant
                i <= self.entries@.len(),
                entries@.len() == i,
                forall|j: int|
                    0 <= j < i ==> entry_key(entries@[j]) == entry_key(self.entries@[j])
                        && entries@[j].value@ == self.entries@[j].value@,
            decreases self.entries@.len() - i,
        {
            let e = &self.entries[i];
            entries.push(KvEntry { col: e.col, key: copy_bytes(&e.key), value: e.value.duplicate() });
            i = i + 1;
        }
        let r = KvMap { entries };
        proof {
            lemma_entries_map_congruent(r.entries@, self.entries@);
            assert(distinct_keys(r.entries@)) by {
                assert(forall|x: int, y: int|
                    0 <= x < y < r.entries@.len() ==> entry_key(r.entries@[x]) != entry_key(
                        r.entries@[y],
                    ));
            }
        }
        r
    }
}

} // verus!
