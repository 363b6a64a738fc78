//! The in-memory record set behind the document store: one document per
//! source, re-insertion replaces.  The durable half (the backing file, its
//! exclusive lock, the rewrite-and-sync discipline) lives with the process
//! around the library; everything it decides and computes is here.

use vstd::prelude::*;
use vstd::string::StringExecFns;

use crate::errors::StoreError;

verus! {

/// The structured result of successfully fetching and parsing one source.
/// The core query contract covers its title.
#[derive(Debug)]
pub struct Channel {
    pub title: String,
}

impl View for Channel {
    type V = Seq<char>;

    open spec fn view(&self) -> Seq<char> {
        self.title@
    }
}

impl Clone for Channel {
    fn clone(&self) -> (r: Self)
        ensures
            r == *self,
    {
        Channel { title: self.title.clone() }
    }
}

/// One record: a source identifier and the last document fetched for it.
pub type Record = (Seq<char>, Seq<char>);

/// No two records share a source.
pub open spec fn unique_keys(s: Seq<Record>) -> bool {
    forall|i: int, j: int| 0 <= i < j < s.len() ==> s[i].0 != s[j].0
}

/// Some record carries this source.
pub open spec fn has_key(s: Seq<Record>, k: Seq<char>) -> bool {
    exists|i: int| 0 <= i < s.len() && s[i].0 == k
}

/// The index of the record carrying this source (unique when keys are).
pub open spec fn key_index(s: Seq<Record>, k: Seq<char>) -> int {
    choose|i: int| 0 <= i < s.len() && s[i].0 == k
}

/// Inserting a record replaces in place when the source is present and
/// appends when it is not.
pub open spec fn spec_upsert(s: Seq<Record>, k: Seq<char>, v: Seq<char>) -> Seq<Record> {
    if has_key(s, k) {
        s.update(key_index(s, k), (k, v))
    } else {
        s.push((k, v))
    }
}

/// The record set read as a mapping from source to document; later records
/// win, which is moot once keys are unique.
pub open spec fn seq_to_map(s: Seq<Record>) -> Map<Seq<char>, Seq<char>>
    decreases s.len(),
{
    if s.len() == 0 {
        Map::empty()
    } else {
        seq_to_map(s.drop_last()).insert(s.last().0, s.last().1)
    }
}

/// The full record set: at most one document per source at any time.
pub struct RecordSet {
    entries: Vec<(String, Channel)>,
}

impl RecordSet {
    /// The records, in insertion order.
    pub closed spec fn view(&self) -> Seq<Record> {
        self.entries@.map_values(|e: (String, Channel)| (e.0@, e.1@))
    }

    pub open spec fn wf(&self) -> bool {
        unique_keys(self@)
    }

    /// An absent backing file is an empty record set.
    pub fn new() -> (r: RecordSet)
        ensures
            r@ == Seq::<Record>::empty(),
            r.wf(),
    {
        let r = RecordSet { entries: Vec::new() };
        proof {
            assert(r@ =~= Seq::<Record>::empty());
        }
        r
    }

    pub fn len(&self) -> (n: usize)
        ensures
            n == self@.len(),
    {
        self.entries.len()
    }

    /// Borrow the record at an index: its source and its document.
    pub fn entry_at(&self, i: usize) -> (e: &(String, Channel))
        requires
            i < self@.len(),
        ensures
            e.0@ == self@[i as int].0,
            e.1@ == self@[i as int].1,
    {
        &self.entries[i]
    }

    /// Store `channel` as the last known document for `source`, replacing
    /// whatever was there: the store is a map, not a log.
    pub fn upsert(&mut self, source: String, channel: Channel)
        requires
            old(self).wf(),
        ensures
            final(self).wf(),
            final(self)@ == spec_upsert(old(self)@, source@, channel@),
    {
        let ghost s0 = self@;
        let mut i: usize = 0;
        while i < self.entries.len()
            invariant
                s0 == old(self)@,
                self@ == s0,
                unique_keys(s0),
                i <= s0.len(),
                self.entries@.len() == s0.len(),
                forall|j: int| 0 <= j < i ==> s0[j].0 != source@,
            decreases self.entries@.len() - i,
        {
            proof {
                assert(s0[i as int] == (self.entries@[i as int].0@, self.entries@[i as int].1@));
            }
            if self.entries[i].0 == source {
                let ghost idx = i as int;
                self.entries.remove(i);
                self.entries.insert(i, (source, channel));
                proof {
                    assert(has_key(s0, source@));
                    let w = key_index(s0, source@);
                    assert(0 <= w < s0.len() && s0[w].0 == source@);
                    assert(w == idx) by {
                        if w != idx {
                            if w < idx {
                                assert(s0[w].0 != s0[idx].0);
                            } else {
                                assert(s0[idx].0 != s0[w].0);
                            }
                        }
                    }
                    assert(self@ =~= s0.update(idx, (source@, channel@)));
                    assert(unique_keys(self@)) by {
                        assert(forall|a: int, b: int|
                            0 <= a < b < self@.len() ==> self@[a].0 != self@[b].0) by {
                            assert(forall|a: int|
                                0 <= a < self@.len() ==> self@[a].0 == s0[a].0);
                        }
                    }
                    assert(spec_upsert(s0, source@, channel@) == s0.update(idx, (source@, channel@)));
                }
                return ;
            }
            i = i + 1;
        }
        self.entries.push((source, channel));
        proof {
            assert(!has_key(s0, source@));
            assert(self@ =~= s0.push((source@, channel@)));
            assert(unique_keys(self@)) by {
                assert(forall|a: int| 0 <= a < s0.len() ==> self@[a].0 == s0[a].0);
                assert(self@[s0.len() as int].0 == source@);
            }
        }
    }

    /// All current documents, one per source, in unspecified order.
    pub fn get_channels(&self) -> (r: Vec<Channel>)
        ensures
            r@.len() == self@.len(),
            forall|i: int| 0 <= i < r@.len() ==> r@[i]@ == self@[i].1,
    {
        let mut r: Vec<Channel> = Vec::new();
        let mut i: usize = 0;
        while i < self.entries.len()
            invariant
                i <= self@.len(),
                self.entries@.len() == self@.len(),
                r@.len() == i,
                forall|j: int| 0 <= j < i ==> r@[j]@ == self@[j].1,
            decreases self.entries@.len() - i,
        {
            r.push(self.entries[i].1.clone());
            i = i + 1;
        }
        r
    }
}

/// Replaying a list of records into an empty set, one upsert each.
pub open spec fn replay(entries: Seq<Record>) -> Seq<Record>
    decreases entries.len(),
{
    if entries.len() == 0 {
        Seq::empty()
    } else {
        spec_upsert(replay(entries.drop_last()), entries.last().0, entries.last().1)
    }
}

/// Dedup and idempotence of upsert: after storing `d1` and then `d2` for the
/// same source, exactly one record carries that source, and it holds `d2`;
/// every other source's document is untouched.
pub proof fn lemma_upsert_dedup(s: Seq<Record>, k: Seq<char>, d1: Seq<char>, d2: Seq<char>)
    requires
        unique_keys(s),
    ensures
        ({
            let s2 = spec_upsert(spec_upsert(s, k, d1), k, d2);
            &&& unique_keys(s2)
            &&& s2.filter(|r: Record| r.0 == k).len() == 1
            &&& s2[key_index(s2, k)] == (k, d2)
            &&& forall|i: int|
                0 <= i < s2.len() && s2[i].0 != k ==> 0 <= i < s.len() && s2[i] == s[i]
        }),
{
    let s1 = spec_upsert(s, k, d1);
    lemma_upsert_shape(s, k, d1);
    lemma_upsert_shape(s1, k, d2);
    let s2 = spec_upsert(s1, k, d2);
    lemma_unique_filter_one(s2, k, key_index(s2, k));
}

/// After an upsert the source is present exactly once, at a stable index,
/// with the new document; all other records are exactly the old ones.
pub proof fn lemma_upsert_shape(s: Seq<Record>, k: Seq<char>, v: Seq<char>)
    requires
        unique_keys(s),
    ensures
        ({
            let s1 = spec_upsert(s, k, v);
            &&& unique_keys(s1)
            &&& has_key(s1, k)
            &&& 0 <= key_index(s1, k) < s1.len()
            &&& s1[key_index(s1, k)] == (k, v)
            &&& forall|i: int|
                0 <= i < s1.len() && s1[i].0 != k ==> 0 <= i < s.len() && s1[i] == s[i]
        }),
{
    let s1 = spec_upsert(s, k, v);
    if has_key(s, k) {
        let w = key_index(s, k);
        assert(0 <= w < s.len() && s[w].0 == k);
        assert(unique_keys(s1)) by {
            assert(forall|a: int| 0 <= a < s1.len() ==> s1[a].0 == s[a].0);
        }
        assert(s1[w] == (k, v));
        assert(has_key(s1, k));
        let w1 = key_index(s1, k);
        assert(0 <= w1 < s1.len() && s1[w1].0 == k);
        assert(w1 == w) by {
            if w1 != w {
                if w1 < w {
                    assert(s1[w1].0 != s1[w].0);
                } else {
                    assert(s1[w].0 != s1[w1].0);
                }
            }
        }
    } else {
        assert(s1[s.len() as int] == (k, v));
        assert(has_key(s1, k));
        assert(unique_keys(s1)) by {
            assert(forall|a: int| 0 <= a < s.len() ==> s1[a] == s[a]);
        }
        let w1 = key_index(s1, k);
        assert(0 <= w1 < s1.len() && s1[w1].0 == k);
        assert(w1 == s.len()) by {
            if w1 < s.len() {
                assert(has_key(s, k)) by {
                    assert(s[w1].0 == k);
                }
            }
        }
    }
}

/// With unique keys, filtering for one present source keeps exactly its one
/// record.
proof fn lemma_unique_filter_one(s: Seq<Record>, k: Seq<char>, w: int)
    requires
        unique_keys(s),
        0 <= w < s.len(),
        s[w].0 == k,
    ensures
        s.filter(|r: Record| r.0 == k).len() == 1,
    decreases s.len(),
{
    reveal(Seq::filter);
    let pred = |r: Record| r.0 == k;
    if w == s.len() - 1 {
        assert(s.drop_last().filter(pred).len() == 0) by {
            lemma_unique_filter_none(s.drop_last(), k);
            assert(unique_keys(s.drop_last())) by {
                assert(forall|a: int|
                    0 <= a < s.len() - 1 ==> s.drop_last()[a] == s[a]);
            }
        }
    } else {
        assert(s.drop_last()[w] == s[w]);
        assert(unique_keys(s.drop_last())) by {
            assert(forall|a: int| 0 <= a < s.len() - 1 ==> s.drop_last()[a] == s[a]);
        }
        lemma_unique_filter_one(s.drop_last(), k, w);
        assert(s.last().0 != k) by {
            assert(s[w].0 != s[s.len() - 1].0);
        }
    }
}

/// With unique keys and the source absent, the filter keeps nothing.
proof fn lemma_unique_filter_none(s: Seq<Record>, k: Seq<char>)
    requires
        !has_key(s, k),
    ensures
        s.filter(|r: Record| r.0 == k).len() == 0,
    decreases s.len(),
{
    reveal(Seq::filter);
    if s.len() > 0 {
        assert(!has_key(s.drop_last(), k)) by {
            assert(forall|a: int| 0 <= a < s.len() - 1 ==> s.drop_last()[a] == s[a]);
        }
        lemma_unique_filter_none(s.drop_last(), k);
        assert(s.last().0 != k) by {
            assert(s[s.len() - 1].0 == s.last().0);
        }
    }
}

/// Updating one record in place updates the mapping at its source alone.
proof fn lemma_seq_to_map_update(s: Seq<Record>, w: int, v: Seq<char>)
    requires
        unique_keys(s),
        0 <= w < s.len(),
    ensures
        seq_to_map(s.update(w, (s[w].0, v))) =~= seq_to_map(s).insert(s[w].0, v),
    decreases s.len(),
{
    let k = s[w].0;
    let t = s.update(w, (k, v));
    if w == s.len() - 1 {
        assert(t.drop_last() =~= s.drop_last());
        assert(t.last() == (k, v));
        assert(seq_to_map(t) == seq_to_map(s.drop_last()).insert(k, v));
        assert(s.last().0 == k);
        assert(seq_to_map(s) == seq_to_map(s.drop_last()).insert(k, s.last().1));
        assert(seq_to_map(s.drop_last()).insert(k, s.last().1).insert(k, v)
            =~= seq_to_map(s.drop_last()).insert(k, v));
    } else {
        let s0 = s.drop_last();
        assert(unique_keys(s0)) by {
            assert(forall|a: int| 0 <= a < s0.len() ==> s0[a] == s[a]);
        }
        assert(s0[w] == s[w]);
        lemma_seq_to_map_update(s0, w, v);
        assert(t.drop_last() =~= s0.update(w, (k, v)));
        assert(t.last() == s.last());
        assert(seq_to_map(t) == seq_to_map(s0.update(w, (k, v))).insert(s.last().0, s.last().1));
        assert(k != s.last().0) by {
            assert(s[w].0 != s[s.len() - 1].0);
        }
        assert(seq_to_map(s0).insert(k, v).insert(s.last().0, s.last().1) =~= seq_to_map(
            s0,
        ).insert(s.last().0, s.last().1).insert(k, v));
    }
}

/// The store is a map, not a log: an upsert changes the source-to-document
/// mapping exactly by binding the one source to the new document.
pub proof fn lemma_store_is_a_map(s: Seq<Record>, k: Seq<char>, v: Seq<char>)
    requires
        unique_keys(s),
    ensures
        seq_to_map(spec_upsert(s, k, v)) == seq_to_map(s).insert(k, v),
{
    if has_key(s, k) {
        let w = key_index(s, k);
        assert(0 <= w < s.len() && s[w].0 == k);
        lemma_seq_to_map_update(s, w, v);
        assert(seq_to_map(spec_upsert(s, k, v)) =~= seq_to_map(s).insert(k, v));
    } else {
        let t = s.push((k, v));
        assert(t.drop_last() =~= s);
        assert(t.last() == (k, v));
        assert(seq_to_map(t) == seq_to_map(s).insert(k, v));
    }
}

/// The store-open verdict, from what the advisory file lock reported:
/// the lock acquired, the lock already held by another live holder, or a
/// plain I/O failure.  Holding the lock is the one way to a usable store;
/// the two failures stay distinguished.
pub fn interpret_lock_result(outcome: Result<bool, String>) -> (r: Result<(), StoreError>)
    ensures
        match outcome {
            Ok(acquired) => if acquired {
                r is Ok
            } else {
                r matches Err(StoreError::Lock { detail }) && detail@
                    == "unable to acquire the store's write lock: is another process already running?"@
            },
            Err(d) => (r matches Err(StoreError::Io { detail }) && detail@ == d@),
        },
{
    match outcome {
        Ok(true) => Ok(()),
        Ok(false) => Err(
            StoreError::Lock {
                detail: String::from_str(
                    "unable to acquire the store's write lock: is another process already running?",
                ),
            },
        ),
        Err(d) => Err(StoreError::Io { detail: d }),
    }
}

} // verus!
