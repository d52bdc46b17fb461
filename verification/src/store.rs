//! The bucket store: an exact-key value store holding measurement buckets,
//! together with the thin read/write adapter that addresses buckets by
//! (sensor identifier, measurement kind, sequence number).
//!
//! The store offers only get and set by exact key — no range scan — so every
//! mutation is a full read of a bucket, an append in memory, and a full
//! rewrite.  Reading an absent bucket yields the empty bucket; absence is not
//! an error.  The store never holds an empty bucket: buckets exist from their
//! first write on.

use vstd::prelude::*;
use crate::keys::{key_bytes, to_measurement_key};
use crate::types::{MeasurementType, MeasurementValue};

verus! {

/// The abstract content of a store: a finite map from key bytes to bucket
/// contents.
pub type StoreMap = Map<Seq<u8>, Seq<MeasurementValue>>;

/// What a key denotes in a store map: its bucket, or the empty bucket if
/// the key is absent.
pub open spec fn bucket_or_empty(m: StoreMap, k: Seq<u8>) -> Seq<MeasurementValue> {
    if m.contains_key(k) {
        m[k]
    } else {
        Seq::empty()
    }
}

/// The map denoted by a list of key/bucket entries with pairwise distinct
/// keys.
pub open spec fn map_of(es: Seq<(Vec<u8>, Vec<MeasurementValue>)>) -> StoreMap {
    Map::new(
        |k: Seq<u8>| exists|i: int| 0 <= i < es.len() && es[i].0@ == k,
        |k: Seq<u8>|
            es[choose|i: int| 0 <= i < es.len() && es[i].0@ == k].1@,
    )
}

/// Pairwise distinct keys.
pub open spec fn keys_distinct(es: Seq<(Vec<u8>, Vec<MeasurementValue>)>) -> bool {
    forall|i: int, j: int| 0 <= i < j < es.len() ==> es[i].0@ != es[j].0@
}

/// An entry with key `es[i].0@` maps to the bucket stored beside it.
pub proof fn lemma_map_of_at(es: Seq<(Vec<u8>, Vec<MeasurementValue>)>, i: int)
    requires
        keys_distinct(es),
        0 <= i < es.len(),
    ensures
        map_of(es).contains_key(es[i].0@),
        map_of(es)[es[i].0@] == es[i].1@,
{
    let k = es[i].0@;
    assert(map_of(es).contains_key(k));
    let j = choose|j: int| 0 <= j < es.len() && es[j].0@ == k;
    assert(j == i);
}

/// A key matching no entry is absent from the map.
pub proof fn lemma_map_of_absent(es: Seq<(Vec<u8>, Vec<MeasurementValue>)>, k: Seq<u8>)
    requires
        forall|i: int| 0 <= i < es.len() ==> es[i].0@ != k,
    ensures
        !map_of(es).contains_key(k),
{
}

/// Byte-string equality.
pub(crate) fn bytes_eq(a: &Vec<u8>, b: &Vec<u8>) -> (r: bool)
    ensures
        r == (a@ == b@),
{
    if a.len() != b.len() {
        assert(a@ != b@);
        return false;
    }
    let mut i: usize = 0;
    while i < a.len()
        invariant
            i <= a.len(),
            a@.len() == b@.len(),
            forall|j: int| 0 <= j < i ==> a@[j] == b@[j],
        decreases a.len() - i,
    {
        if a[i] != b[i] {
            assert(a@ != b@);
            return false;
        }
        i += 1;
    }
    assert(a@ =~= b@);
    true
}

/// An exact copy of a bucket.
fn copy_bucket(v: &Vec<MeasurementValue>) -> (r: Vec<MeasurementValue>)
    ensures
        r@ == v@,
{
    let mut r: Vec<MeasurementValue> = Vec::new();
    let mut i: usize = 0;
    while i < v.len()
        invariant
            i <= v.len(),
            r@ == v@.take(i as int),
        decreases v.len() - i,
    {
        r.push(v[i]);
        assert(r@ =~= v@.take(i + 1));
        i += 1;
    }
    assert(r@ =~= v@);
    r
}

/// The measurement store, keyed by the fixed-width bucket key.
pub struct BucketStore {
    entries: Vec<(Vec<u8>, Vec<MeasurementValue>)>,
}

impl View for BucketStore {
    type V = StoreMap;

    closed spec fn view(&self) -> StoreMap {
        map_of(self.entries@)
    }
}

impl BucketStore {
    /// Well-formed: one entry per key, and no entry holds an empty bucket.
    pub closed spec fn wf(&self) -> bool {
        &&& keys_distinct(self.entries@)
        &&& forall|i: int| 0 <= i < self.entries@.len() ==> self.entries@[i].1@.len() > 0
    }

    /// Every bucket of a well-formed store is non-empty.
    pub proof fn lemma_no_empty_buckets(&self, k: Seq<u8>)
        requires
            self.wf(),
            self@.contains_key(k),
        ensures
            self@[k].len() > 0,
    {
        let i = choose|i: int| 0 <= i < self.entries@.len() && self.entries@[i].0@ == k;
        lemma_map_of_at(self.entries@, i);
    }

    /// An empty store.
    pub fn new() -> (s: BucketStore)
        ensures
            s.wf(),
            s@ == StoreMap::empty(),
    {
        let s = BucketStore { entries: Vec::new() };
        proof {
            assert(s@ =~= StoreMap::empty());
        }
        s
    }

    /// The entry index holding `key`, if any.
    fn find(&self, key: &Vec<u8>) -> (r: Option<usize>)
        ensures
            match r {
                Some(i) => 0 <= i < self.entries@.len() && self.entries@[i as int].0@ == key@,
                None => forall|i: int| 0 <= i < self.entries@.len() ==> self.entries@[i].0@ != key@,
            },
    {
        let mut i: usize = 0;
        while i < self.entries.len()
            invariant
                i <= self.entries@.len(),
                forall|j: int| 0 <= j < i ==> self.entries@[j].0@ != key@,
            decreases self.entries@.len() - i,
        {
            if bytes_eq(&self.entries[i].0, key) {
                return Some(i);
            }
            i += 1;
        }
        None
    }

    /// Reads the bucket stored under `key`, or the empty bucket if absent.
    pub fn read_key(&self, key: &Vec<u8>) -> (r: Vec<MeasurementValue>)
        requires
            self.wf(),
        ensures
            r@ == bucket_or_empty(self@, key@),
    {
        match self.find(key) {
            Some(i) => {
                proof {
                    lemma_map_of_at(self.entries@, i as int);
                }
                copy_bucket(&self.entries[i].1)
            },
            None => {
                proof {
                    lemma_map_of_absent(self.entries@, key@);
                }
                Vec::new()
            },
        }
    }

    /// Replaces the bucket stored under `key` wholesale.
    pub fn write_key(&mut self, key: Vec<u8>, vals: Vec<MeasurementValue>)
        requires
            old(self).wf(),
            vals@.len() > 0,
        ensures
            final(self).wf(),
            final(self)@ == old(self)@.insert(key@, vals@),
    {
        let ghost es = self.entries@;
        match self.find(&key) {
            Some(i) => {
                let ghost k = key@;
                self.entries[i] = (key, vals);
                proof {
                    let after = self.entries@;
                    assert(keys_distinct(after)) by {
                        assert(forall|j: int|
                            0 <= j < after.len() ==> after[j].0@ == es[j].0@);
                    }
                    assert forall|q: Seq<u8>| #[trigger]
                        map_of(after).contains_key(q) == map_of(es).insert(k, vals@).contains_key(
                        q) by {
                        if exists|j: int| 0 <= j < after.len() && after[j].0@ == q {
                            let j = choose|j: int| 0 <= j < after.len() && after[j].0@ == q;
                            assert(es[j].0@ == q);
                        }
                        if exists|j: int| 0 <= j < es.len() && es[j].0@ == q {
                            let j = choose|j: int| 0 <= j < es.len() && es[j].0@ == q;
                            assert(after[j].0@ == q);
                        }
                    }
                    assert forall|q: Seq<u8>| map_of(after).contains_key(q) implies #[trigger]
                        map_of(after)[q] == map_of(es).insert(k, vals@)[q] by {
                        let j = choose|j: int| 0 <= j < after.len() && after[j].0@ == q;
                        lemma_map_of_at(after, j);
                        if q == k {
                            assert(j == i as int);
                        } else {
                            assert(j != i as int);
                            lemma_map_of_at(es, j);
                        }
                    }
                    assert(map_of(after) =~= map_of(es).insert(k, vals@));
                }
            },
            None => {
                let ghost k = key@;
                self.entries.push((key, vals));
                proof {
                    let after = self.entries@;
                    assert(after =~= es.push((after[es.len() as int].0, after[es.len() as int].1)));
                    assert(keys_distinct(after)) by {
                        assert(forall|j: int| 0 <= j < es.len() ==> after[j].0@ == es[j].0@);
                        assert(after[es.len() as int].0@ == k);
                    }
                    assert forall|q: Seq<u8>| #[trigger]
                        map_of(after).contains_key(q) == map_of(es).insert(k, vals@).contains_key(
                        q) by {
                        if exists|j: int| 0 <= j < after.len() && after[j].0@ == q {
                            let j = choose|j: int| 0 <= j < after.len() && after[j].0@ == q;
                            if j < es.len() {
                                assert(es[j].0@ == q);
                            } else {
                                assert(q == k);
                            }
                        }
                        if q != k && exists|j: int| 0 <= j < es.len() && es[j].0@ == q {
                            let j = choose|j: int| 0 <= j < es.len() && es[j].0@ == q;
                            assert(after[j].0@ == q);
                        }
                    }
                    assert forall|q: Seq<u8>| map_of(after).contains_key(q) implies #[trigger]
                        map_of(after)[q] == map_of(es).insert(k, vals@)[q] by {
                        let j = choose|j: int| 0 <= j < after.len() && after[j].0@ == q;
                        lemma_map_of_at(after, j);
                        if q == k {
                            assert(j == es.len() as int);
                        } else {
                            assert(j < es.len());
                            lemma_map_of_at(es, j);
                        }
                    }
                    assert(map_of(after) =~= map_of(es).insert(k, vals@));
                }
            },
        }
    }

    /// Reads the bucket of (sensor, kind, sequence number), or the empty
    /// bucket if none was written yet.
    pub fn read(&self, id: &Vec<u8>, t: MeasurementType, seq_no: u64) -> (r: Vec<MeasurementValue>)
        requires
            self.wf(),
            id@.len() == 8,
        ensures
            r@ == bucket_or_empty(self@, key_bytes(id@, t, seq_no)),
    {
        let key = to_measurement_key(id, t, seq_no);
        self.read_key(&key)
    }

    /// Replaces the bucket of (sensor, kind, sequence number) wholesale.
    pub fn write(&mut self, id: &Vec<u8>, t: MeasurementType, seq_no: u64, vals: Vec<MeasurementValue>)
        requires
            old(self).wf(),
            id@.len() == 8,
            vals@.len() > 0,
        ensures
            final(self).wf(),
            final(self)@ == old(self)@.insert(key_bytes(id@, t, seq_no), vals@),
    {
        let key = to_measurement_key(id, t, seq_no);
        self.write_key(key, vals);
    }
}

} // verus!
