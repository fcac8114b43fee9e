//! A table from content hashes to values.

use vstd::prelude::*;
use crate::bytes::bytes_eq;
use crate::types::Digest;

verus! {

/// Decides whether two hashes are the same.
pub fn hash_eq(a: &Digest, b: &Digest) -> (r: bool)
    ensures
        r == (*a == *b),
{
    let r: bool = bytes_eq(a.as_slice(), b.as_slice());
    proof {
        if r {
            assert(*a =~= *b);
        }
    }
    r
}

/// Decides whether `h` occurs in `list`.
pub fn hash_list_contains(list: &Vec<Digest>, h: &Digest) -> (r: bool)
    ensures
        r == list@.contains(*h),
{
    let mut i: usize = 0;
    while i < list.len()
        invariant
            i <= list.len(),
            forall|k: int| 0 <= k < i ==> list@[k] != *h,
        decreases list.len() - i,
    {
        if hash_eq(&list[i], h) {
            return true;
        }
        i = i + 1;
    }
    false
}

/// The number of buckets of a table.
pub const BUCKET_COUNT: usize = 4096;

/// The bucket of a hash: its first two bytes, as a number below
/// `BUCKET_COUNT`.
pub open spec fn bucket_of(h: Digest) -> int {
    (h@[0] as int + 256 * (h@[1] as int)) % (BUCKET_COUNT as int)
}

/// Computes `bucket_of`.
fn bucket_index(h: &Digest) -> (b: usize)
    ensures
        b == bucket_of(*h),
        b < BUCKET_COUNT,
{
    let low: usize = h[0] as usize;
    let high: usize = h[1] as usize;
    (low + 256 * high) % BUCKET_COUNT
}

/// A table from hashes to values, in the order in which the hashes first
/// came. Each hash is found through its bucket.
pub struct HashTable<V> {
    keys: Vec<Digest>,
    values: Vec<V>,
    /// For each bucket the positions of its hashes in `keys`.
    buckets: Vec<Vec<usize>>,
}

impl<V> View for HashTable<V> {
    type V = Map<Digest, V>;

    closed spec fn view(&self) -> Map<Digest, V> {
        Map::new(
            |h: Digest| self.keys@.contains(h),
            |h: Digest| self.values@[self.keys@.index_of(h)],
        )
    }
}

impl<V> HashTable<V> {
    /// Each hash has one entry, and its position stands in its bucket.
    pub closed spec fn wf(&self) -> bool {
        &&& self.keys@.len() == self.values@.len()
        &&& self.keys@.no_duplicates()
        &&& self.buckets@.len() == BUCKET_COUNT
        &&& forall|b: int, j: int|
            0 <= b < BUCKET_COUNT && 0 <= j < self.buckets@[b]@.len() ==> {
                &&& (#[trigger] self.buckets@[b]@[j]) < self.keys@.len()
                &&& bucket_of(self.keys@[self.buckets@[b]@[j] as int]) == b
            }
        &&& forall|p: usize|
            p < self.keys@.len() ==> self.buckets@[bucket_of(
                #[trigger] self.keys@[p as int],
            )]@.contains(p)
    }

    /// The hashes of the table in the order in which they first came.
    pub closed spec fn key_seq(&self) -> Seq<Digest> {
        self.keys@
    }

    /// The hashes in order are those of the map, each once.
    pub proof fn lemma_key_seq(&self)
        requires
            self.wf(),
        ensures
            self.key_seq().no_duplicates(),
            forall|h: Digest| self.key_seq().contains(h) <==> self@.contains_key(h),
    {
    }

    /// The empty table.
    pub fn new() -> (t: Self)
        ensures
            t.wf(),
            t@ == Map::<Digest, V>::empty(),
            t.key_seq() == Seq::<Digest>::empty(),
    {
        let mut buckets: Vec<Vec<usize>> = Vec::new();
        let mut b: usize = 0;
        while b < BUCKET_COUNT
            invariant
                b <= BUCKET_COUNT,
                buckets@.len() == b,
                forall|k: int| 0 <= k < b ==> (#[trigger] buckets@[k])@.len() == 0,
            decreases BUCKET_COUNT - b,
        {
            buckets.push(Vec::new());
            b = b + 1;
        }
        let t = HashTable { keys: Vec::new(), values: Vec::new(), buckets };
        assert(t@ =~= Map::<Digest, V>::empty());
        t
    }

    /// The number of entries.
    pub fn len(&self) -> (n: usize)
        requires
            self.wf(),
        ensures
            n == self.key_seq().len(),
    {
        self.keys.len()
    }

    /// The hash at position `i`.
    pub fn key_at(&self, i: usize) -> (h: &Digest)
        requires
            self.wf(),
            i < self.key_seq().len(),
        ensures
            *h == self.key_seq()[i as int],
    {
        &self.keys[i]
    }

    /// The value at position `i`.
    pub fn value_at(&self, i: usize) -> (v: &V)
        requires
            self.wf(),
            i < self.key_seq().len(),
        ensures
            self@.contains_key(self.key_seq()[i as int]),
            *v == self@[self.key_seq()[i as int]],
    {
        proof {
            self.lemma_position(i as int);
        }
        &self.values[i]
    }

    proof fn lemma_position(&self, i: int)
        requires
            self.keys@.no_duplicates(),
            0 <= i < self.keys@.len(),
        ensures
            self.keys@.contains(self.keys@[i]),
            self.keys@.index_of(self.keys@[i]) == i,
    {
        let h = self.keys@[i];
        assert(self.keys@.contains(h));
        let j = self.keys@.index_of(h);
        assert(0 <= j < self.keys@.len() && self.keys@[j] == h);
    }

    fn position(&self, key: &Digest) -> (r: Option<usize>)
        requires
            self.wf(),
        ensures
            match r {
                Some(i) => i < self.keys@.len() && self.keys@[i as int] == *key,
                None => !self.keys@.contains(*key),
            },
    {
        let b: usize = bucket_index(key);
        let bucket: &Vec<usize> = &self.buckets[b];
        let mut j: usize = 0;
        while j < bucket.len()
            invariant
                j <= bucket.len(),
                self.wf(),
                b == bucket_of(*key),
                b < BUCKET_COUNT,
                *bucket == self.buckets@[b as int],
                forall|k: int| 0 <= k < j ==> self.keys@[(#[trigger] bucket@[k]) as int] != *key,
            decreases bucket.len() - j,
        {
            let p: usize = bucket[j];
            assert(self.buckets@[b as int]@[j as int] < self.keys@.len());
            if hash_eq(&self.keys[p], key) {
                return Some(p);
            }
            j = j + 1;
        }
        proof {
            if self.keys@.contains(*key) {
                let i = choose|i: int| 0 <= i < self.keys@.len() && self.keys@[i] == *key;
                assert(self.keys@.len() == self.keys.len());
                let p = i as usize;
                let c = bucket_of(self.keys@[p as int]);
                assert(c == b);
                assert(self.buckets@[c]@.contains(p));
                assert(bucket@.contains(p));
                let k = choose|k: int| 0 <= k < bucket@.len() && bucket@[k] == p;
                assert(self.keys@[bucket@[k] as int] != *key);
                assert(false);
            }
        }
        None
    }

    /// Whether the table has an entry for `key`.
    pub fn contains_key(&self, key: &Digest) -> (r: bool)
        requires
            self.wf(),
        ensures
            r == self@.contains_key(*key),
    {
        self.position(key).is_some()
    }

    /// The value of `key`.
    pub fn get(&self, key: &Digest) -> (r: Option<&V>)
        requires
            self.wf(),
        ensures
            match r {
                Some(v) => self@.contains_key(*key) && self@[*key] == *v,
                None => !self@.contains_key(*key),
            },
    {
        match self.position(key) {
            Some(i) => {
                proof {
                    self.lemma_position(i as int);
                }
                Some(&self.values[i])
            },
            None => None,
        }
    }

    /// Sets the value of `key`. A new hash comes last in the order; a known
    /// one keeps its place.
    pub fn insert(&mut self, key: Digest, value: V)
        requires
            old(self).wf(),
        ensures
            final(self).wf(),
            final(self)@ == old(self)@.insert(key, value),
            final(self).key_seq() == if old(self)@.contains_key(key) {
                old(self).key_seq()
            } else {
                old(self).key_seq().push(key)
            },
    {
        match self.position(&key) {
            Some(i) => {
                self.values.set(i, value);
                proof {
                    assert forall|h: Digest| self.keys@.contains(h) implies #[trigger] self@[h] == old(
                        self,
                    )@.insert(key, value)[h] by {
                        let j = self.keys@.index_of(h);
                        assert(0 <= j < self.keys@.len() && self.keys@[j] == h);
                        old(self).lemma_position(i as int);
                    }
                    assert(self@ =~= old(self)@.insert(key, value));
                }
            },
            None => {
                let b: usize = bucket_index(&key);
                let p: usize = self.keys.len();
                let mut bucket: Vec<usize> = Vec::new();
                let mut j: usize = 0;
                while j < self.buckets[b].len()
                    invariant
                        j <= self.buckets@[b as int]@.len(),
                        b < BUCKET_COUNT,
                        self.buckets@.len() == BUCKET_COUNT,
                        bucket@ == self.buckets@[b as int]@.take(j as int),
                    decreases self.buckets@[b as int]@.len() - j,
                {
                    bucket.push(self.buckets[b][j]);
                    assert(self.buckets@[b as int]@.take(j + 1) =~= self.buckets@[b as int]@.take(
                        j as int,
                    ).push(self.buckets@[b as int]@[j as int]));
                    j = j + 1;
                }
                assert(self.buckets@[b as int]@.take(j as int) =~= self.buckets@[b as int]@);
                bucket.push(p);
                self.keys.push(key);
                self.values.push(value);
                self.buckets.set(b, bucket);
                proof {
                    let n = old(self).keys@.len() as int;
                    assert forall|h: Digest| self.keys@.contains(h) implies #[trigger] self@[h] == old(
                        self,
                    )@.insert(key, value)[h] by {
                        let j = self.keys@.index_of(h);
                        assert(0 <= j < self.keys@.len() && self.keys@[j] == h);
                        if j < n {
                            assert(old(self).keys@[j] == h);
                            old(self).lemma_position(j);
                        } else {
                            assert(h == key);
                        }
                    }
                    assert forall|h: Digest| self.keys@.contains(h) <==> (old(self).keys@.contains(h)
                        || h == key) by {
                        if old(self).keys@.contains(h) {
                            let j = old(self).keys@.index_of(h);
                            assert(self.keys@[j] == h);
                        }
                        if h == key {
                            assert(self.keys@[n] == h);
                        }
                    }
                    assert(self@ =~= old(self)@.insert(key, value));
                    assert forall|c: int, k: int|
                        0 <= c < BUCKET_COUNT && 0 <= k < self.buckets@[c]@.len() implies {
                        &&& (#[trigger] self.buckets@[c]@[k]) < self.keys@.len()
                        &&& bucket_of(self.keys@[self.buckets@[c]@[k] as int]) == c
                    } by {
                        if c == b && k == old(self).buckets@[c]@.len() {
                        } else {
                            assert(self.buckets@[c]@[k] == old(self).buckets@[c]@[k]);
                        }
                    }
                    assert forall|q: usize| q < self.keys@.len() implies self.buckets@[bucket_of(
                        #[trigger] self.keys@[q as int],
                    )]@.contains(q) by {
                        let c = bucket_of(self.keys@[q as int]);
                        if q < n {
                            assert(old(self).keys@[q as int] == self.keys@[q as int]);
                            assert(old(self).buckets@[c]@.contains(q));
                            let k = choose|k: int|
                                0 <= k < old(self).buckets@[c]@.len() && old(self).buckets@[c]@[k]
                                    == q;
                            assert(self.buckets@[c]@[k] == q);
                        } else {
                            assert(self.buckets@[b as int]@[old(self).buckets@[b as int]@.len() as int]
                                == q);
                        }
                    }
                }
            },
        }
    }
}

} // verus!
