//! A bounded memo table from byte strings to byte strings.

use vstd::prelude::*;
use crate::bytes::bytes_eq;
use crate::types::clone_bytes;

verus! {

/// The map that the first `n` entries build, later entries winning.
pub open spec fn entries_map(entries: Seq<(Vec<u8>, Vec<u8>)>, n: nat) -> Map<Seq<u8>, Seq<u8>>
    decreases n,
{
    if n == 0 {
        Map::empty()
    } else {
        entries_map(entries, (n - 1) as nat).insert(entries[n - 1].0@, entries[n - 1].1@)
    }
}

/// The map of the first `n` entries depends on those entries alone.
pub proof fn lemma_entries_map_prefix(
    a: Seq<(Vec<u8>, Vec<u8>)>,
    b: Seq<(Vec<u8>, Vec<u8>)>,
    n: nat,
)
    requires
        n <= a.len(),
        n <= b.len(),
        forall|i: int| 0 <= i < n ==> a[i] == b[i],
    ensures
        entries_map(a, n) == entries_map(b, n),
    decreases n,
{
    if n > 0 {
        lemma_entries_map_prefix(a, b, (n - 1) as nat);
    }
}

/// A memo table that forgets everything when it would grow past its
/// capacity.
pub struct ByteCache {
    entries: Vec<(Vec<u8>, Vec<u8>)>,
    capacity: usize,
}

impl View for ByteCache {
    type V = Map<Seq<u8>, Seq<u8>>;

    closed spec fn view(&self) -> Map<Seq<u8>, Seq<u8>> {
        entries_map(self.entries@, self.entries@.len())
    }
}

impl ByteCache {
    /// The table holds no more entries than its capacity.
    pub closed spec fn wf(&self) -> bool {
        self.entries@.len() <= self.capacity
    }

    /// The number of entries that the table holds before it starts afresh.
    pub closed spec fn capacity(&self) -> usize {
        self.capacity
    }

    /// The number of entries that the table holds.
    pub closed spec fn size(&self) -> nat {
        self.entries@.len()
    }

    /// What the table is after `key` has been recorded with `value` in a
    /// table that is `before`, holds `size` entries and has room for
    /// `capacity`: unchanged without room; this entry alone where the
    /// table was full; and otherwise `before` with this entry.
    pub open spec fn recorded(
        before: Map<Seq<u8>, Seq<u8>>,
        size: nat,
        capacity: usize,
        key: Seq<u8>,
        value: Seq<u8>,
    ) -> Map<Seq<u8>, Seq<u8>> {
        if capacity == 0 {
            before
        } else if size >= capacity {
            Map::<Seq<u8>, Seq<u8>>::empty().insert(key, value)
        } else {
            before.insert(key, value)
        }
    }

    /// An empty table that holds up to `capacity` entries.
    pub fn new(capacity: usize) -> (c: Self)
        ensures
            c.wf(),
            c@ == Map::<Seq<u8>, Seq<u8>>::empty(),
            c.capacity() == capacity,
            c.size() == 0,
    {
        ByteCache { entries: Vec::new(), capacity }
    }

    /// Looks up `key`.
    pub fn get(&self, key: &[u8]) -> (r: Option<Vec<u8>>)
        ensures
            match r {
                Some(v) => self@.contains_key(key@) && self@[key@] == v@,
                None => !self@.contains_key(key@),
            },
    {
        let mut i: usize = self.entries.len();
        while i > 0
            invariant
                i <= self.entries@.len(),
                self@.contains_key(key@) == entries_map(self.entries@, i as nat).contains_key(
                    key@,
                ),
                self@.contains_key(key@) ==> self@[key@] == entries_map(
                    self.entries@,
                    i as nat,
                )[key@],
            decreases i,
        {
            i = i - 1;
            if bytes_eq(self.entries[i].0.as_slice(), key) {
                return Some(clone_bytes(&self.entries[i].1));
            }
        }
        None
    }

    /// Records that `key` maps to `value`: a full table is emptied first,
    /// and a table without room records nothing. Every entry afterwards is
    /// this one or one that was there before.
    pub fn insert(&mut self, key: Vec<u8>, value: Vec<u8>)
        requires
            old(self).wf(),
        ensures
            final(self).wf(),
            final(self).capacity() == old(self).capacity(),
            final(self)@ == Self::recorded(
                old(self)@,
                old(self).size(),
                old(self).capacity(),
                key@,
                value@,
            ),
            final(self).size() == if old(self).capacity() == 0 {
                old(self).size()
            } else if old(self).size() >= old(self).capacity() {
                1nat
            } else {
                old(self).size() + 1
            },
            forall|k: Seq<u8>| #[trigger]
                final(self)@.contains_key(k) ==> (k == key@ && final(self)@[k] == value@) || (
                old(self)@.contains_key(k) && final(self)@[k] == old(self)@[k]),
    {
        if self.capacity == 0 {
            return ;
        }
        if self.entries.len() >= self.capacity {
            self.entries.clear();
        }
        let ghost before = self.entries@;
        self.entries.push((key, value));
        proof {
            lemma_entries_map_prefix(self.entries@, before, before.len());
            assert(self@ =~= entries_map(before, before.len()).insert(key@, value@));
        }
    }
}

} // verus!
