//! Sorting byte strings in lexicographic order.

use vstd::prelude::*;
use vstd::relations::sorted_by;
use vstd::seq_lib::lemma_sorted_unique;
use vstd::seq_lib::to_multiset_build;
use vstd::seq_lib::to_multiset_insert;
use crate::bytes::{
    lex_le, lex_order, bytes_le, lemma_lex_order_total, lemma_lex_le_total,
    lemma_lex_le_transitive,
};
use crate::types::clone_bytes;

verus! {

/// The byte strings that a list of vectors holds.
pub open spec fn views(v: Seq<Vec<u8>>) -> Seq<Seq<u8>> {
    Seq::new(v.len(), |i: int| v[i]@)
}

/// A sorted sequence with the same elements as `s` is the sorted form of `s`.
pub proof fn lemma_sorted_is_sort_by(s: Seq<Seq<u8>>, sorted: Seq<Seq<u8>>)
    requires
        sorted_by(sorted, lex_order()),
        sorted.to_multiset() == s.to_multiset(),
    ensures
        sorted == s.sort_by(lex_order()),
{
    lemma_lex_order_total();
    s.lemma_sort_by_ensures(lex_order());
    lemma_sorted_unique(sorted, s.sort_by(lex_order()), lex_order());
}

/// Returns the byte strings of `v` in ascending lexicographic order.
pub fn sort_byte_strings(v: &Vec<Vec<u8>>) -> (out: Vec<Vec<u8>>)
    ensures
        views(out@) == views(v@).sort_by(lex_order()),
{
    let mut out: Vec<Vec<u8>> = Vec::new();
    let mut i: usize = 0;
    proof {
        assert(views(v@).take(0) =~= views(out@));
    }
    while i < v.len()
        invariant
            i <= v.len(),
            sorted_by(views(out@), lex_order()),
            views(out@).to_multiset() == views(v@).take(i as int).to_multiset(),
        decreases v.len() - i,
    {
        let x: Vec<u8> = clone_bytes(&v[i]);
        let mut j: usize = 0;
        while j < out.len() && bytes_le(out[j].as_slice(), x.as_slice())
            invariant
                j <= out.len(),
                forall|p: int| 0 <= p < j ==> lex_le(#[trigger] out@[p]@, x@),
            decreases out.len() - j,
        {
            j = j + 1;
        }
        let ghost before = views(out@);
        out.insert(j, x);
        proof {
            let after = views(out@);
            assert(after =~= before.insert(j as int, x@));
            to_multiset_insert(before, j as int, x@);
            assert(views(v@).take(i + 1) =~= views(v@).take(i as int).push(x@));
            to_multiset_build(views(v@).take(i as int), x@);
            assert forall|p: int, q: int| 0 <= p < q < after.len() implies #[trigger] lex_order()(
                after[p],
                after[q],
            ) by {
                if q < j {
                    assert(lex_order()(before[p], before[q]));
                } else if q == j {
                    assert(lex_le(before[p], x@));
                } else if p == j {
                    // everything from `j` on was above `x`
                    assert(!lex_le(before[j as int], x@));
                    lemma_lex_le_total(before[j as int], x@);
                    if q - 1 > j {
                        assert(lex_order()(before[j as int], before[q - 1]));
                        lemma_lex_le_transitive(x@, before[j as int], before[q - 1]);
                    }
                } else if p < j {
                    assert(lex_order()(before[p], before[q - 1]));
                } else {
                    assert(lex_order()(before[p - 1], before[q - 1]));
                }
            }
        }
        i = i + 1;
    }
    proof {
        assert(views(v@).take(i as int) =~= views(v@));
        lemma_sorted_is_sort_by(views(v@), views(out@));
    }
    out
}

} // verus!
