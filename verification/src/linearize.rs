//! The order of the committed log: rounds ascending, and within a round
//! ascending by sort key, ties by the bytes of the vertex hash.

use vstd::prelude::*;
use crate::bytes::{
    lex_le, bytes_le, bytes_eq, lemma_lex_le_antisymmetric, lemma_lex_le_total,
    lemma_lex_le_transitive, lemma_lex_le_reflexive,
};
use crate::crypto::{blake3_digest, vrf_sort_key};
use crate::types::Digest;

verus! {

/// The sort key of a vertex hash under a seed: the digest of the hash
/// followed by the seed.
pub open spec fn sort_key(h: Digest, seed: Digest) -> Seq<u8> {
    blake3_digest(h@ + seed@)
}

/// The order within a round: by sort key, and by the bytes of the hash
/// where two keys are the same.
pub open spec fn key_le(a: Digest, b: Digest, seed: Digest) -> bool {
    if sort_key(a, seed) == sort_key(b, seed) {
        lex_le(a@, b@)
    } else {
        lex_le(sort_key(a, seed), sort_key(b, seed))
    }
}

pub proof fn lemma_key_le_total(a: Digest, b: Digest, seed: Digest)
    ensures
        key_le(a, b, seed) || key_le(b, a, seed),
{
    lemma_lex_le_total(a@, b@);
    lemma_lex_le_total(sort_key(a, seed), sort_key(b, seed));
}

pub proof fn lemma_key_le_antisymmetric(a: Digest, b: Digest, seed: Digest)
    requires
        key_le(a, b, seed),
        key_le(b, a, seed),
    ensures
        a == b,
{
    if sort_key(a, seed) == sort_key(b, seed) {
        lemma_lex_le_antisymmetric(a@, b@);
        assert(a =~= b);
    } else {
        lemma_lex_le_antisymmetric(sort_key(a, seed), sort_key(b, seed));
    }
}

pub proof fn lemma_key_le_transitive(a: Digest, b: Digest, c: Digest, seed: Digest)
    requires
        key_le(a, b, seed),
        key_le(b, c, seed),
    ensures
        key_le(a, c, seed),
{
    let ka = sort_key(a, seed);
    let kb = sort_key(b, seed);
    let kc = sort_key(c, seed);
    lemma_lex_le_reflexive(ka);
    lemma_lex_le_reflexive(kb);
    assert(lex_le(ka, kb));
    assert(lex_le(kb, kc));
    lemma_lex_le_transitive(ka, kb, kc);
    if ka == kc {
        lemma_lex_le_antisymmetric(ka, kb);
        lemma_lex_le_transitive(a@, b@, c@);
    }
}

/// Whether a sequence of hashes ascends in the order within a round.
pub open spec fn key_sorted(s: Seq<Digest>, seed: Digest) -> bool {
    forall|i: int, j: int| 0 <= i < j < s.len() ==> key_le(#[trigger] s[i], #[trigger] s[j], seed)
}

pub proof fn lemma_key_le_reflexive(a: Digest, seed: Digest)
    ensures
        key_le(a, a, seed),
{
    lemma_lex_le_reflexive(a@);
}

/// Decides `key_le`, given the sort keys of the two hashes.
pub(crate) fn key_le_given(
    a: &Digest,
    ka: &Digest,
    b: &Digest,
    kb: &Digest,
    Ghost(seed): Ghost<Digest>,
) -> (r: bool)
    requires
        ka@ == sort_key(*a, seed),
        kb@ == sort_key(*b, seed),
    ensures
        r == key_le(*a, *b, seed),
{
    if bytes_eq(ka.as_slice(), kb.as_slice()) {
        bytes_le(a.as_slice(), b.as_slice())
    } else {
        bytes_le(ka.as_slice(), kb.as_slice())
    }
}

/// Orders the hashes of one round by their sort keys under `seed`.
pub fn sort_layer(layer: &Vec<Digest>, seed: &Digest) -> (out: Vec<Digest>)
    requires
        layer@.no_duplicates(),
    ensures
        out@.no_duplicates(),
        out@.len() == layer@.len(),
        forall|h: Digest| out@.contains(h) <==> layer@.contains(h),
        key_sorted(out@, *seed),
{
    let mut out: Vec<Digest> = Vec::new();
    let mut keys: Vec<Digest> = Vec::new();
    let mut i: usize = 0;
    while i < layer.len()
        invariant
            i <= layer.len(),
            layer@.no_duplicates(),
            out@.len() == i,
            keys@.len() == i,
            out@.no_duplicates(),
            forall|k: int| 0 <= k < i ==> (#[trigger] keys@[k])@ == sort_key(out@[k], *seed),
            forall|h: Digest| out@.contains(h) <==> layer@.take(i as int).contains(h),
            key_sorted(out@, *seed),
        decreases layer.len() - i,
    {
        let x: Digest = layer[i];
        let kx: Digest = vrf_sort_key(&x, seed);
        let mut j: usize = 0;
        while j < out.len() && key_le_given(&out[j], &keys[j], &x, &kx, Ghost(*seed))
            invariant
                j <= out.len(),
                out@.len() == keys@.len(),
                kx@ == sort_key(x, *seed),
                forall|k: int|
                    0 <= k < out@.len() ==> (#[trigger] keys@[k])@ == sort_key(out@[k], *seed),
                forall|p: int| 0 <= p < j ==> key_le(#[trigger] out@[p], x, *seed),
            decreases out.len() - j,
        {
            j = j + 1;
        }
        let ghost before = out@;
        proof {
            // `x` is new: it is not among the first `i` hashes of the layer
            if before.contains(x) {
                let t = layer@.take(i as int);
                let k = choose|k: int| 0 <= k < t.len() && t[k] == x;
                assert(layer@[k] == layer@[i as int]);
            }
        }
        out.insert(j, x);
        keys.insert(j, kx);
        proof {
            let after = out@;
            let t0 = layer@.take(i as int);
            let t1 = layer@.take(i + 1);
            assert(after =~= before.insert(j as int, x));
            assert forall|h: Digest| after.contains(h) <==> t1.contains(h) by {
                if after.contains(h) {
                    let k = choose|k: int| 0 <= k < after.len() && after[k] == h;
                    if k < j {
                        assert(before[k] == h);
                    } else if k > j {
                        assert(before[k - 1] == h);
                    }
                    if h != x {
                        assert(before.contains(h));
                        let m = choose|m: int| 0 <= m < t0.len() && t0[m] == h;
                        assert(t1[m] == h);
                    } else {
                        assert(t1[i as int] == h);
                    }
                }
                if t1.contains(h) {
                    let m = choose|m: int| 0 <= m < t1.len() && t1[m] == h;
                    if m < i {
                        assert(t0[m] == h);
                        assert(before.contains(h));
                        let k = choose|k: int| 0 <= k < before.len() && before[k] == h;
                        if k < j {
                            assert(after[k] == h);
                        } else {
                            assert(after[k + 1] == h);
                        }
                    } else {
                        assert(after[j as int] == h);
                    }
                }
            }
            assert forall|p: int, q: int| 0 <= p < q < after.len() implies after[p] != after[q] by {
                let bp = if p < j { p } else { p - 1 };
                let bq = if q < j { q } else { q - 1 };
                if p == j {
                    assert(before[bq] == after[q]);
                    assert(before.contains(after[q]));
                } else if q == j {
                    assert(before[bp] == after[p]);
                    assert(before.contains(after[p]));
                } else {
                    assert(before[bp] == after[p] && before[bq] == after[q]);
                }
            }
            assert forall|p: int, q: int| 0 <= p < q < after.len() implies key_le(
                #[trigger] after[p],
                #[trigger] after[q],
                *seed,
            ) by {
                if q < j {
                    assert(key_le(before[p], before[q], *seed));
                } else if q == j {
                    assert(key_le(before[p], x, *seed));
                } else if p == j {
                    assert(!key_le(before[j as int], x, *seed));
                    lemma_key_le_total(before[j as int], x, *seed);
                    if q - 1 > j {
                        assert(key_le(before[j as int], before[q - 1], *seed));
                        lemma_key_le_transitive(x, before[j as int], before[q - 1], *seed);
                    }
                } else if p < j {
                    assert(key_le(before[p], before[q - 1], *seed));
                } else {
                    assert(key_le(before[p - 1], before[q - 1], *seed));
                }
            }
        }
        i = i + 1;
    }
    proof {
        assert(layer@.take(i as int) =~= layer@);
    }
    out
}

} // verus!
