//! Content hashing, the seed of the per-round shuffle, sort keys and
//! Ed25519 signature checks.

use vstd::prelude::*;
use crate::bytes::{u64_le, lex_order, push_u64_le, push_bytes, lemma_lex_order_total};
use crate::codec::{vertex_bytes, encode_vertex};
use crate::sorting::{views, sort_byte_strings};
use crate::types::{Digest, Signature, ValidatorId, Vertex, sigs_view};

verus! {

/// The BLAKE3 digest of a byte string.
pub uninterp spec fn blake3_digest(data: Seq<u8>) -> Seq<u8>;

/// Whether Ed25519 accepts `sig` as a signature of `msg` under the
/// compressed public key `key`.
pub uninterp spec fn ed25519_accepts(msg: Seq<u8>, sig: Seq<u8>, key: Seq<u8>) -> bool;

/// The 256-bit content hash of `data`.
///
/// Calls `blake3::hash`; the contract names its result and claims nothing
/// else of it.
#[verifier::external_body]
pub fn hash(data: &[u8]) -> (h: Digest)
    ensures
        h@ == blake3_digest(data@),
{
    *blake3::hash(data).as_bytes()
}

/// Checks an Ed25519 signature over `msg`.
///
/// Calls `ed25519_dalek::VerifyingKey::from_bytes`,
/// `ed25519_dalek::Signature::from_slice` and `Verifier::verify`. The
/// contract names the outcome and claims of it only that a signature that is
/// not 64 bytes long is refused, as `from_slice` documents.
#[verifier::external_body]
pub fn verify_signature(msg: &[u8], sig: &[u8], public_key: &[u8; 32]) -> (ok: bool)
    ensures
        ok == ed25519_accepts(msg@, sig@, public_key@),
        sig@.len() != 64 ==> !ok,
{
    match (
        ed25519_dalek::VerifyingKey::from_bytes(public_key),
        ed25519_dalek::Signature::from_slice(sig),
    ) {
        (Ok(key), Ok(signature)) => ed25519_dalek::Verifier::verify(&key, msg, &signature).is_ok(),
        _ => false,
    }
}

/// Whether every signature of the list is a valid Ed25519 signature over
/// `msg` of its signer, whose public key stands at the signer's position
/// in `keys`.
pub open spec fn partials_accepted(
    msg: Seq<u8>,
    sigs: Seq<(ValidatorId, Seq<u8>)>,
    keys: Seq<[u8; 32]>,
) -> bool {
    forall|i: int|
        0 <= i < sigs.len() ==> (#[trigger] sigs[i]).0 < keys.len() && ed25519_accepts(
            msg,
            sigs[i].1,
            keys[sigs[i].0 as int]@,
        )
}

/// Checks every signature of a partial certificate over `msg` against the
/// public key of its signer.
pub fn verify_partials(
    msg: &[u8],
    signatures: &Vec<(ValidatorId, Signature)>,
    keys: &[[u8; 32]],
) -> (ok: bool)
    ensures
        ok == partials_accepted(msg@, sigs_view(signatures@), keys@),
{
    let ghost list = sigs_view(signatures@);
    let mut i: usize = 0;
    while i < signatures.len()
        invariant
            i <= signatures.len(),
            list == sigs_view(signatures@),
            forall|k: int|
                0 <= k < i ==> (#[trigger] list[k]).0 < keys@.len() && ed25519_accepts(
                    msg@,
                    list[k].1,
                    keys@[list[k].0 as int]@,
                ),
        decreases signatures.len() - i,
    {
        let signer: usize = signatures[i].0 as usize;
        assert(list[i as int] == (signatures@[i as int].0, signatures@[i as int].1@));
        if signer >= keys.len() {
            return false;
        }
        if !verify_signature(msg, signatures[i].1.as_slice(), &keys[signer]) {
            return false;
        }
        i = i + 1;
    }
    true
}

/// The identity of a vertex: the hash of its canonical encoding.
pub fn hash_vertex(vertex: &Vertex) -> (h: Digest)
    ensures
        h@ == blake3_digest(vertex_bytes(vertex@)),
{
    let bytes: Vec<u8> = encode_vertex(vertex);
    hash(bytes.as_slice())
}

/// What the seed of round `round` is the digest of: the signatures in
/// ascending byte order, one after the other, then the round number.
pub open spec fn vrf_seed_input(signatures: Seq<Seq<u8>>, round: u64) -> Seq<u8> {
    signatures.sort_by(lex_order()).flatten() + u64_le(round)
}

/// Derives the seed of a round from the signatures of its anchor's
/// certificate, in whatever order they were collected.
pub fn derive_vrf_seed(signatures: Vec<Signature>, round: u64) -> (seed: Digest)
    ensures
        seed@ == blake3_digest(vrf_seed_input(views(signatures@), round)),
{
    let sorted: Vec<Vec<u8>> = sort_byte_strings(&signatures);
    let mut buf: Vec<u8> = Vec::new();
    let mut i: usize = 0;
    proof {
        assert(views(sorted@).take(0).flatten() =~= buf@);
    }
    while i < sorted.len()
        invariant
            i <= sorted.len(),
            buf@ == views(sorted@).take(i as int).flatten(),
        decreases sorted.len() - i,
    {
        push_bytes(&mut buf, sorted[i].as_slice());
        proof {
            let done = views(sorted@).take(i as int);
            done.lemma_flatten_push(sorted@[i as int]@);
            assert(views(sorted@).take(i + 1) =~= done.push(sorted@[i as int]@));
        }
        i = i + 1;
    }
    proof {
        assert(views(sorted@).take(i as int) =~= views(sorted@));
    }
    push_u64_le(&mut buf, round);
    hash(buf.as_slice())
}

/// The seed does not depend on the order in which the signatures were
/// collected: two lists with the same signatures give the same input.
pub proof fn lemma_vrf_seed_order_independent(a: Seq<Seq<u8>>, b: Seq<Seq<u8>>, round: u64)
    requires
        a.to_multiset() == b.to_multiset(),
    ensures
        vrf_seed_input(a, round) == vrf_seed_input(b, round),
{
    lemma_lex_order_total();
    a.lemma_sort_by_ensures(lex_order());
    b.lemma_sort_by_ensures(lex_order());
    vstd::seq_lib::lemma_sorted_unique(a.sort_by(lex_order()), b.sort_by(lex_order()), lex_order());
}

/// The sort key of a vertex under a seed: the hash of the vertex hash
/// followed by the seed.
pub fn vrf_sort_key(vertex_hash: &Digest, seed: &Digest) -> (key: Digest)
    ensures
        key@ == blake3_digest(vertex_hash@ + seed@),
{
    let mut buf: Vec<u8> = Vec::new();
    push_bytes(&mut buf, vertex_hash.as_slice());
    push_bytes(&mut buf, seed.as_slice());
    assert(buf@ =~= vertex_hash@ + seed@);
    hash(buf.as_slice())
}

} // verus!
