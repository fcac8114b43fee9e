//! The aggregated-signature engine: BLS12-381 signatures in G1 (48 bytes
//! compressed) under public keys in G2 (96 bytes compressed), quorum
//! aggregation, and single and batched verification with memo tables for
//! decompressed points and aggregated keys.

use vstd::prelude::*;
use blst::blst_scalar;
use blst::min_sig::{PublicKey, Signature};
use blst::BLST_ERROR::BLST_SUCCESS;
use crate::cache::ByteCache;
use crate::bytes::{u64_le, push_u64_le, bytes_eq, lemma_u64_le_injective};
use crate::sorting::views;
use crate::types::{BlsPublicKey, BlsSignature, SignerBitmap, ValidatorId, sigs_view, clone_bytes};

verus! {

/// The secret key that key generation derives from key material.
pub uninterp spec fn bls_secret_key(ikm: Seq<u8>) -> Seq<u8>;

/// Whether 32 bytes are a secret key that the curve library accepts.
pub uninterp spec fn bls_key_valid(sk: Seq<u8>) -> bool;

/// The compressed public key of a secret key.
pub uninterp spec fn bls_public_key(sk: Seq<u8>) -> Seq<u8>;

/// The compressed signature of `msg` under the secret key `sk`.
pub uninterp spec fn bls_signature(sk: Seq<u8>, msg: Seq<u8>) -> Seq<u8>;

/// The uncompressed form of a compressed G1 point, where it is one.
pub uninterp spec fn g1_point(compressed: Seq<u8>) -> Option<Seq<u8>>;

/// The uncompressed form of a compressed G2 point, where it is one.
pub uninterp spec fn g2_point(compressed: Seq<u8>) -> Option<Seq<u8>>;

/// The compressed sum of uncompressed G1 points, where all are in the group.
pub uninterp spec fn g1_aggregate(points: Seq<Seq<u8>>) -> Option<Seq<u8>>;

/// The uncompressed sum of uncompressed G2 points, where all are valid keys.
pub uninterp spec fn g2_aggregate(points: Seq<Seq<u8>>) -> Option<Seq<u8>>;

/// Whether the pairing check accepts the signature point for `msg` under
/// the key point.
pub uninterp spec fn bls_verifies(sig_point: Seq<u8>, msg: Seq<u8>, key_point: Seq<u8>) -> bool;

/// Whether the blinded batch check accepts the signature points for the
/// messages under the key points, with the given blinding scalars.
pub uninterp spec fn bls_batch_verifies(
    msgs: Seq<Seq<u8>>,
    key_points: Seq<Seq<u8>>,
    sig_points: Seq<Seq<u8>>,
    scalars: Seq<Seq<u8>>,
) -> bool;

/// Derives a secret key from key material.
///
/// Calls `blst::min_sig::SecretKey::key_gen` with empty key info and
/// serializes the key. As its source shows, it fails exactly on fewer than
/// 32 bytes; the contract also claims that the key it derives is one that
/// `SecretKey::from_bytes` accepts.
#[verifier::external_body]
fn derive_key(ikm: &[u8]) -> (r: Option<Vec<u8>>)
    ensures
        r is Some <==> ikm@.len() >= 32,
        r is Some ==> r.unwrap()@ == bls_secret_key(ikm@) && bls_key_valid(r.unwrap()@),
{
    match blst::min_sig::SecretKey::key_gen(ikm, &[]) {
        Ok(sk) => Some(sk.to_bytes().to_vec()),
        Err(_) => None,
    }
}

/// Signs `msg` under the protocol's domain-separation tag.
///
/// Calls `blst::min_sig::SecretKey::from_bytes`, `sign` with an empty
/// augmentation, and `Signature::compress`, which gives 48 bytes; the
/// contract names the result.
#[verifier::external_body]
fn sign_bytes(sk: &[u8], msg: &[u8]) -> (sig: Vec<u8>)
    requires
        bls_key_valid(sk@),
    ensures
        sig@ == bls_signature(sk@, msg@),
        sig@.len() == 48,
{
    let key = blst::min_sig::SecretKey::from_bytes(sk).unwrap();
    key.sign(msg, b"BLS_SIG_BLS12381G1_XMD:SHA-256_SSWU_RO_NUL_", &[]).compress().to_vec()
}

/// The compressed public key of a secret key.
///
/// Calls `blst::min_sig::SecretKey::from_bytes`, `sk_to_pk` and
/// `PublicKey::compress`, which gives 96 bytes; the contract names the
/// result.
#[verifier::external_body]
fn public_key_bytes(sk: &[u8]) -> (pk: Vec<u8>)
    requires
        bls_key_valid(sk@),
    ensures
        pk@ == bls_public_key(sk@),
        pk@.len() == 96,
{
    blst::min_sig::SecretKey::from_bytes(sk).unwrap().sk_to_pk().compress().to_vec()
}

/// Decompresses a signature.
///
/// Calls `blst::min_sig::Signature::uncompress` and `serialize`. The
/// contract names the result.
#[verifier::external_body]
fn uncompress_signature(bytes: &[u8]) -> (r: Option<Vec<u8>>)
    ensures
        match r {
            Some(p) => g1_point(bytes@) == Some(p@),
            None => g1_point(bytes@) is None,
        },
{
    match blst::min_sig::Signature::uncompress(bytes) {
        Ok(sig) => Some(sig.serialize().to_vec()),
        Err(_) => None,
    }
}

/// Decompresses a public key.
///
/// Calls `blst::min_sig::PublicKey::uncompress` and `serialize`. The
/// contract names the result.
#[verifier::external_body]
fn uncompress_public_key(bytes: &[u8]) -> (r: Option<Vec<u8>>)
    ensures
        match r {
            Some(p) => g2_point(bytes@) == Some(p@),
            None => g2_point(bytes@) is None,
        },
{
    match blst::min_sig::PublicKey::uncompress(bytes) {
        Ok(pk) => Some(pk.serialize().to_vec()),
        Err(_) => None,
    }
}

/// Adds up signature points, checking that each is in the group.
///
/// Calls `blst::min_sig::AggregateSignature::aggregate_serialized` with the
/// group check on, then `to_signature` and `compress`. The contract names
/// the result.
#[verifier::external_body]
fn aggregate_signature_points(points: &Vec<Vec<u8>>) -> (r: Option<Vec<u8>>)
    ensures
        match r {
            Some(a) => g1_aggregate(views(points@)) == Some(a@),
            None => g1_aggregate(views(points@)) is None,
        },
{
    let refs: Vec<&[u8]> = points.iter().map(|p| p.as_slice()).collect();
    match blst::min_sig::AggregateSignature::aggregate_serialized(&refs, true) {
        Ok(agg) => Some(agg.to_signature().compress().to_vec()),
        Err(_) => None,
    }
}

/// Adds up public-key points, validating each.
///
/// Calls `blst::min_sig::AggregatePublicKey::aggregate_serialized` with
/// validation on, then `to_public_key` and `serialize`. The contract names
/// the result.
#[verifier::external_body]
fn aggregate_key_points(points: &Vec<Vec<u8>>) -> (r: Option<Vec<u8>>)
    ensures
        match r {
            Some(a) => g2_aggregate(views(points@)) == Some(a@),
            None => g2_aggregate(views(points@)) is None,
        },
{
    let refs: Vec<&[u8]> = points.iter().map(|p| p.as_slice()).collect();
    match blst::min_sig::AggregatePublicKey::aggregate_serialized(&refs, true) {
        Ok(agg) => Some(agg.to_public_key().serialize().to_vec()),
        Err(_) => None,
    }
}

/// One pairing check of a signature point against a key point.
///
/// Calls `blst::min_sig::Signature::deserialize`,
/// `PublicKey::deserialize` and `Signature::verify` with group check and key
/// validation on, under the protocol's domain-separation tag. The contract
/// names the outcome.
#[verifier::external_body]
fn pairing_check(sig_point: &[u8], msg: &[u8], key_point: &[u8]) -> (ok: bool)
    ensures
        ok == bls_verifies(sig_point@, msg@, key_point@),
{
    let dst = b"BLS_SIG_BLS12381G1_XMD:SHA-256_SSWU_RO_NUL_";
    match (Signature::deserialize(sig_point), PublicKey::deserialize(key_point)) {
        (Ok(sig), Ok(pk)) => sig.verify(true, msg, dst, &[], &pk, true) == BLST_SUCCESS,
        _ => false,
    }
}

/// The blinded batch check over several signatures.
///
/// Calls `blst::min_sig::PublicKey::deserialize` and
/// `Signature::deserialize` on each point, then
/// `Signature::verify_multiple_aggregate_signatures` with key validation
/// and group check on and 128 random bits, under the protocol's
/// domain-separation tag. The contract names the outcome.
#[verifier::external_body]
fn batch_pairing_check(
    msgs: &Vec<&[u8]>,
    key_points: &Vec<Vec<u8>>,
    sig_points: &Vec<Vec<u8>>,
    scalars: &Vec<[u8; 32]>,
) -> (ok: bool)
    ensures
        ok == bls_batch_verifies(
            slice_views(msgs@),
            views(key_points@),
            views(sig_points@),
            scalar_views(scalars@),
        ),
{
    let dst = b"BLS_SIG_BLS12381G1_XMD:SHA-256_SSWU_RO_NUL_";
    let r: Vec<_> = scalars.iter().map(|b| blst_scalar { b: *b }).collect();
    let pk: Result<Vec<_>, _> = key_points.iter().map(|p| PublicKey::deserialize(p)).collect();
    let sg: Result<Vec<_>, _> = sig_points.iter().map(|p| Signature::deserialize(p)).collect();
    match (pk, sg) {
        (Ok(pk), Ok(sg)) => Signature::verify_multiple_aggregate_signatures(
            msgs, dst, &pk.iter().collect::<Vec<_>>(), true, &sg.iter().collect::<Vec<_>>(), true, &r, 128,
        ) == BLST_SUCCESS,
        _ => false,
    }
}

/// The byte strings of a list of slices.
pub open spec fn slice_views(s: Seq<&[u8]>) -> Seq<Seq<u8>> {
    Seq::new(s.len(), |i: int| s[i]@)
}

/// The byte strings of a list of 32-byte scalars.
pub open spec fn scalar_views(s: Seq<[u8; 32]>) -> Seq<Seq<u8>> {
    Seq::new(s.len(), |i: int| s[i]@)
}

/// A BLS12-381 secret key.
pub struct BlsSecretKey {
    bytes: Vec<u8>,
}

impl View for BlsSecretKey {
    type V = Seq<u8>;

    closed spec fn view(&self) -> Seq<u8> {
        self.bytes@
    }
}

impl BlsSecretKey {
    #[verifier::type_invariant]
    spec fn inv(self) -> bool {
        bls_key_valid(self.bytes@)
    }

    /// Derives a secret key from 32 bytes of key material.
    pub fn generate(ikm: &[u8; 32]) -> (sk: Self)
        ensures
            sk@ == bls_secret_key(ikm@),
    {
        let derived: Option<Vec<u8>> = derive_key(ikm.as_slice());
        BlsSecretKey { bytes: derived.unwrap() }
    }

    /// The signature of `msg` under this key: deterministic, 48 bytes.
    pub fn sign(&self, msg: &[u8]) -> (sig: BlsSignature)
        ensures
            sig@ == bls_signature(self@, msg@),
            sig@.len() == 48,
    {
        proof {
            use_type_invariant(self);
        }
        sign_bytes(self.bytes.as_slice(), msg)
    }

    /// The public key that belongs to this key: 96 bytes.
    pub fn public_key(&self) -> (pk: BlsPublicKey)
        ensures
            pk@ == bls_public_key(self@),
            pk@.len() == 96,
    {
        proof {
            use_type_invariant(self);
        }
        public_key_bytes(self.bytes.as_slice())
    }
}


/// Whether a signer bitmap names validator `id`.
pub open spec fn bit_set(bitmap: SignerBitmap, id: ValidatorId) -> bool {
    id < 64 && (bitmap & (1u64 << (id as u64))) != 0
}

/// The number of validators below `n` that a bitmap names.
pub open spec fn count_bits(bitmap: SignerBitmap, n: nat) -> nat
    decreases n,
{
    if n == 0 {
        0
    } else {
        count_bits(bitmap, (n - 1) as nat) + if bit_set(bitmap, (n - 1) as u32) {
            1nat
        } else {
            0nat
        }
    }
}

/// The number of validators that a bitmap names.
pub open spec fn popcount(bitmap: SignerBitmap) -> nat {
    count_bits(bitmap, 64)
}

/// Decides `bit_set`.
pub fn bit_is_set(bitmap: SignerBitmap, id: ValidatorId) -> (r: bool)
    ensures
        r == bit_set(bitmap, id),
{
    id < 64 && (bitmap & (1u64 << (id as u64))) != 0
}

/// Computes `popcount`.
pub fn count_signers(bitmap: SignerBitmap) -> (n: usize)
    ensures
        n == popcount(bitmap),
{
    let mut n: usize = 0;
    let mut id: u32 = 0;
    while id < 64
        invariant
            id <= 64,
            n == count_bits(bitmap, id as nat),
            n <= id,
        decreases 64 - id,
    {
        if bit_is_set(bitmap, id) {
            n = n + 1;
        }
        id = id + 1;
    }
    n
}

/// The empty bitmap names nobody.
pub proof fn lemma_popcount_zero()
    ensures
        popcount(0) == 0,
        forall|id: ValidatorId| !bit_set(0, id),
{
    assert forall|id: ValidatorId| !bit_set(0, id) by {
        let k: u64 = id as u64;
        assert(0u64 & (1u64 << k) == 0) by (bit_vector);
    }
    lemma_count_bits_zero(64);
}

proof fn lemma_count_bits_zero(n: nat)
    requires
        forall|id: ValidatorId| !bit_set(0, id),
    ensures
        count_bits(0, n) == 0,
    decreases n,
{
    if n > 0 {
        lemma_count_bits_zero((n - 1) as nat);
    }
}

/// The public keys of the validators that the bitmap names, in the order
/// of the list.
pub open spec fn selected_keys(pks: Seq<(ValidatorId, Seq<u8>)>, bitmap: SignerBitmap) -> Seq<
    Seq<u8>,
>
    decreases pks.len(),
{
    if pks.len() == 0 {
        Seq::empty()
    } else if bit_set(bitmap, pks.last().0) {
        selected_keys(pks.drop_last(), bitmap).push(pks.last().1)
    } else {
        selected_keys(pks.drop_last(), bitmap)
    }
}

/// The points of a list of compressed public keys, where all decompress.
pub open spec fn key_points(keys: Seq<Seq<u8>>) -> Option<Seq<Seq<u8>>>
    decreases keys.len(),
{
    if keys.len() == 0 {
        Some(Seq::empty())
    } else {
        match (key_points(keys.drop_last()), g2_point(keys.last())) {
            (Some(points), Some(p)) => Some(points.push(p)),
            _ => None,
        }
    }
}

/// The aggregated public key of the validators that the bitmap names, as a
/// point; `None` where it names none of them, one of their keys does not
/// decompress, or the sum is refused.
pub open spec fn aggregate_key(pks: Seq<(ValidatorId, Seq<u8>)>, bitmap: SignerBitmap) -> Option<
    Seq<u8>,
> {
    match key_points(selected_keys(pks, bitmap)) {
        Some(points) => if points.len() == 0 {
            None
        } else {
            g2_aggregate(points)
        },
        None => None,
    }
}

/// Whether an aggregated certificate can be checked at all: the bitmap
/// names at least `quorum` validators, at least `quorum` of them are known,
/// the signature decompresses and the signers' keys add up.
pub open spec fn aggregate_well_formed(
    agg_sig: Seq<u8>,
    pks: Seq<(ValidatorId, Seq<u8>)>,
    bitmap: SignerBitmap,
    quorum: nat,
) -> bool {
    &&& popcount(bitmap) >= quorum
    &&& selected_keys(pks, bitmap).len() >= quorum
    &&& g1_point(agg_sig) is Some
    &&& aggregate_key(pks, bitmap) is Some
}

/// Whether an aggregated certificate over `msg` is valid: it is well
/// formed, and the aggregate verifies against the sum of the signers' keys.
pub open spec fn aggregate_accepts(
    msg: Seq<u8>,
    agg_sig: Seq<u8>,
    pks: Seq<(ValidatorId, Seq<u8>)>,
    bitmap: SignerBitmap,
    quorum: nat,
) -> bool {
    &&& aggregate_well_formed(agg_sig, pks, bitmap, quorum)
    &&& bls_verifies(g1_point(agg_sig).unwrap(), msg, aggregate_key(pks, bitmap).unwrap())
}

/// If the keys selected from a prefix of the list do not all decompress,
/// neither do those selected from the whole list.
pub proof fn lemma_key_points_prefix(pks: Seq<(ValidatorId, Seq<u8>)>, bitmap: SignerBitmap, n: int)
    requires
        0 <= n <= pks.len(),
        key_points(selected_keys(pks.take(n), bitmap)) is None,
    ensures
        key_points(selected_keys(pks, bitmap)) is None,
    decreases pks.len() - n,
{
    if n < pks.len() {
        let next = pks.take(n + 1);
        assert(next.drop_last() =~= pks.take(n));
        if bit_set(bitmap, next.last().0) {
            assert(selected_keys(next, bitmap).drop_last() =~= selected_keys(pks.take(n), bitmap));
        }
        lemma_key_points_prefix(pks, bitmap, n + 1);
    } else {
        assert(pks.take(n) =~= pks);
    }
}

/// Counts the validators of the list that the bitmap names.
pub fn count_selected(pks: &[(ValidatorId, BlsPublicKey)], bitmap: SignerBitmap) -> (n: usize)
    ensures
        n == selected_keys(sigs_view(pks@), bitmap).len(),
{
    let ghost list = sigs_view(pks@);
    let mut n: usize = 0;
    let mut i: usize = 0;
    while i < pks.len()
        invariant
            i <= pks.len(),
            list == sigs_view(pks@),
            n == selected_keys(list.take(i as int), bitmap).len(),
            n <= i,
        decreases pks.len() - i,
    {
        proof {
            assert(list.take(i + 1).drop_last() =~= list.take(i as int));
        }
        if bit_is_set(bitmap, pks[i].0) {
            n = n + 1;
        }
        i = i + 1;
    }
    proof {
        assert(list.take(i as int) =~= list);
    }
    n
}

/// Decides whether two lists of (validator, key) pairs hold the same data.
pub fn same_keys(a: &[(ValidatorId, BlsPublicKey)], b: &[(ValidatorId, BlsPublicKey)]) -> (r: bool)
    ensures
        r == (sigs_view(a@) == sigs_view(b@)),
{
    if a.len() != b.len() {
        assert(sigs_view(a@).len() != sigs_view(b@).len());
        return false;
    }
    let mut i: usize = 0;
    while i < a.len()
        invariant
            i <= a.len(),
            a.len() == b.len(),
            forall|k: int| 0 <= k < i ==> sigs_view(a@)[k] == sigs_view(b@)[k],
        decreases a.len() - i,
    {
        if a[i].0 != b[i].0 || !bytes_eq(a[i].1.as_slice(), b[i].1.as_slice()) {
            assert(sigs_view(a@)[i as int] != sigs_view(b@)[i as int]);
            return false;
        }
        i = i + 1;
    }
    assert(sigs_view(a@) =~= sigs_view(b@));
    true
}

/// The memo tables of the engine: decompressed signatures and public keys
/// by their compressed bytes, and aggregated public keys by signer bitmap
/// for the validator set last seen. Every entry is what the computation it
/// stands for would return, so a hit never changes a result.
pub struct CryptoContext {
    sig_cache: ByteCache,
    pk_cache: ByteCache,
    agg_pk_cache: ByteCache,
    roster: Vec<(ValidatorId, BlsPublicKey)>,
    capacity: usize,
}

impl CryptoContext {
    /// Every table holds up to the capacity of the context, and every entry
    /// of every table agrees with the computation it replaces.
    pub closed spec fn wf(&self) -> bool {
        &&& self.sig_cache.wf()
        &&& self.pk_cache.wf()
        &&& self.agg_pk_cache.wf()
        &&& self.sig_cache.capacity() == self.capacity
        &&& self.pk_cache.capacity() == self.capacity
        &&& self.agg_pk_cache.capacity() == self.capacity
        &&& forall|k: Seq<u8>| #[trigger]
            self.sig_cache@.contains_key(k) ==> g1_point(k) == Some(self.sig_cache@[k])
        &&& forall|k: Seq<u8>| #[trigger]
            self.pk_cache@.contains_key(k) ==> g2_point(k) == Some(self.pk_cache@[k])
        &&& forall|k: Seq<u8>| #[trigger]
            self.agg_pk_cache@.contains_key(k) ==> exists|b: SignerBitmap|
                k == u64_le(b) && aggregate_key(sigs_view(self.roster@), b) == Some(
                    self.agg_pk_cache@[k],
                )
    }

    /// The validator set that the table of aggregated keys speaks of.
    pub closed spec fn known_keys(&self) -> Seq<(ValidatorId, Seq<u8>)> {
        sigs_view(self.roster@)
    }

    /// The number of entries that each table holds before it starts
    /// afresh.
    pub closed spec fn capacity(&self) -> usize {
        self.capacity
    }

    /// The decompressed signatures that are remembered, by their compressed
    /// bytes.
    pub closed spec fn signature_table(&self) -> Map<Seq<u8>, Seq<u8>> {
        self.sig_cache@
    }

    /// The decompressed public keys that are remembered, by their
    /// compressed bytes.
    pub closed spec fn key_table(&self) -> Map<Seq<u8>, Seq<u8>> {
        self.pk_cache@
    }

    /// The aggregated public keys that are remembered, by the bytes of
    /// their signer bitmap.
    pub closed spec fn aggregate_table(&self) -> Map<Seq<u8>, Seq<u8>> {
        self.agg_pk_cache@
    }

    /// Empty tables, each of which holds up to `capacity` entries, and no
    /// validator set.
    pub fn with_capacity(capacity: usize) -> (ctx: Self)
        ensures
            ctx.wf(),
            ctx.capacity() == capacity,
            ctx.signature_table() == Map::<Seq<u8>, Seq<u8>>::empty(),
            ctx.key_table() == Map::<Seq<u8>, Seq<u8>>::empty(),
            ctx.aggregate_table() == Map::<Seq<u8>, Seq<u8>>::empty(),
            ctx.known_keys() == Seq::<(ValidatorId, Seq<u8>)>::empty(),
    {
        let ctx = CryptoContext {
            sig_cache: ByteCache::new(capacity),
            pk_cache: ByteCache::new(capacity),
            agg_pk_cache: ByteCache::new(capacity),
            roster: Vec::new(),
            capacity,
        };
        assert(ctx.known_keys() =~= Seq::<(ValidatorId, Seq<u8>)>::empty());
        ctx
    }

    /// Empty tables of the default size.
    pub fn new() -> (ctx: Self)
        ensures
            ctx.wf(),
    {
        Self::with_capacity(4096)
    }

    /// The point of a compressed signature, from the table or computed and
    /// remembered.
    pub fn signature_point(&mut self, bytes: &[u8]) -> (r: Option<Vec<u8>>)
        requires
            old(self).wf(),
        ensures
            final(self).wf(),
            final(self).known_keys() == old(self).known_keys(),
            match r {
                Some(p) => g1_point(bytes@) == Some(p@),
                None => g1_point(bytes@) is None,
            },
    {
        match self.sig_cache.get(bytes) {
            Some(p) => Some(p),
            None => {
                match uncompress_signature(bytes) {
                    Some(p) => {
                        let mut key: Vec<u8> = Vec::new();
                        crate::bytes::push_bytes(&mut key, bytes);
                        assert(key@ =~= bytes@);
                        self.sig_cache.insert(key, clone_bytes(&p));
                        Some(p)
                    },
                    None => None,
                }
            },
        }
    }

    /// The point of a compressed public key, from the table or computed and
    /// remembered.
    pub fn public_key_point(&mut self, bytes: &[u8]) -> (r: Option<Vec<u8>>)
        requires
            old(self).wf(),
        ensures
            final(self).wf(),
            final(self).known_keys() == old(self).known_keys(),
            match r {
                Some(p) => g2_point(bytes@) == Some(p@),
                None => g2_point(bytes@) is None,
            },
    {
        match self.pk_cache.get(bytes) {
            Some(p) => Some(p),
            None => {
                match uncompress_public_key(bytes) {
                    Some(p) => {
                        let mut key: Vec<u8> = Vec::new();
                        crate::bytes::push_bytes(&mut key, bytes);
                        assert(key@ =~= bytes@);
                        self.pk_cache.insert(key, clone_bytes(&p));
                        Some(p)
                    },
                    None => None,
                }
            },
        }
    }

    /// Makes `pks` the validator set that the table of aggregated keys
    /// speaks of, emptying the table where the set has changed.
    fn adopt_roster(&mut self, pks: &[(ValidatorId, BlsPublicKey)])
        requires
            old(self).wf(),
        ensures
            final(self).wf(),
            final(self).known_keys() == sigs_view(pks@),
    {
        if !same_keys(self.roster.as_slice(), pks) {
            let mut roster: Vec<(ValidatorId, BlsPublicKey)> = Vec::new();
            let mut i: usize = 0;
            while i < pks.len()
                invariant
                    i <= pks.len(),
                    roster.len() == i,
                    forall|k: int| 0 <= k < i ==> sigs_view(roster@)[k] == sigs_view(pks@)[k],
                decreases pks.len() - i,
            {
                roster.push((pks[i].0, clone_bytes(&pks[i].1)));
                i = i + 1;
            }
            assert(sigs_view(roster@) =~= sigs_view(pks@));
            self.agg_pk_cache = ByteCache::new(self.capacity);
            self.roster = roster;
        }
    }

    /// The aggregated public key, as a point, of the validators of `pks`
    /// that `bitmap` names, from the table or computed and remembered.
    pub fn aggregated_key(&mut self, pks: &[(ValidatorId, BlsPublicKey)], bitmap: SignerBitmap) -> (r:
        Option<Vec<u8>>)
        requires
            old(self).wf(),
        ensures
            final(self).wf(),
            match r {
                Some(p) => aggregate_key(sigs_view(pks@), bitmap) == Some(p@),
                None => aggregate_key(sigs_view(pks@), bitmap) is None,
            },
    {
        self.adopt_roster(pks);
        let ghost list = sigs_view(pks@);
        let mut key: Vec<u8> = Vec::new();
        push_u64_le(&mut key, bitmap);
        assert(key@ =~= u64_le(bitmap));
        match self.agg_pk_cache.get(key.as_slice()) {
            Some(p) => {
                proof {
                    let b = choose|b: SignerBitmap|
                        key@ == u64_le(b) && aggregate_key(sigs_view(self.roster@), b) == Some(
                            self.agg_pk_cache@[key@],
                        );
                    lemma_u64_le_injective(b, bitmap);
                }
                return Some(p);
            },
            None => {},
        }
        let mut points: Vec<Vec<u8>> = Vec::new();
        let mut i: usize = 0;
        while i < pks.len()
            invariant
                i <= pks.len(),
                self.wf(),
                list == sigs_view(pks@),
                self.known_keys() == list,
                key_points(selected_keys(list.take(i as int), bitmap)) == Some(views(points@)),
            decreases pks.len() - i,
        {
            proof {
                assert(list.take(i + 1).drop_last() =~= list.take(i as int));
            }
            if bit_is_set(bitmap, pks[i].0) {
                let ghost sel = selected_keys(list.take(i + 1), bitmap);
                proof {
                    assert(sel.drop_last() =~= selected_keys(list.take(i as int), bitmap));
                }
                match self.public_key_point(pks[i].1.as_slice()) {
                    Some(p) => {
                        let ghost before = views(points@);
                        points.push(p);
                        assert(views(points@) =~= before.push(p@));
                    },
                    None => {
                        proof {
                            lemma_key_points_prefix(list, bitmap, i + 1);
                        }
                        return None;
                    },
                }
            }
            i = i + 1;
        }
        proof {
            assert(list.take(i as int) =~= list);
        }
        if points.len() == 0 {
            return None;
        }
        match aggregate_key_points(&points) {
            Some(p) => {
                self.agg_pk_cache.insert(key, clone_bytes(&p));
                Some(p)
            },
            None => None,
        }
    }
}


/// What verifying took.
#[derive(Debug, Clone, Copy)]
pub struct BlsVerifyMetrics {
    pub verify_micros: u64,
    pub pairing_count: u64,
}

/// What aggregating took.
#[derive(Debug, Clone, Copy, Default)]
pub struct BlsAggregateMetrics {
    pub aggregate_micros: u64,
    pub signature_count: usize,
}

/// Why partial signatures could not be aggregated.
#[derive(Debug, Clone, Copy, PartialEq, Eq, Structural)]
pub enum AggregateError {
    /// Fewer partial signatures than the quorum.
    InsufficientSignatures,
    /// A signer ID that has no bit in the bitmap.
    IdOutOfRange,
    /// A signer that occurs twice.
    DuplicateSigner,
    /// Signature bytes that are no compressed curve point.
    InvalidSignatureFormat,
    /// The curve library refused the sum.
    AggregationFailed,
}

impl AggregateError {
    /// A short description of the error.
    pub fn message(&self) -> (m: &'static str)
        ensures
            m@ == match *self {
                AggregateError::InsufficientSignatures => "Insufficient signatures"@,
                AggregateError::IdOutOfRange => "ID out of range"@,
                AggregateError::DuplicateSigner => "Duplicate signer"@,
                AggregateError::InvalidSignatureFormat => "Invalid signature format"@,
                AggregateError::AggregationFailed => "Aggregation failed"@,
            },
    {
        match self {
            AggregateError::InsufficientSignatures => "Insufficient signatures",
            AggregateError::IdOutOfRange => "ID out of range",
            AggregateError::DuplicateSigner => "Duplicate signer",
            AggregateError::InvalidSignatureFormat => "Invalid signature format",
            AggregateError::AggregationFailed => "Aggregation failed",
        }
    }
}

/// What is wrong with the partial signature at position `i`, given those
/// before it: its signer has no bit, or occurred before, or its bytes are
/// no curve point.
pub open spec fn entry_fault(sigs: Seq<(ValidatorId, Seq<u8>)>, i: int) -> Option<AggregateError> {
    if sigs[i].0 >= 64 {
        Some(AggregateError::IdOutOfRange)
    } else if exists|j: int| 0 <= j < i && sigs[j].0 == sigs[i].0 {
        Some(AggregateError::DuplicateSigner)
    } else if g1_point(sigs[i].1) is None {
        Some(AggregateError::InvalidSignatureFormat)
    } else {
        None
    }
}

/// The points of the partial signatures.
pub open spec fn signature_points(sigs: Seq<(ValidatorId, Seq<u8>)>) -> Seq<Seq<u8>> {
    Seq::new(sigs.len(), |i: int| g1_point(sigs[i].1).unwrap())
}

/// The bitmap with the bit of each signer of the list; a signer that has no
/// bit adds nothing.
pub open spec fn signer_bitmap(sigs: Seq<(ValidatorId, Seq<u8>)>) -> SignerBitmap
    decreases sigs.len(),
{
    if sigs.len() == 0 {
        0
    } else if sigs.last().0 < 64 {
        signer_bitmap(sigs.drop_last()) | (1u64 << (sigs.last().0 as u64))
    } else {
        signer_bitmap(sigs.drop_last())
    }
}

/// The bitmap names exactly the signers of the list.
pub open spec fn names_signers(bitmap: SignerBitmap, sigs: Seq<(ValidatorId, Seq<u8>)>) -> bool {
    forall|id: ValidatorId|
        bit_set(bitmap, id) <==> exists|i: int| 0 <= i < sigs.len() && #[trigger] sigs[i].0 == id
}

/// Setting bit `k` adds validator `k` to a bitmap and nobody else.
pub proof fn lemma_set_bit(bitmap: SignerBitmap, k: ValidatorId)
    requires
        k < 64,
    ensures
        forall|id: ValidatorId|
            bit_set((bitmap | (1u64 << (k as u64))), id) == (bit_set(bitmap, id) || id == k),
{
    let kk: u64 = k as u64;
    assert forall|id: ValidatorId|
        bit_set((bitmap | (1u64 << kk)), id) == (bit_set(bitmap, id) || id == k) by {
        if id < 64 {
            let i: u64 = id as u64;
            assert((((bitmap | (1u64 << kk)) & (1u64 << i)) != 0) == ((bitmap & (1u64 << i)) != 0
                || i == kk)) by (bit_vector)
                requires
                    i < 64,
                    kk < 64,
            ;
        }
    }
}

/// Adding a validator that a bitmap does not name raises its count by one.
pub proof fn lemma_count_bits_set(bitmap: SignerBitmap, k: ValidatorId, n: nat)
    requires
        k < 64,
        !bit_set(bitmap, k),
        n <= 64,
    ensures
        count_bits((bitmap | (1u64 << (k as u64))), n) == count_bits(bitmap, n) + if k < n {
            1nat
        } else {
            0nat
        },
    decreases n,
{
    if n > 0 {
        lemma_count_bits_set(bitmap, k, (n - 1) as nat);
        lemma_set_bit(bitmap, k);
    }
}

/// Aggregates partial signatures into one signature and the bitmap of its
/// signers.
///
/// Fails with `InsufficientSignatures` on fewer than `expected_quorum`
/// entries; otherwise with the fault of the first faulty entry; otherwise
/// with `AggregationFailed` where the curve library refuses the sum.
pub fn aggregate_signatures_with_metrics(
    ctx: &mut CryptoContext,
    signatures: &[(ValidatorId, BlsSignature)],
    expected_quorum: usize,
) -> (r: Result<(BlsSignature, SignerBitmap, BlsAggregateMetrics), AggregateError>)
    requires
        old(ctx).wf(),
    ensures
        final(ctx).wf(),
        signatures@.len() < expected_quorum ==> r == Err::<
            (BlsSignature, SignerBitmap, BlsAggregateMetrics),
            AggregateError,
        >(AggregateError::InsufficientSignatures),
        signatures@.len() >= expected_quorum ==> match r {
            Err(e) => {
                let sigs = sigs_view(signatures@);
                ||| exists|i: int|
                    0 <= i < sigs.len() && entry_fault(sigs, i) == Some(e) && forall|j: int|
                        0 <= j < i ==> entry_fault(sigs, j) is None
                ||| e == AggregateError::AggregationFailed && g1_aggregate(signature_points(sigs))
                    is None && forall|i: int| 0 <= i < sigs.len() ==> entry_fault(sigs, i) is None
            },
            Ok((agg, bitmap, metrics)) => {
                let sigs = sigs_view(signatures@);
                &&& forall|i: int| 0 <= i < sigs.len() ==> entry_fault(sigs, i) is None
                &&& forall|i: int| 0 <= i < sigs.len() ==> (#[trigger] sigs[i]).0 < 64
                &&& g1_aggregate(signature_points(sigs)) == Some(agg@)
                &&& bitmap == signer_bitmap(sigs)
                &&& names_signers(bitmap, sigs)
                &&& popcount(bitmap) == sigs.len()
                &&& metrics.signature_count == sigs.len()
            },
        },
{
    let start: std::time::Instant = crate::clock::clock_now();
    if signatures.len() < expected_quorum {
        return Err(AggregateError::InsufficientSignatures);
    }
    let ghost sigs = sigs_view(signatures@);
    let mut bitmap: SignerBitmap = 0;
    let mut points: Vec<Vec<u8>> = Vec::new();
    let mut i: usize = 0;
    proof {
        lemma_popcount_zero();
    }
    while i < signatures.len()
        invariant
            i <= signatures.len(),
            signatures@.len() >= expected_quorum,
            ctx.wf(),
            sigs == sigs_view(signatures@),
            forall|j: int| 0 <= j < i ==> entry_fault(sigs, j) is None,
            views(points@) == signature_points(sigs.take(i as int)),
            forall|id: ValidatorId|
                bit_set(bitmap, id) <==> exists|j: int| 0 <= j < i && #[trigger] sigs[j].0 == id,
            count_bits(bitmap, 64) == i,
            bitmap == signer_bitmap(sigs.take(i as int)),
        decreases signatures.len() - i,
    {
        let id: ValidatorId = signatures[i].0;
        assert(sigs[i as int] == (id, signatures@[i as int].1@));
        if id >= 64 {
            assert(entry_fault(sigs, i as int) == Some(AggregateError::IdOutOfRange));
            return Err(AggregateError::IdOutOfRange);
        }
        if bit_is_set(bitmap, id) {
            proof {
                let j = choose|j: int| 0 <= j < i && #[trigger] sigs[j].0 == id;
                assert(0 <= j < i && sigs[j].0 == sigs[i as int].0);
                assert(entry_fault(sigs, i as int) == Some(AggregateError::DuplicateSigner));
            }
            return Err(AggregateError::DuplicateSigner);
        }
        proof {
            if exists|j: int| 0 <= j < i && sigs[j].0 == sigs[i as int].0 {
                let j = choose|j: int| 0 <= j < i && sigs[j].0 == sigs[i as int].0;
                assert(sigs[j].0 == id);
                assert(bit_set(bitmap, id));
            }
        }
        let point: Vec<u8> = match ctx.signature_point(signatures[i].1.as_slice()) {
            Some(p) => p,
            None => {
                assert(entry_fault(sigs, i as int) == Some(
                    AggregateError::InvalidSignatureFormat,
                ));
                return Err(AggregateError::InvalidSignatureFormat);
            },
        };
        assert(entry_fault(sigs, i as int) is None);
        proof {
            lemma_set_bit(bitmap, id);
            lemma_count_bits_set(bitmap, id, 64);
            assert(sigs.take(i + 1).drop_last() =~= sigs.take(i as int));
            assert(sigs.take(i + 1).last() == sigs[i as int]);
            assert(signature_points(sigs.take(i + 1)) =~= signature_points(
                sigs.take(i as int),
            ).push(point@));
        }
        let ghost before = views(points@);
        let ghost old_bitmap = bitmap;
        points.push(point);
        assert(views(points@) =~= before.push(points@[i as int]@));
        bitmap = bitmap | (1u64 << (id as u64));
        proof {
            assert forall|x: ValidatorId|
                bit_set(bitmap, x) <==> exists|j: int| 0 <= j < i + 1 && #[trigger] sigs[j].0 == x by {
                if bit_set(bitmap, x) {
                    if x == id {
                        assert(sigs[i as int].0 == x);
                    } else {
                        assert(bit_set(old_bitmap, x));
                        let j = choose|j: int| 0 <= j < i && #[trigger] sigs[j].0 == x;
                        assert(0 <= j < i + 1 && sigs[j].0 == x);
                    }
                }
                if exists|j: int| 0 <= j < i + 1 && #[trigger] sigs[j].0 == x {
                    let j = choose|j: int| 0 <= j < i + 1 && #[trigger] sigs[j].0 == x;
                    if j < i {
                        assert(bit_set(old_bitmap, x));
                    }
                }
            }
        }
        i = i + 1;
    }
    proof {
        assert(sigs.take(i as int) =~= sigs);
        assert forall|k: int| 0 <= k < sigs.len() implies (#[trigger] sigs[k]).0 < 64 by {
            assert(entry_fault(sigs, k) is None);
        }
    }
    match aggregate_signature_points(&points) {
        Some(agg) => {
            let elapsed: u64 = crate::clock::micros_since(&start);
            Ok(
                (
                    agg,
                    bitmap,
                    BlsAggregateMetrics {
                        aggregate_micros: elapsed,
                        signature_count: signatures.len(),
                    },
                ),
            )
        },
        None => Err(AggregateError::AggregationFailed),
    }
}


/// One aggregated certificate to verify: the message, the aggregated
/// signature, the known public keys, the signer bitmap and the quorum.
pub type BatchItem<'a> = (
    &'a [u8],
    &'a BlsSignature,
    &'a [(ValidatorId, BlsPublicKey)],
    SignerBitmap,
    usize,
);

/// A batch item as plain values.
pub struct BatchItemView {
    pub msg: Seq<u8>,
    pub agg_sig: Seq<u8>,
    pub keys: Seq<(ValidatorId, Seq<u8>)>,
    pub bitmap: SignerBitmap,
    pub quorum: nat,
}

impl BatchItemView {
    /// See `aggregate_well_formed`.
    pub open spec fn well_formed(self) -> bool {
        aggregate_well_formed(self.agg_sig, self.keys, self.bitmap, self.quorum)
    }

    /// The point of the aggregated signature.
    pub open spec fn sig_point(self) -> Seq<u8> {
        g1_point(self.agg_sig).unwrap()
    }

    /// The point of the signers' aggregated key.
    pub open spec fn key_point(self) -> Seq<u8> {
        aggregate_key(self.keys, self.bitmap).unwrap()
    }
}

/// The plain values of a list of batch items.
pub open spec fn items_view(items: Seq<BatchItem>) -> Seq<BatchItemView> {
    Seq::new(
        items.len(),
        |i: int|
            BatchItemView {
                msg: items[i].0@,
                agg_sig: items[i].1@,
                keys: sigs_view(items[i].2@),
                bitmap: items[i].3,
                quorum: items[i].4 as nat,
            },
    )
}

/// Whether every item of a batch can be checked at all.
pub open spec fn batch_well_formed(items: Seq<BatchItemView>) -> bool {
    forall|i: int| 0 <= i < items.len() ==> (#[trigger] items[i]).well_formed()
}

/// Whether a batch is accepted under the given blinding scalars: every item
/// is well formed, and a single item passes its pairing check, several
/// pass the blinded batch check. The empty batch is accepted.
pub open spec fn batch_accepts(items: Seq<BatchItemView>, scalars: Seq<Seq<u8>>) -> bool {
    &&& batch_well_formed(items)
    &&& items.len() == 1 ==> bls_verifies(items[0].sig_point(), items[0].msg, items[0].key_point())
    &&& items.len() > 1 ==> bls_batch_verifies(
        Seq::new(items.len(), |i: int| items[i].msg),
        Seq::new(items.len(), |i: int| items[i].key_point()),
        Seq::new(items.len(), |i: int| items[i].sig_point()),
        scalars,
    )
}

/// The number of pairings that checking `n` well-formed items takes.
pub open spec fn pairings_for(n: nat) -> nat {
    if n == 0 {
        0
    } else if n == 1 {
        2
    } else {
        n + 1
    }
}

/// A batch of one item is accepted exactly when the item is valid,
/// whatever the scalars.
pub proof fn lemma_single_item_batch(items: Seq<BatchItemView>, scalars: Seq<Seq<u8>>)
    requires
        items.len() == 1,
    ensures
        batch_accepts(items, scalars) == aggregate_accepts(
            items[0].msg,
            items[0].agg_sig,
            items[0].keys,
            items[0].bitmap,
            items[0].quorum,
        ),
{
    if aggregate_accepts(
        items[0].msg,
        items[0].agg_sig,
        items[0].keys,
        items[0].bitmap,
        items[0].quorum,
    ) {
        assert(items[0].well_formed());
    }
}

/// Every certificate of an accepted batch names at least its quorum of
/// signers.
pub proof fn lemma_accepted_batch_has_quorums(items: Seq<BatchItemView>, scalars: Seq<Seq<u8>>, i: int)
    requires
        batch_accepts(items, scalars),
        0 <= i < items.len(),
    ensures
        popcount(items[i].bitmap) >= items[i].quorum,
{
    assert(items[i].well_formed());
}

/// An aggregated certificate whose bitmap names nobody is never valid.
pub proof fn lemma_empty_bitmap_rejected(
    msg: Seq<u8>,
    agg_sig: Seq<u8>,
    pks: Seq<(ValidatorId, Seq<u8>)>,
    quorum: nat,
)
    ensures
        !aggregate_accepts(msg, agg_sig, pks, 0, quorum),
{
    lemma_popcount_zero();
    lemma_selected_none(pks);
    assert(key_points(selected_keys(pks, 0)) == Some(Seq::<Seq<u8>>::empty()));
}

proof fn lemma_selected_none(pks: Seq<(ValidatorId, Seq<u8>)>)
    requires
        forall|id: ValidatorId| !bit_set(0, id),
    ensures
        selected_keys(pks, 0).len() == 0,
    decreases pks.len(),
{
    if pks.len() > 0 {
        lemma_selected_none(pks.drop_last());
    }
}

/// Decompresses the signature and aggregates the signers' keys of one
/// certificate; `None` where the certificate is not well formed.
pub fn prepare_item(
    ctx: &mut CryptoContext,
    agg_sig: &[u8],
    public_keys: &[(ValidatorId, BlsPublicKey)],
    bitmap: SignerBitmap,
    expected_quorum: usize,
) -> (r: Option<(Vec<u8>, Vec<u8>)>)
    requires
        old(ctx).wf(),
    ensures
        final(ctx).wf(),
        r is Some <==> aggregate_well_formed(
            agg_sig@,
            sigs_view(public_keys@),
            bitmap,
            expected_quorum as nat,
        ),
        r is Some ==> g1_point(agg_sig@) == Some(r.unwrap().0@) && aggregate_key(
            sigs_view(public_keys@),
            bitmap,
        ) == Some(r.unwrap().1@),
{
    if count_signers(bitmap) < expected_quorum {
        return None;
    }
    if count_selected(public_keys, bitmap) < expected_quorum {
        return None;
    }
    let sig_point: Vec<u8> = match ctx.signature_point(agg_sig) {
        Some(p) => p,
        None => {
            return None;
        },
    };
    match ctx.aggregated_key(public_keys, bitmap) {
        Some(key_point) => Some((sig_point, key_point)),
        None => None,
    }
}

/// Verifies one aggregated certificate: true exactly when it is valid.
/// A well-formed certificate takes two pairings, another none.
pub fn verify_aggregated_with_metrics(
    ctx: &mut CryptoContext,
    msg: &[u8],
    agg_sig: &BlsSignature,
    public_keys: &[(ValidatorId, BlsPublicKey)],
    bitmap: SignerBitmap,
    expected_quorum: usize,
) -> (r: (bool, BlsVerifyMetrics))
    requires
        old(ctx).wf(),
    ensures
        final(ctx).wf(),
        r.0 == aggregate_accepts(
            msg@,
            agg_sig@,
            sigs_view(public_keys@),
            bitmap,
            expected_quorum as nat,
        ),
        r.0 ==> popcount(bitmap) >= expected_quorum,
        bitmap == 0 ==> !r.0,
        r.1.pairing_count == if aggregate_well_formed(
            agg_sig@,
            sigs_view(public_keys@),
            bitmap,
            expected_quorum as nat,
        ) {
            2u64
        } else {
            0u64
        },
        !aggregate_well_formed(agg_sig@, sigs_view(public_keys@), bitmap, expected_quorum as nat)
            ==> r.1.verify_micros == 0,
{
    let start: std::time::Instant = crate::clock::clock_now();
    proof {
        lemma_empty_bitmap_rejected(msg@, agg_sig@, sigs_view(public_keys@), expected_quorum as nat);
    }
    match prepare_item(ctx, agg_sig.as_slice(), public_keys, bitmap, expected_quorum) {
        Some((sig_point, key_point)) => {
            let valid: bool = pairing_check(sig_point.as_slice(), msg, key_point.as_slice());
            let elapsed: u64 = crate::clock::micros_since(&start);
            (valid, BlsVerifyMetrics { verify_micros: elapsed, pairing_count: 2 })
        },
        None => (false, BlsVerifyMetrics { verify_micros: 0, pairing_count: 0 }),
    }
}

/// Verifies one aggregated certificate: true exactly when it is valid.
pub fn verify_aggregated(
    ctx: &mut CryptoContext,
    msg: &[u8],
    agg_sig: &BlsSignature,
    public_keys: &[(ValidatorId, BlsPublicKey)],
    bitmap: SignerBitmap,
    expected_quorum: usize,
) -> (valid: bool)
    requires
        old(ctx).wf(),
    ensures
        final(ctx).wf(),
        valid == aggregate_accepts(
            msg@,
            agg_sig@,
            sigs_view(public_keys@),
            bitmap,
            expected_quorum as nat,
        ),
        valid ==> popcount(bitmap) >= expected_quorum,
        bitmap == 0 ==> !valid,
{
    verify_aggregated_with_metrics(ctx, msg, agg_sig, public_keys, bitmap, expected_quorum).0
}

/// Whether `scalars` are blinding scalars for a batch of `n` items: one
/// for each, of 32 bytes, with the three top bits of the last byte clear.
pub open spec fn blinding_scalars(scalars: Seq<Seq<u8>>, n: nat) -> bool {
    &&& scalars.len() == n
    &&& forall|i: int|
        0 <= i < n ==> (#[trigger] scalars[i]).len() == 32 && scalars[i][31] <= 0x1f
}

/// Draws `count` random blinding scalars.
pub fn generate_random_scalars(count: usize) -> (scalars: Vec<[u8; 32]>)
    ensures
        blinding_scalars(scalar_views(scalars@), count as nat),
{
    let mut scalars: Vec<[u8; 32]> = Vec::new();
    let mut i: usize = 0;
    while i < count
        invariant
            i <= count,
            blinding_scalars(scalar_views(scalars@), i as nat),
        decreases count - i,
    {
        let mut bytes: [u8; 32] = crate::random::random_bytes32();
        let top: u8 = bytes[31];
        let masked: u8 = top & 0x1f;
        assert(masked <= 0x1f) by (bit_vector)
            requires
                masked == top & 0x1f,
        ;
        bytes[31] = masked;
        let ghost before = scalar_views(scalars@);
        scalars.push(bytes);
        assert(scalar_views(scalars@) =~= before.push(bytes@));
        i = i + 1;
    }
    scalars
}

/// Verifies a batch of aggregated certificates under the given blinding
/// scalars: true exactly when `batch_accepts` holds. One failing item
/// fails the whole batch.
pub fn verify_aggregated_batch_with_scalars(
    ctx: &mut CryptoContext,
    items: &Vec<BatchItem>,
    scalars: &Vec<[u8; 32]>,
) -> (r: (bool, BlsVerifyMetrics))
    requires
        old(ctx).wf(),
    ensures
        final(ctx).wf(),
        r.0 == batch_accepts(items_view(items@), scalar_views(scalars@)),
        batch_well_formed(items_view(items@)) && items@.len() < u64::MAX ==> r.1.pairing_count
            == pairings_for(items@.len()),
        !batch_well_formed(items_view(items@)) ==> r.1.pairing_count == 0 && r.1.verify_micros
            == 0,
{
    let start: std::time::Instant = crate::clock::clock_now();
    if items.len() == 0 {
        return (true, BlsVerifyMetrics { verify_micros: 0, pairing_count: 0 });
    }
    let ghost list = items_view(items@);
    let mut msgs: Vec<&[u8]> = Vec::new();
    let mut sig_points: Vec<Vec<u8>> = Vec::new();
    let mut key_points: Vec<Vec<u8>> = Vec::new();
    let mut i: usize = 0;
    while i < items.len()
        invariant
            i <= items.len(),
            ctx.wf(),
            list == items_view(items@),
            msgs@.len() == i,
            sig_points@.len() == i,
            key_points@.len() == i,
            forall|k: int|
                0 <= k < i ==> {
                    &&& (#[trigger] list[k]).well_formed()
                    &&& msgs@[k]@ == list[k].msg
                    &&& sig_points@[k]@ == list[k].sig_point()
                    &&& key_points@[k]@ == list[k].key_point()
                },
        decreases items.len() - i,
    {
        let item = &items[i];
        match prepare_item(ctx, item.1.as_slice(), item.2, item.3, item.4) {
            Some((sig_point, key_point)) => {
                msgs.push(item.0);
                sig_points.push(sig_point);
                key_points.push(key_point);
            },
            None => {
                assert(!list[i as int].well_formed());
                return (false, BlsVerifyMetrics { verify_micros: 0, pairing_count: 0 });
            },
        }
        i = i + 1;
    }
    proof {
        assert(slice_views(msgs@) =~= Seq::new(list.len(), |i: int| list[i].msg));
        assert(views(key_points@) =~= Seq::new(list.len(), |i: int| list[i].key_point()));
        assert(views(sig_points@) =~= Seq::new(list.len(), |i: int| list[i].sig_point()));
    }
    let valid: bool = if items.len() > 1 {
        batch_pairing_check(&msgs, &key_points, &sig_points, scalars)
    } else {
        pairing_check(sig_points[0].as_slice(), msgs[0], key_points[0].as_slice())
    };
    let elapsed: u64 = crate::clock::micros_since(&start);
    let count: u64 = items.len() as u64;
    let pairing_count: u64 = if count > 1 {
        if count < u64::MAX {
            count + 1
        } else {
            count
        }
    } else {
        2
    };
    (valid, BlsVerifyMetrics { verify_micros: elapsed, pairing_count })
}

/// Verifies a batch of aggregated certificates, a single one by one pairing
/// check, several by one blinded check with fresh random scalars.
///
/// The empty batch is accepted. A batch with an item that is not well
/// formed is refused. Otherwise the result is that of `batch_accepts` under
/// the scalars drawn, which for a single item is whether it is valid.
pub fn verify_aggregated_batch_with_metrics(ctx: &mut CryptoContext, items: Vec<BatchItem>) -> (r: (
    bool,
    BlsVerifyMetrics,
))
    requires
        old(ctx).wf(),
    ensures
        final(ctx).wf(),
        exists|scalars: Seq<Seq<u8>>|
            blinding_scalars(scalars, items@.len()) && r.0 == #[trigger] batch_accepts(
                items_view(items@),
                scalars,
            ),
        batch_well_formed(items_view(items@)) && items@.len() < u64::MAX ==> r.1.pairing_count
            == pairings_for(items@.len()),
        !batch_well_formed(items_view(items@)) ==> r.1.pairing_count == 0 && r.1.verify_micros
            == 0,
{
    let scalars: Vec<[u8; 32]> = generate_random_scalars(items.len());
    verify_aggregated_batch_with_scalars(ctx, &items, &scalars)
}

} // verus!
