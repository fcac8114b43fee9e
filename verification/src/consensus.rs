//! The consensus state machine: the round a validator proposes into, the
//! partial signatures collected for each vertex, promotion of vertices to
//! certified, and the bounds that gate proposal and batch verification.

use vstd::prelude::*;
use crate::codec::vertex_bytes;
use crate::crypto::{blake3_digest, derive_vrf_seed, hash_vertex, vrf_seed_input};
use crate::linearize::key_le;
use crate::sorting::views;
use crate::dag::{Dag, DagView, insert_fault, with_certified};
use crate::bls_crypto::{
    AggregateError, CryptoContext, aggregate_accepts, aggregate_signatures_with_metrics,
    entry_fault, g1_aggregate, g1_point, popcount, signature_points, signer_bitmap,
    verify_aggregated,
};
use crate::store::HashTable;
use crate::types::{
    Certificate,
    AggregatedCertifiedVertex, AggregatedCoA, AggregatedCoAView, BlsPublicKey, CertificateView,
    CertifiedVertex, CoA, CoAView, Digest, Event, Signature, ValidatorId, Vertex, VertexView,
    sigs_view, clone_bytes, clone_sigs, has_signer, distinct_signers, signer_present,
};

verus! {

/// The largest distance between the proposing round and the committed
/// round at which a validator still proposes.
pub const MAX_ROUND_DRIFT: u64 = 50;

/// The largest number of vertices awaiting verification at which a
/// validator still proposes.
pub const VERIFICATION_WINDOW: usize = 200;

/// The distance between the proposing round and the committed round.
pub open spec fn drift_of(round: u64, committed_round: u64) -> u64 {
    if round >= committed_round {
        (round - committed_round) as u64
    } else {
        0
    }
}

/// The number of queued aggregates at which a batch is verified: 8, and 4
/// once the drift is above 10.
pub open spec fn batch_trigger_of(drift: u64) -> usize {
    if drift > 10 {
        4
    } else {
        8
    }
}

/// Computes `batch_trigger_of`.
pub fn batch_trigger(drift: u64) -> (t: usize)
    ensures
        t == batch_trigger_of(drift),
{
    if drift > 10 {
        4
    } else {
        8
    }
}

/// Decides whether the queued aggregates are verified now: there is one,
/// and either the batch trigger is reached or the drift is above 15.
pub fn should_verify(queued: usize, drift: u64) -> (go: bool)
    ensures
        go == (queued > 0 && (queued >= batch_trigger_of(drift) || drift > 15)),
{
    queued > 0 && (queued >= batch_trigger(drift) || drift > 15)
}

/// The drift of a validator over time: each sample, and the largest.
#[derive(Debug, Default)]
pub struct DriftMetrics {
    pub drift_samples: Vec<u64>,
    pub max_drift: u64,
}

impl DriftMetrics {
    /// No sample yet.
    pub fn new() -> (m: Self)
        ensures
            m.drift_samples@ == Seq::<u64>::empty(),
            m.max_drift == 0,
    {
        DriftMetrics { drift_samples: Vec::new(), max_drift: 0 }
    }

    /// Records a sample of the drift.
    pub fn record(&mut self, drift: u64)
        ensures
            final(self).drift_samples@ == old(self).drift_samples@.push(drift),
            final(self).max_drift == if drift > old(self).max_drift {
                drift
            } else {
                old(self).max_drift
            },
    {
        self.drift_samples.push(drift);
        if drift > self.max_drift {
            self.max_drift = drift;
        }
    }
}

/// The signatures of the list but those of `signer`, in their order.
pub open spec fn without_signer(sigs: Seq<(ValidatorId, Seq<u8>)>, signer: ValidatorId) -> Seq<
    (ValidatorId, Seq<u8>),
>
    decreases sigs.len(),
{
    if sigs.len() == 0 {
        sigs
    } else if sigs.last().0 == signer {
        without_signer(sigs.drop_last(), signer)
    } else {
        without_signer(sigs.drop_last(), signer).push(sigs.last())
    }
}

/// What is left without a signer holds no signature of that signer, and
/// keeps the signers distinct.
pub proof fn lemma_without_signer(sigs: Seq<(ValidatorId, Seq<u8>)>, signer: ValidatorId)
    ensures
        !has_signer(without_signer(sigs, signer), signer),
        forall|s: ValidatorId|
            has_signer(without_signer(sigs, signer), s) ==> has_signer(sigs, s),
        distinct_signers(sigs) ==> distinct_signers(without_signer(sigs, signer)),
    decreases sigs.len(),
{
    let out = without_signer(sigs, signer);
    if sigs.len() > 0 {
        let head = sigs.drop_last();
        let rest = without_signer(head, signer);
        lemma_without_signer(head, signer);
        assert forall|s: ValidatorId| has_signer(out, s) implies has_signer(sigs, s) by {
            let i = choose|i: int| 0 <= i < out.len() && (#[trigger] out[i]).0 == s;
            if i < rest.len() {
                assert(rest[i].0 == s);
                assert(has_signer(rest, s));
                assert(has_signer(head, s));
                let j = choose|j: int| 0 <= j < head.len() && (#[trigger] head[j]).0 == s;
                assert(head[j] == sigs[j]);
                assert(0 <= j < sigs.len() && sigs[j].0 == s);
            } else {
                assert(out[i] == sigs[sigs.len() - 1]);
                assert(sigs[sigs.len() - 1].0 == s);
            }
        }
        if has_signer(out, signer) {
            let i = choose|i: int| 0 <= i < out.len() && (#[trigger] out[i]).0 == signer;
            if i < rest.len() {
                assert(rest[i].0 == signer);
                assert(has_signer(rest, signer));
            }
        }
        if distinct_signers(sigs) {
            assert forall|i: int, j: int| 0 <= i < j < head.len() implies (#[trigger] head[i]).0
                != (#[trigger] head[j]).0 by {
                assert(sigs[i].0 != sigs[j].0);
            }
            if sigs.last().0 != signer {
                assert forall|i: int, j: int| 0 <= i < j < out.len() implies (
                #[trigger] out[i]).0 != (#[trigger] out[j]).0 by {
                    if j == rest.len() {
                        assert(rest[i] == out[i]);
                        if rest[i].0 == sigs.last().0 {
                            assert(has_signer(rest, sigs.last().0));
                            assert(has_signer(head, sigs.last().0));
                            let k = choose|k: int|
                                0 <= k < head.len() && (#[trigger] head[k]).0 == sigs.last().0;
                            assert(sigs[k].0 == sigs[sigs.len() - 1].0);
                        }
                    } else {
                        assert(rest[i].0 != rest[j].0);
                    }
                }
            }
        }
    }
}

/// Whether every partial signature of the list can go into an aggregate:
/// its signer has a bit in the bitmap, and its bytes are a curve point.
pub open spec fn all_sound(sigs: Seq<(ValidatorId, Seq<u8>)>) -> bool {
    forall|i: int|
        0 <= i < sigs.len() ==> (#[trigger] sigs[i]).0 < 64 && g1_point(sigs[i].1) is Some
}

/// The partial signatures of the list that can go into an aggregate, in
/// their order.
pub open spec fn sound_partials(sigs: Seq<(ValidatorId, Seq<u8>)>) -> Seq<(ValidatorId, Seq<u8>)>
    decreases sigs.len(),
{
    if sigs.len() == 0 {
        sigs
    } else if sigs.last().0 < 64 && g1_point(sigs.last().1) is Some {
        sound_partials(sigs.drop_last()).push(sigs.last())
    } else {
        sound_partials(sigs.drop_last())
    }
}

/// The partial signatures that can go into an aggregate are all sound, and
/// their signers are distinct where those of the list are.
pub proof fn lemma_sound_partials(sigs: Seq<(ValidatorId, Seq<u8>)>)
    ensures
        all_sound(sound_partials(sigs)),
        forall|s: ValidatorId| has_signer(sound_partials(sigs), s) ==> has_signer(sigs, s),
        distinct_signers(sigs) ==> distinct_signers(sound_partials(sigs)),
    decreases sigs.len(),
{
    let out = sound_partials(sigs);
    if sigs.len() > 0 {
        let head = sigs.drop_last();
        let rest = sound_partials(head);
        lemma_sound_partials(head);
        assert forall|i: int| 0 <= i < out.len() implies (#[trigger] out[i]).0 < 64 && g1_point(
            out[i].1,
        ) is Some by {
            if i < rest.len() {
                assert(out[i] == rest[i]);
            }
        }
        assert forall|s: ValidatorId| has_signer(out, s) implies has_signer(sigs, s) by {
            let i = choose|i: int| 0 <= i < out.len() && (#[trigger] out[i]).0 == s;
            if i < rest.len() {
                assert(rest[i].0 == s);
                assert(has_signer(rest, s));
                assert(has_signer(head, s));
                let j = choose|j: int| 0 <= j < head.len() && (#[trigger] head[j]).0 == s;
                assert(head[j] == sigs[j]);
                assert(0 <= j < sigs.len() && sigs[j].0 == s);
            } else {
                assert(out[i] == sigs[sigs.len() - 1]);
                assert(sigs[sigs.len() - 1].0 == s);
            }
        }
        if distinct_signers(sigs) {
            assert forall|i: int, j: int| 0 <= i < j < head.len() implies (#[trigger] head[i]).0
                != (#[trigger] head[j]).0 by {
                assert(sigs[i].0 != sigs[j].0);
            }
            if out.len() > rest.len() {
                assert forall|i: int, j: int| 0 <= i < j < out.len() implies (
                #[trigger] out[i]).0 != (#[trigger] out[j]).0 by {
                    if j == rest.len() {
                        assert(rest[i] == out[i]);
                        if rest[i].0 == sigs.last().0 {
                            assert(has_signer(rest, sigs.last().0));
                            assert(has_signer(head, sigs.last().0));
                            let k = choose|k: int|
                                0 <= k < head.len() && (#[trigger] head[k]).0 == sigs.last().0;
                            assert(sigs[k].0 == sigs[sigs.len() - 1].0);
                        }
                    } else {
                        assert(rest[i].0 != rest[j].0);
                    }
                }
            }
        }
    }
}

/// What an attempt to certify a vertex came to.
#[derive(Debug, Clone, Copy, PartialEq, Eq, Structural)]
pub enum CertifyOutcome {
    /// No vertex is known under the hash.
    Unknown,
    /// The vertex is certified already.
    AlreadyCertified,
    /// Fewer than a quorum of signers have signed.
    Collecting,
    /// A partial signature could not go into an aggregate; those that can
    /// were kept.
    Malformed,
    /// The certificate did not verify, or the store refused the vertex; the
    /// partial signatures were cleared.
    Rejected,
    /// The vertex is certified now.
    Certified,
}

/// The signatures collected after `incoming` has been merged into
/// `existing`: each incoming entry in turn is added at the end unless its
/// signer is there already.
pub open spec fn merge_sigs(
    existing: Seq<(ValidatorId, Seq<u8>)>,
    incoming: Seq<(ValidatorId, Seq<u8>)>,
) -> Seq<(ValidatorId, Seq<u8>)>
    decreases incoming.len(),
{
    if incoming.len() == 0 {
        existing
    } else {
        let merged = merge_sigs(existing, incoming.drop_last());
        if has_signer(merged, incoming.last().0) {
            merged
        } else {
            merged.push(incoming.last())
        }
    }
}

/// Merging keeps what was collected, in place.
pub proof fn lemma_merge_keeps(
    existing: Seq<(ValidatorId, Seq<u8>)>,
    incoming: Seq<(ValidatorId, Seq<u8>)>,
)
    ensures
        existing.len() <= merge_sigs(existing, incoming).len(),
        forall|i: int| 0 <= i < existing.len() ==> merge_sigs(existing, incoming)[i] == existing[i],
        forall|s: ValidatorId|
            has_signer(existing, s) ==> has_signer(merge_sigs(existing, incoming), s),
        forall|k: int|
            0 <= k < incoming.len() ==> has_signer(
                merge_sigs(existing, incoming),
                (#[trigger] incoming[k]).0,
            ),
    decreases incoming.len(),
{
    let result = merge_sigs(existing, incoming);
    if incoming.len() > 0 {
        let rest = incoming.drop_last();
        let merged = merge_sigs(existing, rest);
        lemma_merge_keeps(existing, rest);
        assert forall|s: ValidatorId| has_signer(merged, s) implies has_signer(result, s) by {
            let i = choose|i: int| 0 <= i < merged.len() && (#[trigger] merged[i]).0 == s;
            assert(result[i].0 == s);
        }
        assert forall|k: int| 0 <= k < incoming.len() implies has_signer(
            result,
            (#[trigger] incoming[k]).0,
        ) by {
            if k < rest.len() {
                assert(rest[k] == incoming[k]);
                assert(has_signer(merged, rest[k].0));
            } else if !has_signer(merged, incoming.last().0) {
                assert(result[merged.len() as int].0 == incoming[k].0);
            }
        }
    } else {
        assert forall|s: ValidatorId| has_signer(existing, s) implies has_signer(result, s) by {}
    }
}

/// Merging signatures whose signers are all there already changes nothing.
pub proof fn lemma_merge_known(
    existing: Seq<(ValidatorId, Seq<u8>)>,
    incoming: Seq<(ValidatorId, Seq<u8>)>,
)
    requires
        forall|k: int| 0 <= k < incoming.len() ==> has_signer(existing, (#[trigger] incoming[k]).0),
    ensures
        merge_sigs(existing, incoming) == existing,
    decreases incoming.len(),
{
    if incoming.len() > 0 {
        let rest = incoming.drop_last();
        assert forall|k: int| 0 <= k < rest.len() implies has_signer(
            existing,
            (#[trigger] rest[k]).0,
        ) by {
            assert(rest[k] == incoming[k]);
        }
        lemma_merge_known(existing, rest);
        assert(has_signer(existing, incoming[incoming.len() - 1].0));
    }
}

/// Merging the same signatures twice gives what merging them once gives.
pub proof fn lemma_merge_idempotent(
    existing: Seq<(ValidatorId, Seq<u8>)>,
    incoming: Seq<(ValidatorId, Seq<u8>)>,
)
    ensures
        merge_sigs(merge_sigs(existing, incoming), incoming) == merge_sigs(existing, incoming),
{
    lemma_merge_keeps(existing, incoming);
    lemma_merge_known(merge_sigs(existing, incoming), incoming);
}

/// Merging never collects two signatures of one signer.
pub proof fn lemma_merge_distinct(
    existing: Seq<(ValidatorId, Seq<u8>)>,
    incoming: Seq<(ValidatorId, Seq<u8>)>,
)
    requires
        distinct_signers(existing),
    ensures
        distinct_signers(merge_sigs(existing, incoming)),
    decreases incoming.len(),
{
    if incoming.len() > 0 {
        let merged = merge_sigs(existing, incoming.drop_last());
        lemma_merge_distinct(existing, incoming.drop_last());
        if !has_signer(merged, incoming.last().0) {
            let result = merged.push(incoming.last());
            assert forall|i: int, j: int| 0 <= i < j < result.len() implies (#[trigger] result[i]).0
                != (#[trigger] result[j]).0 by {
                if j == merged.len() {
                    assert(merged[i].0 != incoming.last().0);
                } else {
                    assert(merged[i].0 != merged[j].0);
                }
            }
        }
    }
}

/// Merges `incoming` into `collected`; a signer that is there already
/// keeps the signature that came first.
pub fn merge_into(collected: &mut Vec<(ValidatorId, Signature)>, incoming: &Vec<
    (ValidatorId, Signature),
>)
    ensures
        sigs_view(final(collected)@) == merge_sigs(
            sigs_view(old(collected)@),
            sigs_view(incoming@),
        ),
{
    let ghost start = sigs_view(collected@);
    let ghost inc = sigs_view(incoming@);
    let mut i: usize = 0;
    proof {
        assert(inc.take(0) =~= Seq::empty());
    }
    while i < incoming.len()
        invariant
            i <= incoming.len(),
            inc == sigs_view(incoming@),
            sigs_view(collected@) == merge_sigs(start, inc.take(i as int)),
        decreases incoming.len() - i,
    {
        proof {
            assert(inc.take(i + 1).drop_last() =~= inc.take(i as int));
            assert(inc.take(i + 1).last() == inc[i as int]);
        }
        if !signer_present(collected, incoming[i].0) {
            let ghost before = sigs_view(collected@);
            collected.push((incoming[i].0, clone_bytes(&incoming[i].1)));
            assert(sigs_view(collected@) =~= before.push(inc[i as int]));
        }
        i = i + 1;
    }
    proof {
        assert(inc.take(i as int) =~= inc);
    }
}


/// What the caller of the state machine is asked to do after an event.
#[derive(Debug)]
pub enum Action {
    /// Nothing.
    Nothing,
    /// Sign the vertex hash and send the partial certificate to all peers.
    SignAndBroadcast(Digest),
    /// Verify the aggregated certificate and promote its vertex.
    VerifyAggregated(AggregatedCoA),
}

/// The consensus state as plain values.
#[verifier::ext_equal]
pub struct ConsensusView {
    /// The DAG store.
    pub dag: DagView,
    /// The round that this validator proposes into.
    pub round: u64,
    /// This validator.
    pub validator_id: ValidatorId,
    /// The partial signatures collected for each vertex hash.
    pub collectors: Map<Digest, Seq<(ValidatorId, Seq<u8>)>>,
    /// The vertex hashes that have a collector, in the order in which the
    /// collectors were made.
    pub collector_order: Seq<Digest>,
}

impl ConsensusView {
    /// The number of distinct signers that certify a vertex.
    pub open spec fn quorum(self) -> int {
        self.dag.n - self.dag.f
    }

    /// Whether every vertex is stored under the hash of its canonical
    /// encoding.
    pub open spec fn content_addressed(self) -> bool {
        forall|h: Digest| #[trigger]
            self.dag.vertices.contains_key(h) ==> h@ == blake3_digest(
                vertex_bytes(self.dag.vertices[h]),
            )
    }

    /// Whether a received vertex is well formed: its author is a validator,
    /// and past round 0 it names n - f parents.
    pub open spec fn vertex_acceptable(self, v: VertexView) -> bool {
        &&& v.author < self.dag.n
        &&& v.round > 0 ==> v.parent_indices.len() == self.quorum()
    }

    /// The state after the vertex `v` with hash `h` has been stored. A hash
    /// that is known keeps its vertex.
    pub open spec fn after_vertex(self, v: VertexView, h: Digest) -> ConsensusView {
        ConsensusView {
            dag: DagView {
                vertices: if self.dag.vertices.contains_key(h) {
                    self.dag.vertices
                } else {
                    self.dag.vertices.insert(h, v)
                },
                ..self.dag
            },
            ..self
        }
    }

    /// The signatures collected for `h`; none where there is no collector.
    pub open spec fn collected(self, h: Digest) -> Seq<(ValidatorId, Seq<u8>)> {
        if self.collectors.contains_key(h) {
            self.collectors[h]
        } else {
            Seq::empty()
        }
    }

    /// The state after a partial certificate has been merged into the
    /// collector of its vertex hash; a signer that is there already keeps
    /// the signature that came first.
    pub open spec fn after_coa(self, coa: CoAView) -> ConsensusView {
        ConsensusView {
            collectors: self.collectors.insert(
                coa.batch_hash,
                merge_sigs(self.collected(coa.batch_hash), coa.signatures),
            ),
            collector_order: if self.collectors.contains_key(coa.batch_hash) {
                self.collector_order
            } else {
                self.collector_order.push(coa.batch_hash)
            },
            ..self
        }
    }

    /// The state after the partial signature of `signer` for `h` has been
    /// dropped.
    pub open spec fn after_drop(self, h: Digest, signer: ValidatorId) -> ConsensusView {
        if self.collectors.contains_key(h) {
            ConsensusView {
                collectors: self.collectors.insert(h, without_signer(self.collectors[h], signer)),
                ..self
            }
        } else {
            self
        }
    }

    /// The state after the partial signatures for `h` have been cleared.
    pub open spec fn after_reject(self, h: Digest) -> ConsensusView {
        if self.collectors.contains_key(h) {
            ConsensusView { collectors: self.collectors.insert(h, Seq::empty()), ..self }
        } else {
            self
        }
    }

    /// What an attempt to certify `h` under the public keys `pks` comes
    /// to, and the state after it. With a quorum of sound partial
    /// signatures, their aggregate is verified for the vertex hash; where
    /// it is valid and the store accepts the vertex, the vertex is stored
    /// with the aggregated certificate, and otherwise its partial
    /// signatures are cleared.
    pub open spec fn certify_step(self, h: Digest, pks: Seq<(ValidatorId, Seq<u8>)>) -> (
        CertifyOutcome,
        ConsensusView,
    ) {
        let sigs = self.collected(h);
        if !self.dag.vertices.contains_key(h) {
            (CertifyOutcome::Unknown, self)
        } else if self.dag.certs.contains_key(h) {
            (CertifyOutcome::AlreadyCertified, self)
        } else if sigs.len() < self.quorum() {
            (CertifyOutcome::Collecting, self)
        } else if !all_sound(sigs) {
            (
                CertifyOutcome::Malformed,
                ConsensusView {
                    collectors: self.collectors.insert(h, sound_partials(sigs)),
                    ..self
                },
            )
        } else {
            match g1_aggregate(signature_points(sigs)) {
                Some(agg) => {
                    let cert = CertificateView::Aggregated(
                        AggregatedCoAView {
                            batch_hash: h,
                            aggregated_signature: agg,
                            signer_bitmap: signer_bitmap(sigs),
                        },
                    );
                    if aggregate_accepts(h@, agg, pks, signer_bitmap(sigs), self.quorum() as nat)
                        && insert_fault(self.dag, self.dag.vertices[h], cert, h) is None {
                        (
                            CertifyOutcome::Certified,
                            ConsensusView {
                                dag: with_certified(self.dag, self.dag.vertices[h], cert, h),
                                ..self
                            },
                        )
                    } else {
                        (CertifyOutcome::Rejected, self.after_reject(h))
                    }
                },
                None => (CertifyOutcome::Rejected, self.after_reject(h)),
            }
        }
    }

    /// The certificate that promoting `h` with `signatures` stores.
    pub open spec fn certificate_of(
        h: Digest,
        signatures: Seq<(ValidatorId, Seq<u8>)>,
    ) -> CertificateView {
        CertificateView::Partial(CoAView { batch_hash: h, signatures })
    }

    /// Whether `h` can be promoted to certified with `signatures`: its
    /// vertex is known, and the store accepts it.
    pub open spec fn promotable(self, h: Digest, signatures: Seq<(ValidatorId, Seq<u8>)>) -> bool {
        self.dag.vertices.contains_key(h) && insert_fault(
            self.dag,
            self.dag.vertices[h],
            Self::certificate_of(h, signatures),
            h,
        ) is None
    }

    /// Whether the aggregated certificate `agg` promotes its vertex under
    /// the public keys `pks`: the vertex is known, the certificate is valid
    /// for the vertex hash and a quorum, and the store accepts it.
    pub open spec fn aggregate_promotable(
        self,
        agg: AggregatedCoAView,
        pks: Seq<(ValidatorId, Seq<u8>)>,
    ) -> bool {
        &&& self.dag.vertices.contains_key(agg.batch_hash)
        &&& aggregate_accepts(
            agg.batch_hash@,
            agg.aggregated_signature,
            pks,
            agg.signer_bitmap,
            self.quorum() as nat,
        )
        &&& insert_fault(
            self.dag,
            self.dag.vertices[agg.batch_hash],
            CertificateView::Aggregated(agg),
            agg.batch_hash,
        ) is None
    }

    /// Whether the collector of `h` is ready for verification: the vertex
    /// is known and not certified, and at least a quorum of signers has
    /// signed.
    pub open spec fn pending(self, h: Digest) -> bool {
        &&& self.collectors.contains_key(h)
        &&& !self.dag.certs.contains_key(h)
        &&& self.collectors[h].len() >= self.quorum()
        &&& self.dag.vertices.contains_key(h)
    }

    /// The collectors among the first `k` that are ready for verification,
    /// each with its vertex and its signatures, in the order of the
    /// collectors.
    pub open spec fn pending_quorums(self, k: nat) -> Seq<
        (Digest, VertexView, Seq<(ValidatorId, Seq<u8>)>),
    >
        decreases k,
    {
        if k == 0 {
            Seq::empty()
        } else {
            let rest = self.pending_quorums((k - 1) as nat);
            let h = self.collector_order[k - 1];
            if self.pending(h) {
                rest.push((h, self.dag.vertices[h], self.collectors[h]))
            } else {
                rest
            }
        }
    }

    /// What the seed of round `round` is the digest of: the signatures of
    /// the certificate of the anchor that was committed last, sorted, and
    /// the round; without such an anchor, the round alone.
    pub open spec fn seed_input(self, last_anchor: Option<Digest>, round: u64) -> Seq<u8> {
        match last_anchor {
            Some(a) => if self.dag.certs.contains_key(a) {
                vrf_seed_input(certificate_signatures(self.dag.certs[a]), round)
            } else {
                vrf_seed_input(Seq::empty(), round)
            },
            None => vrf_seed_input(Seq::empty(), round),
        }
    }

    /// Whether the round after the committed one can be committed: a
    /// quorum of its vertices is certified.
    pub open spec fn next_round_ready(self) -> bool {
        &&& self.dag.committed_round < u64::MAX
        &&& self.dag.round_list((self.dag.committed_round + 1) as u64).len() >= self.quorum()
        &&& self.dag.round_list((self.dag.committed_round + 1) as u64).len() > 0
    }

    /// Whether `anchor` and `log` are what committing the round after the
    /// committed one gives under `seed`: the seed is that of the round, the
    /// anchor comes first among the certified vertices of the round in the
    /// order of the sort keys, and the log is the linearization from it.
    pub open spec fn commits_with(
        self,
        last_anchor: Option<Digest>,
        anchor: Digest,
        log: Seq<Digest>,
        seed: Digest,
    ) -> bool {
        let round = (self.dag.committed_round + 1) as u64;
        let list = self.dag.round_list(round);
        &&& seed@ == blake3_digest(self.seed_input(last_anchor, round))
        &&& list.contains(anchor)
        &&& forall|i: int| 0 <= i < list.len() ==> key_le(anchor, #[trigger] list[i], seed)
        &&& self.dag.is_linearization(log, anchor, seed)
    }

    /// Whether this validator may propose with `in_flight` vertices
    /// awaiting verification.
    pub open spec fn may_propose(self, in_flight: nat) -> bool {
        &&& drift_of(self.round, self.dag.committed_round) < MAX_ROUND_DRIFT
        &&& in_flight < VERIFICATION_WINDOW
        &&& self.round < u64::MAX
        &&& self.quorum() <= u32::MAX
        &&& self.round > 0 ==> self.dag.round_list((self.round - 1) as u64).len() >= self.quorum()
    }

    /// The vertex that this validator proposes for its round: past round 0
    /// its parents are the first n - f certified vertices of the round
    /// before.
    pub open spec fn proposal(self, batch_hash: Digest) -> VertexView {
        VertexView {
            round: self.round,
            author: self.validator_id,
            batch_hash,
            parent_indices: if self.round > 0 {
                Seq::new(self.quorum() as nat, |k: int| k as u32)
            } else {
                Seq::empty()
            },
        }
    }
}

/// A state stays content-addressed where its vertices stay, or one vertex
/// comes under the hash of its encoding.
pub proof fn lemma_stays_content_addressed(before: ConsensusView, after: ConsensusView, h: Digest)
    requires
        before.content_addressed(),
        after.dag.vertices == before.dag.vertices || (exists|v: VertexView|
            after.dag.vertices == #[trigger] before.dag.vertices.insert(h, v) && h@
                == blake3_digest(vertex_bytes(v))),
    ensures
        after.content_addressed(),
{
    assert forall|x: Digest| #[trigger] after.dag.vertices.contains_key(x) implies x@
        == blake3_digest(vertex_bytes(after.dag.vertices[x])) by {
        if after.dag.vertices != before.dag.vertices {
            let v = choose|v: VertexView|
                after.dag.vertices == #[trigger] before.dag.vertices.insert(h, v) && h@
                    == blake3_digest(vertex_bytes(v));
            if x != h {
                assert(before.dag.vertices.contains_key(x));
            }
        } else {
            assert(before.dag.vertices.contains_key(x));
        }
    }
}

/// The signatures that a certificate holds: those of its signers, or the
/// one aggregated signature.
pub open spec fn certificate_signatures(cert: CertificateView) -> Seq<Seq<u8>> {
    match cert {
        CertificateView::Partial(c) => Seq::new(c.signatures.len(), |i: int| c.signatures[i].1),
        CertificateView::Aggregated(a) => seq![a.aggregated_signature],
    }
}

/// Applying the same partial certificate twice has the same effect as
/// applying it once.
pub proof fn lemma_coa_idempotent(state: ConsensusView, coa: CoAView)
    ensures
        state.after_coa(coa).after_coa(coa) == state.after_coa(coa),
{
    let once = state.after_coa(coa);
    let twice = once.after_coa(coa);
    lemma_merge_idempotent(state.collected(coa.batch_hash), coa.signatures);
    assert(once.collected(coa.batch_hash) == merge_sigs(
        state.collected(coa.batch_hash),
        coa.signatures,
    ));
    assert(twice.collectors =~= once.collectors);
    assert(twice.collector_order =~= once.collector_order);
    assert(twice =~= once);
}

/// The views of a list of pending quorums.
pub open spec fn pending_view(list: Seq<(Digest, Vertex, Vec<(ValidatorId, Signature)>)>) -> Seq<
    (Digest, VertexView, Seq<(ValidatorId, Seq<u8>)>),
> {
    Seq::new(list.len(), |i: int| (list[i].0, list[i].1@, sigs_view(list[i].2@)))
}

/// The state of one validator.
pub struct ConsensusState {
    dag: Dag,
    round: u64,
    validator_id: ValidatorId,
    coa_collectors: HashTable<Vec<(ValidatorId, Signature)>>,
}

impl View for ConsensusState {
    type V = ConsensusView;

    closed spec fn view(&self) -> ConsensusView {
        ConsensusView {
            dag: self.dag@,
            round: self.round,
            validator_id: self.validator_id,
            collectors: self.coa_collectors@.map_values(
                |s: Vec<(ValidatorId, Signature)>| sigs_view(s@),
            ),
            collector_order: self.coa_collectors.key_seq(),
        }
    }
}

impl ConsensusState {
    /// The state is consistent: the store is, every vertex is stored under
    /// the hash of its canonical encoding, each vertex hash has one
    /// collector, and no collector holds two signatures of one signer.
    pub closed spec fn wf(&self) -> bool {
        &&& self.dag.wf()
        &&& self.coa_collectors.wf()
        &&& forall|h: Digest| #[trigger]
            self.coa_collectors@.contains_key(h) ==> distinct_signers(
                sigs_view(self.coa_collectors@[h]@),
            )
        &&& self@.content_addressed()
    }

    /// In a consistent state the store is consistent, and the collectors
    /// in order are those of the map, each once.
    pub proof fn lemma_wf_view(&self)
        requires
            self.wf(),
        ensures
            self@.dag.wf(),
            self@.collector_order.no_duplicates(),
            forall|h: Digest| self@.collector_order.contains(h) <==> self@.collectors.contains_key(h),
            forall|h: Digest| #[trigger]
                self@.collectors.contains_key(h) ==> distinct_signers(self@.collectors[h]),
            self@.content_addressed(),
    {
        self.dag.lemma_wf_view();
        self.coa_collectors.lemma_key_seq();
    }

    /// The state of validator `validator_id` among `n` validators, of
    /// which (n - 1) / 3 may be faulty: an empty store, no collectors, and
    /// round 0 to propose into.
    pub fn new(validator_id: ValidatorId, n: usize) -> (state: Self)
        requires
            n >= 1,
        ensures
            state.wf(),
            state@.dag.n == n,
            state@.dag.f == (n - 1) / 3,
            state@.dag.committed_round == 0,
            state@.dag.vertices == Map::<Digest, VertexView>::empty(),
            state@.dag.certs == Map::<Digest, CertificateView>::empty(),
            state@.round == 0,
            state@.validator_id == validator_id,
            state@.collectors == Map::<Digest, Seq<(ValidatorId, Seq<u8>)>>::empty(),
            state@.collector_order == Seq::<Digest>::empty(),
    {
        let f: usize = (n - 1) / 3;
        let state = ConsensusState {
            dag: Dag::new(n, f),
            round: 0,
            validator_id,
            coa_collectors: HashTable::new(),
        };
        assert(state@.collectors =~= Map::<Digest, Seq<(ValidatorId, Seq<u8>)>>::empty());
        state
    }

    /// The DAG store.
    pub fn dag(&self) -> (dag: &Dag)
        ensures
            dag@ == self@.dag,
            self.wf() ==> dag.wf(),
    {
        &self.dag
    }

    /// The round that this validator proposes into.
    pub fn round(&self) -> (r: u64)
        ensures
            r == self@.round,
    {
        self.round
    }

    /// This validator.
    pub fn validator_id(&self) -> (id: ValidatorId)
        ensures
            id == self@.validator_id,
    {
        self.validator_id
    }

    /// The number of signers that certify a vertex: n - f.
    pub fn quorum(&self) -> (q: usize)
        requires
            self.wf(),
        ensures
            q == self@.quorum(),
    {
        proof {
            self.dag.lemma_wf_view();
        }
        self.dag.n() - self.dag.f()
    }

    /// The distance between the proposing round and the committed round.
    pub fn drift(&self) -> (d: u64)
        ensures
            d == drift_of(self@.round, self@.dag.committed_round),
    {
        let committed: u64 = self.dag.committed_round();
        if self.round >= committed {
            self.round - committed
        } else {
            0
        }
    }

    /// The number of distinct signers collected for `h`.
    pub fn collector_size(&self, h: &Digest) -> (n: usize)
        requires
            self.wf(),
        ensures
            n == self@.collected(*h).len(),
    {
        match self.coa_collectors.get(h) {
            Some(sigs) => sigs.len(),
            None => 0,
        }
    }

    /// Handles an event. A well-formed vertex is stored, and the caller is
    /// asked to sign its hash; a partial certificate is merged into the
    /// collector of its vertex hash; every other event, and a vertex that is
    /// not well formed, leaves the state as it was. The committed round
    /// never goes back.
    pub fn on_event(&mut self, event: Event) -> (action: Action)
        requires
            old(self).wf(),
        ensures
            final(self).wf(),
            final(self)@.dag.committed_round >= old(self)@.dag.committed_round,
            match event {
                Event::VertexReceived(v) => if old(self)@.vertex_acceptable(v@) {
                    &&& action matches Action::SignAndBroadcast(h)
                    &&& h@ == blake3_digest(vertex_bytes(v@))
                    &&& final(self)@ =~= old(self)@.after_vertex(v@, h)
                } else {
                    action is Nothing && final(self)@ == old(self)@
                },
                Event::CoAReceived(coa) => action is Nothing && final(self)@ =~= old(
                    self,
                )@.after_coa(coa@),
                Event::AggregatedCoAReceived(agg) => action == Action::VerifyAggregated(agg)
                    && final(self)@ == old(self)@,
                _ => action is Nothing && final(self)@ == old(self)@,
            },
    {
        match event {
            Event::VertexReceived(vertex) => self.handle_vertex(vertex),
            Event::CoAReceived(coa) => {
                self.handle_coa(coa);
                Action::Nothing
            },
            Event::AggregatedCoAReceived(agg) => Action::VerifyAggregated(agg),
            _ => Action::Nothing,
        }
    }

    /// Stores a well-formed vertex under its hash and asks for a signature
    /// of the hash.
    pub fn handle_vertex(&mut self, vertex: Vertex) -> (action: Action)
        requires
            old(self).wf(),
        ensures
            final(self).wf(),
            if old(self)@.vertex_acceptable(vertex@) {
                &&& action matches Action::SignAndBroadcast(h)
                &&& h@ == blake3_digest(vertex_bytes(vertex@))
                &&& final(self)@ =~= old(self)@.after_vertex(vertex@, h)
            } else {
                action is Nothing && final(self)@ == old(self)@
            },
    {
        proof {
            self.dag.lemma_wf_view();
        }
        let n: usize = self.dag.n();
        let quorum: usize = n - self.dag.f();
        if vertex.author as usize >= n {
            return Action::Nothing;
        }
        if vertex.round > 0 && vertex.parent_indices.len() != quorum {
            return Action::Nothing;
        }
        let v_hash: Digest = hash_vertex(&vertex);
        let ghost stored = vertex@;
        self.dag.insert_vertex(vertex, v_hash);
        proof {
            assert(self@.dag.vertices == old(self)@.dag.vertices || self@.dag.vertices == old(
                self,
            )@.dag.vertices.insert(v_hash, stored));
            lemma_stays_content_addressed(old(self)@, self@, v_hash);
        }
        Action::SignAndBroadcast(v_hash)
    }

    /// Merges a partial certificate into the collector of its vertex hash.
    /// A signer that has signed already keeps the signature that came first.
    pub fn handle_coa(&mut self, coa: CoA)
        requires
            old(self).wf(),
        ensures
            final(self).wf(),
            final(self)@ =~= old(self)@.after_coa(coa@),
    {
        let mut collected: Vec<(ValidatorId, Signature)> = match self.coa_collectors.get(
            &coa.batch_hash,
        ) {
            Some(sigs) => clone_sigs(sigs),
            None => Vec::new(),
        };
        proof {
            assert(sigs_view(collected@) =~= self@.collected(coa.batch_hash));
            lemma_merge_distinct(self@.collected(coa.batch_hash), coa@.signatures);
        }
        merge_into(&mut collected, &coa.signatures);
        self.coa_collectors.insert(coa.batch_hash, collected);
        proof {
            assert(self@.collectors =~= old(self)@.after_coa(coa@).collectors);
        }
    }

    /// Drops the partial signature of `signer` for `v_hash`, so that
    /// another signature of that signer can take its place.
    pub fn drop_partial(&mut self, v_hash: &Digest, signer: ValidatorId)
        requires
            old(self).wf(),
        ensures
            final(self).wf(),
            final(self)@ =~= old(self)@.after_drop(*v_hash, signer),
            !has_signer(final(self)@.collected(*v_hash), signer),
    {
        let kept: Vec<(ValidatorId, Signature)> = match self.coa_collectors.get(v_hash) {
            Some(sigs) => {
                let ghost list = sigs_view(sigs@);
                let mut kept: Vec<(ValidatorId, Signature)> = Vec::new();
                let mut i: usize = 0;
                proof {
                    assert(list.take(0) =~= Seq::empty());
                }
                while i < sigs.len()
                    invariant
                        i <= sigs.len(),
                        list == sigs_view(sigs@),
                        sigs_view(kept@) == without_signer(list.take(i as int), signer),
                    decreases sigs.len() - i,
                {
                    proof {
                        assert(list.take(i + 1).drop_last() =~= list.take(i as int));
                        assert(list.take(i + 1).last() == list[i as int]);
                    }
                    if sigs[i].0 != signer {
                        let ghost before = sigs_view(kept@);
                        kept.push((sigs[i].0, clone_bytes(&sigs[i].1)));
                        assert(sigs_view(kept@) =~= before.push(list[i as int]));
                    }
                    i = i + 1;
                }
                proof {
                    assert(list.take(i as int) =~= list);
                    lemma_without_signer(list, signer);
                }
                kept
            },
            None => {
                return ;
            },
        };
        self.coa_collectors.insert(*v_hash, kept);
        proof {
            assert(self@.collectors =~= old(self)@.after_drop(*v_hash, signer).collectors);
        }
    }

    /// Clears the partial signatures collected for `v_hash`, as after a
    /// certificate that did not verify.
    pub fn reject_vertex(&mut self, v_hash: &Digest)
        requires
            old(self).wf(),
        ensures
            final(self).wf(),
            final(self)@ =~= old(self)@.after_reject(*v_hash),
            final(self)@.collected(*v_hash).len() == 0,
    {
        if !self.coa_collectors.contains_key(v_hash) {
            return ;
        }
        let empty: Vec<(ValidatorId, Signature)> = Vec::new();
        assert(sigs_view(empty@) =~= Seq::empty());
        self.coa_collectors.insert(*v_hash, empty);
        proof {
            assert(self@.collectors =~= old(self)@.after_reject(*v_hash).collectors);
        }
    }

    /// Promotes the vertex `v_hash` to certified with the signatures of
    /// its certificate, where the vertex is known and the store accepts it;
    /// otherwise the state stays as it was. The caller has verified the
    /// signatures.
    pub fn certify_vertex(
        &mut self,
        v_hash: Digest,
        signatures: Vec<(ValidatorId, Signature)>,
    ) -> (promoted: bool)
        requires
            old(self).wf(),
        ensures
            final(self).wf(),
            promoted == old(self)@.promotable(v_hash, sigs_view(signatures@)),
            promoted ==> final(self)@ =~= (ConsensusView {
                dag: with_certified(
                    old(self)@.dag,
                    old(self)@.dag.vertices[v_hash],
                    ConsensusView::certificate_of(v_hash, sigs_view(signatures@)),
                    v_hash,
                ),
                ..old(self)@
            }),
            !promoted ==> final(self)@ == old(self)@,
            final(self)@.dag.committed_round == old(self)@.dag.committed_round,
    {
        let vertex: Vertex = match self.dag.vertex(&v_hash) {
            Some(v) => v.clone(),
            None => {
                return false;
            },
        };
        let cv = CertifiedVertex { vertex, coa: CoA { batch_hash: v_hash, signatures } };
        let promoted: bool = match self.dag.insert_certified(cv, v_hash) {
            Ok(_) => true,
            Err(_) => false,
        };
        proof {
            assert(old(self)@.dag.vertices.insert(v_hash, old(self)@.dag.vertices[v_hash])
                =~= old(self)@.dag.vertices);
            lemma_stays_content_addressed(old(self)@, self@, v_hash);
        }
        promoted
    }

    /// Verifies an aggregated certificate against the public keys of the
    /// validators, and promotes its vertex to certified where the vertex is
    /// known, the certificate is valid for the vertex hash with a quorum of
    /// n - f, and the store accepts it; otherwise the state stays as it was.
    /// A certificate that is accepted names at least a quorum of signers.
    pub fn certify_aggregated(
        &mut self,
        ctx: &mut CryptoContext,
        agg: AggregatedCoA,
        public_keys: &[(ValidatorId, BlsPublicKey)],
    ) -> (promoted: bool)
        requires
            old(self).wf(),
            old(ctx).wf(),
        ensures
            final(self).wf(),
            final(ctx).wf(),
            promoted == old(self)@.aggregate_promotable(agg@, sigs_view(public_keys@)),
            promoted ==> popcount(agg@.signer_bitmap) >= old(self)@.quorum(),
            promoted ==> final(self)@ =~= (ConsensusView {
                dag: with_certified(
                    old(self)@.dag,
                    old(self)@.dag.vertices[agg@.batch_hash],
                    CertificateView::Aggregated(agg@),
                    agg@.batch_hash,
                ),
                ..old(self)@
            }),
            !promoted ==> final(self)@ == old(self)@,
            final(self)@.dag.committed_round == old(self)@.dag.committed_round,
    {
        proof {
            self.dag.lemma_wf_view();
        }
        let v_hash: Digest = agg.batch_hash;
        let vertex: Vertex = match self.dag.vertex(&v_hash) {
            Some(v) => v.clone(),
            None => {
                return false;
            },
        };
        let quorum: usize = self.dag.n() - self.dag.f();
        if !verify_aggregated(
            ctx,
            v_hash.as_slice(),
            &agg.aggregated_signature,
            public_keys,
            agg.signer_bitmap,
            quorum,
        ) {
            return false;
        }
        let cv = AggregatedCertifiedVertex { vertex, agg_coa: agg };
        let promoted: bool = match self.dag.insert_aggregated(cv, v_hash) {
            Ok(_) => true,
            Err(_) => false,
        };
        proof {
            assert(old(self)@.dag.vertices.insert(v_hash, old(self)@.dag.vertices[v_hash])
                =~= old(self)@.dag.vertices);
            lemma_stays_content_addressed(old(self)@, self@, v_hash);
        }
        promoted
    }

    /// Tries to certify the vertex `v_hash` from the partial signatures
    /// collected for it: aggregates them, verifies the aggregate against
    /// the public keys of the validators, and promotes the vertex. The
    /// outcome and the state afterwards are those of `certify_step`.
    pub fn try_certify(
        &mut self,
        ctx: &mut CryptoContext,
        v_hash: &Digest,
        public_keys: &[(ValidatorId, BlsPublicKey)],
    ) -> (outcome: CertifyOutcome)
        requires
            old(self).wf(),
            old(ctx).wf(),
        ensures
            final(self).wf(),
            final(ctx).wf(),
            outcome == old(self)@.certify_step(*v_hash, sigs_view(public_keys@)).0,
            final(self)@ =~= old(self)@.certify_step(*v_hash, sigs_view(public_keys@)).1,
            final(self)@.dag.committed_round == old(self)@.dag.committed_round,
            outcome is Certified ==> popcount(signer_bitmap(old(self)@.collected(*v_hash)))
                >= old(self)@.quorum(),
    {
        proof {
            self.dag.lemma_wf_view();
        }
        let vertex: Vertex = match self.dag.vertex(v_hash) {
            Some(v) => v.clone(),
            None => {
                return CertifyOutcome::Unknown;
            },
        };
        if self.dag.is_certified(v_hash) {
            return CertifyOutcome::AlreadyCertified;
        }
        let sigs: Vec<(ValidatorId, Signature)> = match self.coa_collectors.get(v_hash) {
            Some(collected) => clone_sigs(collected),
            None => Vec::new(),
        };
        let ghost list = sigs_view(sigs@);
        proof {
            assert(list =~= self@.collected(*v_hash));
            assert(distinct_signers(list));
        }
        let quorum: usize = self.dag.n() - self.dag.f();
        if sigs.len() < quorum {
            return CertifyOutcome::Collecting;
        }
        match aggregate_signatures_with_metrics(ctx, sigs.as_slice(), quorum) {
            Ok((agg, bitmap, _)) => {
                proof {
                    assert forall|i: int| 0 <= i < list.len() implies (#[trigger] list[i]).0 < 64
                        && g1_point(list[i].1) is Some by {
                        assert(entry_fault(list, i) is None);
                    }
                }
                if verify_aggregated(
                    ctx,
                    v_hash.as_slice(),
                    &agg,
                    public_keys,
                    bitmap,
                    quorum,
                ) {
                    let cv = AggregatedCertifiedVertex {
                        vertex,
                        agg_coa: AggregatedCoA {
                            batch_hash: *v_hash,
                            aggregated_signature: agg,
                            signer_bitmap: bitmap,
                        },
                    };
                    let stored: bool = match self.dag.insert_aggregated(cv, *v_hash) {
                        Ok(_) => true,
                        Err(_) => false,
                    };
                    proof {
                        assert(old(self)@.dag.vertices.insert(
                            *v_hash,
                            old(self)@.dag.vertices[*v_hash],
                        ) =~= old(self)@.dag.vertices);
                        lemma_stays_content_addressed(old(self)@, self@, *v_hash);
                    }
                    if stored {
                        return CertifyOutcome::Certified;
                    }
                }
                self.reject_vertex(v_hash);
                CertifyOutcome::Rejected
            },
            Err(AggregateError::AggregationFailed) => {
                proof {
                    assert forall|i: int| 0 <= i < list.len() implies (#[trigger] list[i]).0 < 64
                        && g1_point(list[i].1) is Some by {
                        assert(entry_fault(list, i) is None);
                    }
                }
                self.reject_vertex(v_hash);
                CertifyOutcome::Rejected
            },
            Err(e) => {
                proof {
                    let i = choose|i: int|
                        0 <= i < list.len() && entry_fault(list, i) == Some(e) && forall|j: int|
                            0 <= j < i ==> entry_fault(list, j) is None;
                    if list[i].0 < 64 && g1_point(list[i].1) is Some {
                        let j = choose|j: int| 0 <= j < i && list[j].0 == list[i].0;
                        assert(list[j].0 != list[i].0);
                    }
                    assert(!all_sound(list));
                }
                let mut kept: Vec<(ValidatorId, Signature)> = Vec::new();
                let mut i: usize = 0;
                proof {
                    assert(list.take(0) =~= Seq::empty());
                }
                while i < sigs.len()
                    invariant
                        i <= sigs.len(),
                        ctx.wf(),
                        list == sigs_view(sigs@),
                        sigs_view(kept@) == sound_partials(list.take(i as int)),
                    decreases sigs.len() - i,
                {
                    proof {
                        assert(list.take(i + 1).drop_last() =~= list.take(i as int));
                        assert(list.take(i + 1).last() == list[i as int]);
                    }
                    if sigs[i].0 < 64 {
                        match ctx.signature_point(sigs[i].1.as_slice()) {
                            Some(_) => {
                                let ghost before = sigs_view(kept@);
                                kept.push((sigs[i].0, clone_bytes(&sigs[i].1)));
                                assert(sigs_view(kept@) =~= before.push(list[i as int]));
                            },
                            None => {},
                        }
                    }
                    i = i + 1;
                }
                proof {
                    assert(list.take(i as int) =~= list);
                    lemma_sound_partials(list);
                }
                self.coa_collectors.insert(*v_hash, kept);
                proof {
                    assert(self@.collectors =~= old(self)@.collectors.insert(
                        *v_hash,
                        sound_partials(list),
                    ));
                }
                CertifyOutcome::Malformed
            },
        }
    }

    /// The collectors that are ready for verification, each with its vertex
    /// and its signatures, in the order in which the collectors were made.
    pub fn get_pending_quorums(&self) -> (pending: Vec<
        (Digest, Vertex, Vec<(ValidatorId, Signature)>),
    >)
        requires
            self.wf(),
        ensures
            pending_view(pending@) == self@.pending_quorums(self@.collector_order.len()),
    {
        proof {
            self.dag.lemma_wf_view();
            self.coa_collectors.lemma_key_seq();
        }
        let quorum: usize = self.dag.n() - self.dag.f();
        let mut pending: Vec<(Digest, Vertex, Vec<(ValidatorId, Signature)>)> = Vec::new();
        let count: usize = self.coa_collectors.len();
        let mut i: usize = 0;
        while i < count
            invariant
                i <= count,
                self.wf(),
                count == self@.collector_order.len(),
                quorum == self@.quorum(),
                pending_view(pending@) == self@.pending_quorums(i as nat),
            decreases count - i,
        {
            let h: &Digest = self.coa_collectors.key_at(i);
            let sigs: &Vec<(ValidatorId, Signature)> = self.coa_collectors.value_at(i);
            let ghost before = pending_view(pending@);
            if !self.dag.is_certified(h) && sigs.len() >= quorum {
                match self.dag.vertex(h) {
                    Some(vertex) => {
                        pending.push((*h, vertex.clone(), clone_sigs(sigs)));
                        proof {
                            assert(pending_view(pending@) =~= before.push(
                                (*h, self@.dag.vertices[*h], self@.collectors[*h]),
                            ));
                        }
                    },
                    None => {},
                }
            }
            i = i + 1;
        }
        pending
    }

    /// Authors the vertex of the current round and advances the round,
    /// where this validator may propose: the drift is below
    /// `MAX_ROUND_DRIFT`, fewer than `VERIFICATION_WINDOW` vertices await
    /// verification, and past round 0 a quorum of the round before is
    /// certified. The parents of the vertex are valid parents.
    pub fn propose(&mut self, batch_hash: Digest, in_flight: usize) -> (r: Option<Vertex>)
        requires
            old(self).wf(),
        ensures
            final(self).wf(),
            final(self)@.dag.committed_round >= old(self)@.dag.committed_round,
            match r {
                Some(v) => {
                    &&& old(self)@.may_propose(in_flight as nat)
                    &&& v@ == old(self)@.proposal(batch_hash)
                    &&& final(self)@ =~= (ConsensusView {
                        round: (old(self)@.round + 1) as u64,
                        ..old(self)@
                    })
                    &&& v@.round > 0 ==> old(self)@.dag.resolvable(v@.round, v@.parent_indices)
                        && old(self)@.dag.parents_valid(
                        v@.round,
                        old(self)@.dag.resolve(v@.round, v@.parent_indices),
                    )
                },
                None => !old(self)@.may_propose(in_flight as nat) && final(self)@ == old(self)@,
            },
    {
        proof {
            self.dag.lemma_wf_view();
        }
        if self.drift() >= MAX_ROUND_DRIFT || in_flight >= VERIFICATION_WINDOW {
            return None;
        }
        if self.round == u64::MAX {
            return None;
        }
        let quorum: usize = self.dag.n() - self.dag.f();
        if quorum > u32::MAX as usize {
            return None;
        }
        let mut parents: Vec<u32> = Vec::new();
        if self.round > 0 {
            if self.dag.certified_count(self.round - 1) < quorum {
                return None;
            }
            let mut k: u32 = 0;
            while (k as usize) < quorum
                invariant
                    k <= quorum <= u32::MAX,
                    parents@.len() == k,
                    forall|j: int| 0 <= j < k ==> parents@[j] == j as u32,
                decreases quorum - k,
            {
                parents.push(k);
                k = k + 1;
            }
        }
        let vertex = Vertex {
            round: self.round,
            author: self.validator_id,
            batch_hash,
            parent_indices: parents,
        };
        proof {
            assert(vertex@.parent_indices =~= self@.proposal(batch_hash).parent_indices);
            if vertex@.round > 0 {
                lemma_first_certified_are_valid_parents(self@.dag, vertex@.round);
            }
        }
        self.round = self.round + 1;
        Some(vertex)
    }

    /// The seed of round `round`, derived from the certificate of the
    /// anchor that was committed last.
    pub fn round_seed(&self, last_anchor: Option<Digest>, round: u64) -> (seed: Digest)
        requires
            self.wf(),
        ensures
            seed@ == blake3_digest(self@.seed_input(last_anchor, round)),
    {
        let mut signatures: Vec<Signature> = Vec::new();
        match last_anchor {
            Some(a) => {
                match self.dag.certificate(&a) {
                    Some(Certificate::Partial(coa)) => {
                        let mut i: usize = 0;
                        while i < coa.signatures.len()
                            invariant
                                i <= coa.signatures.len(),
                                signatures@.len() == i,
                                forall|k: int|
                                    0 <= k < i ==> (#[trigger] signatures@[k])@
                                        == coa.signatures@[k].1@,
                            decreases coa.signatures.len() - i,
                        {
                            signatures.push(clone_bytes(&coa.signatures[i].1));
                            i = i + 1;
                        }
                        assert(views(signatures@) =~= certificate_signatures(self@.dag.certs[a]));
                    },
                    Some(Certificate::Aggregated(agg)) => {
                        signatures.push(clone_bytes(&agg.aggregated_signature));
                        assert(views(signatures@) =~= certificate_signatures(self@.dag.certs[a]));
                    },
                    None => {
                        assert(views(signatures@) =~= Seq::<Seq<u8>>::empty());
                    },
                }
            },
            None => {
                assert(views(signatures@) =~= Seq::<Seq<u8>>::empty());
            },
        }
        derive_vrf_seed(signatures, round)
    }

    /// Commits the round after the committed one, once a quorum of its
    /// vertices is certified: selects the anchor of the round under the
    /// seed derived from the anchor that was committed last, and commits it.
    /// Returns the anchor and its linearization; `None`, and no change,
    /// where the round is not ready.
    pub fn commit_next(&mut self, last_anchor: Option<Digest>) -> (r: Option<(Digest, Vec<Digest>)>)
        requires
            old(self).wf(),
        ensures
            final(self).wf(),
            final(self)@.dag.committed_round >= old(self)@.dag.committed_round,
            r is Some <==> old(self)@.next_round_ready(),
            r is None ==> final(self)@ == old(self)@,
            r is Some ==> exists|seed: Digest| #[trigger]
                old(self)@.commits_with(last_anchor, r.unwrap().0, r.unwrap().1@, seed),
            r is Some ==> final(self)@ =~= (ConsensusView {
                dag: DagView {
                    committed_round: (old(self)@.dag.committed_round + 1) as u64,
                    ..old(self)@.dag
                },
                ..old(self)@
            }),
    {
        proof {
            self.dag.lemma_wf_view();
        }
        let committed: u64 = self.dag.committed_round();
        if committed == u64::MAX {
            return None;
        }
        let round: u64 = committed + 1;
        let quorum: usize = self.dag.n() - self.dag.f();
        if self.dag.certified_count(round) < quorum {
            return None;
        }
        let seed: Digest = self.round_seed(last_anchor, round);
        let anchor: Digest = match self.dag.select_anchor(round, &seed) {
            Some(a) => a,
            None => {
                return None;
            },
        };
        proof {
            let list = self@.dag.round_list(round);
            let i = choose|i: int| 0 <= i < list.len() && list[i] == anchor;
            assert(self@.dag.certs.contains_key(list[i]));
            assert(self@.dag.vertices[list[i]].round == round);
        }
        match self.commit_anchor(&anchor, &seed) {
            Some(log) => {
                let r: Option<(Digest, Vec<Digest>)> = Some((anchor, log));
                assert(old(self)@.commits_with(last_anchor, r.unwrap().0, r.unwrap().1@, seed));
                r
            },
            None => None,
        }
    }

    /// Commits what the certified anchor `anchor_hash` reaches: returns
    /// its linearization under `seed` and moves the committed round up to
    /// the anchor's round. `None`, and no change, where the anchor is not
    /// certified.
    pub fn commit_anchor(&mut self, anchor_hash: &Digest, seed: &Digest) -> (r: Option<Vec<Digest>>)
        requires
            old(self).wf(),
        ensures
            final(self).wf(),
            final(self)@.dag.committed_round >= old(self)@.dag.committed_round,
            r is Some <==> old(self)@.dag.certified(*anchor_hash),
            match r {
                Some(log) => {
                    let anchor_round = old(self)@.dag.vertices[*anchor_hash].round;
                    &&& old(self)@.dag.is_linearization(log@, *anchor_hash, *seed)
                    &&& final(self)@ =~= (ConsensusView {
                        dag: DagView {
                            committed_round: if anchor_round > old(self)@.dag.committed_round {
                                anchor_round
                            } else {
                                old(self)@.dag.committed_round
                            },
                            ..old(self)@.dag
                        },
                        ..old(self)@
                    })
                },
                None => final(self)@ == old(self)@,
            },
    {
        let log: Vec<Digest> = match self.dag.aether_sort(anchor_hash, seed) {
            Some(log) => log,
            None => {
                return None;
            },
        };
        let anchor_round: u64 = match self.dag.vertex(anchor_hash) {
            Some(v) => v.round,
            None => {
                proof {
                    self.dag.lemma_wf_view();
                }
                assert(false);
                return None;
            },
        };
        self.dag.commit_round(anchor_round);
        proof {
            lemma_stays_content_addressed(old(self)@, self@, *anchor_hash);
        }
        Some(log)
    }
}

/// The first n - f certified vertices of a round are valid parents for a
/// vertex of the next round.
pub proof fn lemma_first_certified_are_valid_parents(dag: DagView, round: u64)
    requires
        dag.wf(),
        round > 0,
        dag.quorum() <= u32::MAX,
        dag.round_list((round - 1) as u64).len() >= dag.quorum(),
    ensures
        ({
            let indices = Seq::new(dag.quorum() as nat, |k: int| k as u32);
            dag.resolvable(round, indices) && dag.parents_valid(round, dag.resolve(round, indices))
        }),
{
    let indices = Seq::new(dag.quorum() as nat, |k: int| k as u32);
    let list = dag.round_list((round - 1) as u64);
    let parents = dag.resolve(round, indices);
    assert forall|i: int| 0 <= i < parents.len() implies {
        &&& dag.vertices.contains_key(#[trigger] parents[i])
        &&& dag.certs.contains_key(parents[i])
        &&& dag.vertices[parents[i]].round + 1 == round
    } by {
        assert(parents[i] == list[i]);
        assert(dag.certs.contains_key(list[i]));
    }
    assert forall|i: int, j: int| 0 <= i < j < parents.len() implies dag.vertices[
        #[trigger] parents[i]].author != dag.vertices[#[trigger] parents[j]].author by {
        assert(parents[i] == list[i] && parents[j] == list[j]);
        assert(dag.certs.contains_key(list[i]) && dag.certs.contains_key(list[j]));
        assert(list[i] != list[j]);
    }
}

} // verus!
