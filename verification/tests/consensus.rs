use sublinear_bft_scifest::consensus::{
    batch_trigger, should_verify, Action, CertifyOutcome, ConsensusState, DriftMetrics,
    MAX_ROUND_DRIFT, VERIFICATION_WINDOW,
};
use sublinear_bft_scifest::crypto::{derive_vrf_seed, hash_vertex, vrf_sort_key};
use sublinear_bft_scifest::bls_crypto::{
    aggregate_signatures_with_metrics, BlsSecretKey, CryptoContext,
};
use sublinear_bft_scifest::types::{AggregatedCoA, Certificate, CoA, Event, Vertex};

type H = [u8; 32];

fn receive(state: &mut ConsensusState, v: &Vertex) -> H {
    match state.on_event(Event::VertexReceived(v.clone())) {
        Action::SignAndBroadcast(h) => h,
        _ => panic!("the vertex was refused"),
    }
}

fn partial(h: H, signer: u32, byte: u8) -> Event {
    Event::CoAReceived(CoA { batch_hash: h, signatures: vec![(signer, vec![byte; 48])] })
}

/// Receives the vertex, collects three partial signatures and promotes it.
fn certify(state: &mut ConsensusState, v: &Vertex) -> H {
    let h = receive(state, v);
    for signer in 0..3 {
        state.on_event(partial(h, signer, signer as u8));
    }
    let pending = state.get_pending_quorums();
    let (ph, _, sigs) = pending.into_iter().find(|p| p.0 == h).unwrap();
    assert!(state.certify_vertex(ph, sigs));
    h
}

#[test]
fn smallest_bft_has_quorum_three() {
    let state = ConsensusState::new(2, 4);
    assert_eq!(state.dag().n(), 4);
    assert_eq!(state.dag().f(), 1);
    assert_eq!(state.quorum(), 3);
    assert_eq!(state.round(), 0);
    assert_eq!(state.validator_id(), 2);
    assert_eq!(ConsensusState::new(0, 1).quorum(), 1);
    assert_eq!(ConsensusState::new(0, 7).quorum(), 5);
    assert_eq!(ConsensusState::new(0, 64).quorum(), 43);
}

#[test]
fn received_vertex_is_stored_under_its_hash() {
    let mut state = ConsensusState::new(0, 4);
    let v = Vertex { round: 0, author: 1, batch_hash: [4u8; 32], parent_indices: vec![] };
    let h = receive(&mut state, &v);
    assert_eq!(h, hash_vertex(&v));
    assert_eq!(state.dag().vertex(&h).unwrap().author, 1);
    assert!(!state.dag().is_certified(&h));
    assert_eq!(state.dag().certified_count(0), 0);
}

#[test]
fn malformed_vertex_is_refused() {
    let mut state = ConsensusState::new(0, 4);
    // the author is no validator
    let v = Vertex { round: 0, author: 4, batch_hash: [0u8; 32], parent_indices: vec![] };
    assert!(matches!(state.on_event(Event::VertexReceived(v.clone())), Action::Nothing));
    assert!(state.dag().vertex(&hash_vertex(&v)).is_none());
    // past round 0 a vertex names n - f parents
    let w = Vertex { round: 1, author: 1, batch_hash: [0u8; 32], parent_indices: vec![0, 1] };
    assert!(matches!(state.on_event(Event::VertexReceived(w.clone())), Action::Nothing));
    assert!(state.dag().vertex(&hash_vertex(&w)).is_none());
    let x = Vertex { round: 1, author: 1, batch_hash: [0u8; 32], parent_indices: vec![0, 1, 2] };
    assert!(matches!(state.on_event(Event::VertexReceived(x)), Action::SignAndBroadcast(_)));
}

#[test]
fn duplicate_partial_counts_once_and_the_first_signature_stays() {
    let mut state = ConsensusState::new(0, 4);
    let v = Vertex { round: 0, author: 1, batch_hash: [4u8; 32], parent_indices: vec![] };
    let h = receive(&mut state, &v);
    state.on_event(partial(h, 1, 0xAA));
    assert_eq!(state.collector_size(&h), 1);
    state.on_event(partial(h, 1, 0xBB));
    assert_eq!(state.collector_size(&h), 1);
    assert!(state.get_pending_quorums().is_empty());
    state.on_event(partial(h, 0, 0x01));
    state.on_event(partial(h, 3, 0x03));
    assert_eq!(state.collector_size(&h), 3);
    let pending = state.get_pending_quorums();
    assert_eq!(pending.len(), 1);
    assert_eq!(pending[0].0, h);
    assert_eq!(pending[0].1.author, 1);
    assert_eq!(
        pending[0].2,
        vec![(1, vec![0xAA; 48]), (0, vec![0x01; 48]), (3, vec![0x03; 48])]
    );
}

#[test]
fn applying_a_partial_twice_is_applying_it_once() {
    let h = [6u8; 32];
    let coa = CoA {
        batch_hash: h,
        signatures: vec![(2, vec![1]), (0, vec![2]), (2, vec![3]), (1, vec![4])],
    };
    let mut once = ConsensusState::new(0, 4);
    once.on_event(Event::VertexReceived(Vertex {
        round: 0,
        author: 0,
        batch_hash: [0u8; 32],
        parent_indices: vec![],
    }));
    let mut twice = ConsensusState::new(0, 4);
    twice.on_event(Event::VertexReceived(Vertex {
        round: 0,
        author: 0,
        batch_hash: [0u8; 32],
        parent_indices: vec![],
    }));
    once.on_event(Event::CoAReceived(coa.clone()));
    twice.on_event(Event::CoAReceived(coa.clone()));
    twice.on_event(Event::CoAReceived(coa));
    assert_eq!(once.collector_size(&h), 3);
    assert_eq!(twice.collector_size(&h), 3);
    // no vertex is known under the hash, so nothing is pending
    assert!(once.get_pending_quorums().is_empty());
    assert!(twice.get_pending_quorums().is_empty());
}

#[test]
fn partials_may_come_before_the_vertex() {
    let mut state = ConsensusState::new(0, 4);
    let v = Vertex { round: 0, author: 3, batch_hash: [1u8; 32], parent_indices: vec![] };
    let h = hash_vertex(&v);
    for signer in 0..3 {
        state.on_event(partial(h, signer, 9));
    }
    assert!(state.get_pending_quorums().is_empty());
    receive(&mut state, &v);
    assert_eq!(state.get_pending_quorums().len(), 1);
}

#[test]
fn other_events_change_nothing() {
    let mut state = ConsensusState::new(0, 4);
    assert!(matches!(state.on_event(Event::Timeout(3)), Action::Nothing));
    assert!(matches!(state.on_event(Event::SkipVoteReceived(1, 2, 3, vec![4])), Action::Nothing));
    assert_eq!(state.round(), 0);
    assert_eq!(state.dag().committed_round(), 0);
}

#[test]
fn certify_promotes_once() {
    let mut state = ConsensusState::new(0, 4);
    let v = Vertex { round: 0, author: 1, batch_hash: [4u8; 32], parent_indices: vec![] };
    let h = certify(&mut state, &v);
    assert!(state.dag().is_certified(&h));
    assert_eq!(state.dag().certified_at(0, 0), Some(h));
    assert!(state.get_pending_quorums().is_empty());
    // a second promotion and an unknown vertex are refused
    assert!(!state.certify_vertex(h, vec![]));
    assert!(!state.certify_vertex([0xFF; 32], vec![]));
    assert_eq!(state.dag().certified_count(0), 1);
    assert_eq!(state.dag().committed_round(), 0);
}

#[test]
fn proposal_waits_for_a_certified_quorum() {
    let mut states: Vec<ConsensusState> = (0..4).map(|id| ConsensusState::new(id, 4)).collect();
    // round 0: every validator proposes without parents
    let genesis: Vec<Vertex> =
        states.iter_mut().map(|s| s.propose([0u8; 32], 0).unwrap()).collect();
    for (id, v) in genesis.iter().enumerate() {
        assert_eq!(v.round, 0);
        assert_eq!(v.author, id as u32);
        assert!(v.parent_indices.is_empty());
    }
    let me = &mut states[0];
    assert_eq!(me.round(), 1);
    // nothing of round 0 is certified yet
    assert!(me.propose([1u8; 32], 0).is_none());
    certify(me, &genesis[0]);
    certify(me, &genesis[1]);
    assert!(me.propose([1u8; 32], 0).is_none());
    certify(me, &genesis[3]);
    let v1 = me.propose([1u8; 32], 0).unwrap();
    assert_eq!(v1.round, 1);
    assert_eq!(v1.author, 0);
    assert_eq!(v1.parent_indices, vec![0, 1, 2]);
    assert_eq!(me.round(), 2);
    // the proposal is accepted by the store once it is certified
    certify(me, &v1);
    assert_eq!(me.dag().certified_count(1), 1);
}

#[test]
fn proposal_is_gated_by_drift_and_window() {
    assert_eq!(MAX_ROUND_DRIFT, 50);
    assert_eq!(VERIFICATION_WINDOW, 200);
    let mut state = ConsensusState::new(0, 1);
    assert!(state.propose([0u8; 32], 200).is_none());
    assert_eq!(state.round(), 0);
    // n = 1: every vertex is its own quorum
    for round in 0..50u64 {
        assert_eq!(state.drift(), round);
        let v = state.propose([0u8; 32], 199).unwrap();
        assert_eq!(v.round, round);
        assert_eq!(v.parent_indices, if round == 0 { vec![] } else { vec![0] });
        let h = receive(&mut state, &v);
        assert!(state.certify_vertex(h, vec![(0, vec![1])]));
    }
    assert_eq!(state.drift(), 50);
    assert!(state.propose([0u8; 32], 0).is_none());
    // committing lets the validator propose again
    let anchor = state.dag().certified_at(10, 0).unwrap();
    let log = state.commit_anchor(&anchor, &[0u8; 32]).unwrap();
    assert_eq!(log.len(), 10);
    assert_eq!(state.dag().committed_round(), 10);
    assert_eq!(state.drift(), 40);
    assert!(state.propose([0u8; 32], 0).is_some());
}

#[test]
fn committed_round_never_goes_back() {
    let mut state = ConsensusState::new(0, 1);
    let mut hashes = Vec::new();
    for _ in 0..6 {
        let v = state.propose([0u8; 32], 0).unwrap();
        let h = receive(&mut state, &v);
        assert!(state.certify_vertex(h, vec![(0, vec![1])]));
        hashes.push(h);
    }
    let seed = [2u8; 32];
    let mut last = 0;
    for &i in &[3usize, 1, 5, 2] {
        let before = state.dag().committed_round();
        let log = state.commit_anchor(&hashes[i], &seed).unwrap();
        let after = state.dag().committed_round();
        assert!(after >= before);
        assert_eq!(after, before.max(i as u64));
        assert_eq!(log.len() as u64, (i as u64).saturating_sub(before));
        state.on_event(Event::Timeout(0));
        state.on_event(partial(hashes[0], 0, 1));
        assert!(state.dag().committed_round() >= last);
        last = state.dag().committed_round();
    }
    assert_eq!(last, 5);
    assert!(state.commit_anchor(&[0xEE; 32], &seed).is_none());
    assert_eq!(state.dag().committed_round(), 5);
}

#[test]
fn batches_shrink_under_drift() {
    assert_eq!(batch_trigger(0), 8);
    assert_eq!(batch_trigger(10), 8);
    assert_eq!(batch_trigger(11), 4);
    assert!(!should_verify(0, 100));
    assert!(!should_verify(7, 0));
    assert!(should_verify(8, 0));
    assert!(!should_verify(3, 11));
    assert!(should_verify(4, 11));
    assert!(!should_verify(3, 15));
    assert!(should_verify(1, 16));
}

fn validator_keys() -> (Vec<BlsSecretKey>, Vec<(u32, Vec<u8>)>) {
    let keys: Vec<BlsSecretKey> = (0u8..4).map(|i| BlsSecretKey::generate(&[i + 40; 32])).collect();
    let pks = keys.iter().enumerate().map(|(i, k)| (i as u32, k.public_key())).collect();
    (keys, pks)
}

#[test]
fn aggregated_certificate_promotes_its_vertex() {
    let (keys, pks) = validator_keys();
    let mut ctx = CryptoContext::new();
    let mut state = ConsensusState::new(0, 4);
    let v = Vertex { round: 0, author: 2, batch_hash: [7u8; 32], parent_indices: vec![] };
    let h = receive(&mut state, &v);
    let partials: Vec<(u32, Vec<u8>)> =
        [0usize, 1, 3].iter().map(|&i| (i as u32, keys[i].sign(&h))).collect();
    let (agg_sig, bitmap, _) = aggregate_signatures_with_metrics(&mut ctx, &partials, 3).unwrap();
    let agg = AggregatedCoA { batch_hash: h, aggregated_signature: agg_sig, signer_bitmap: bitmap };

    // the event asks for verification and changes nothing
    match state.on_event(Event::AggregatedCoAReceived(agg.clone())) {
        Action::VerifyAggregated(a) => assert_eq!(a.signer_bitmap, 0b1011),
        _ => panic!("expected a request to verify"),
    }
    assert!(!state.dag().is_certified(&h));

    // a bitmap that names other signers, and a quorum of two, do not promote
    let mut wrong = agg.clone();
    wrong.signer_bitmap = 0b0111;
    assert!(!state.certify_aggregated(&mut ctx, wrong, &pks));
    let two: Vec<(u32, Vec<u8>)> = partials[..2].to_vec();
    let (sig2, bitmap2, _) = aggregate_signatures_with_metrics(&mut ctx, &two, 2).unwrap();
    let short = AggregatedCoA { batch_hash: h, aggregated_signature: sig2, signer_bitmap: bitmap2 };
    assert!(!state.certify_aggregated(&mut ctx, short, &pks));
    assert!(!state.dag().is_certified(&h));

    assert!(state.certify_aggregated(&mut ctx, agg.clone(), &pks));
    assert!(state.dag().is_certified(&h));
    assert!(matches!(state.dag().certificate(&h), Some(Certificate::Aggregated(_))));
    assert_eq!(state.dag().certified_at(0, 0), Some(h));
    // once certified, never again
    assert!(!state.certify_aggregated(&mut ctx, agg, &pks));
    assert_eq!(state.dag().certified_count(0), 1);
}

#[test]
fn aggregated_certificate_of_an_unknown_vertex_does_not_promote() {
    let (keys, pks) = validator_keys();
    let mut ctx = CryptoContext::new();
    let mut state = ConsensusState::new(0, 4);
    let h = [9u8; 32];
    let partials: Vec<(u32, Vec<u8>)> = (0..3).map(|i| (i as u32, keys[i].sign(&h))).collect();
    let (agg_sig, bitmap, _) = aggregate_signatures_with_metrics(&mut ctx, &partials, 3).unwrap();
    let agg = AggregatedCoA { batch_hash: h, aggregated_signature: agg_sig, signer_bitmap: bitmap };
    assert!(!state.certify_aggregated(&mut ctx, agg, &pks));
}

#[test]
fn happy_path_with_four_validators() {
    let (keys, pks) = validator_keys();
    let mut ctx = CryptoContext::new();
    let mut states: Vec<ConsensusState> = (0..4).map(|id| ConsensusState::new(id, 4)).collect();
    let mut logs: Vec<Vec<H>> = vec![Vec::new(); 4];
    for round in 0..3u64 {
        let proposals: Vec<Vertex> = states
            .iter_mut()
            .map(|s| s.propose([round as u8; 32], 0).expect("a quorum is certified"))
            .collect();
        for v in &proposals {
            let h = hash_vertex(v);
            // every validator signs every vertex; the first three signatures certify
            let partials: Vec<(u32, Vec<u8>)> =
                (0..3).map(|i| (i as u32, keys[i].sign(&h))).collect();
            let (agg_sig, bitmap, _) =
                aggregate_signatures_with_metrics(&mut ctx, &partials, 3).unwrap();
            for state in states.iter_mut() {
                assert_eq!(receive(state, v), h);
                let agg = AggregatedCoA {
                    batch_hash: h,
                    aggregated_signature: agg_sig.clone(),
                    signer_bitmap: bitmap,
                };
                assert!(state.certify_aggregated(&mut ctx, agg, &pks));
            }
        }
        if round == 2 {
            let seed = [round as u8 ^ 0x5A; 32];
            for (id, state) in states.iter_mut().enumerate() {
                let anchor = state.dag().select_anchor(round, &seed).unwrap();
                let log = state.commit_anchor(&anchor, &seed).unwrap();
                assert_eq!(state.dag().committed_round(), round);
                logs[id].extend(log);
            }
        }
    }
    // the three parents of the anchor in round 1, then the anchor
    assert_eq!(logs[0].len(), 3 + 1);
    for id in 1..4 {
        assert_eq!(logs[id], logs[0]);
    }
}

#[test]
fn dropped_partial_makes_room_for_a_replacement() {
    let mut state = ConsensusState::new(0, 4);
    let v = Vertex { round: 0, author: 1, batch_hash: [4u8; 32], parent_indices: vec![] };
    let h = receive(&mut state, &v);
    state.on_event(partial(h, 0, 0x10));
    state.on_event(partial(h, 1, 0xBA));
    state.on_event(partial(h, 2, 0x12));
    // the signature of signer 1 turned out to be malformed
    state.drop_partial(&h, 1);
    assert_eq!(state.collector_size(&h), 2);
    assert!(state.get_pending_quorums().is_empty());
    state.drop_partial(&h, 1);
    state.drop_partial(&[0xEE; 32], 1);
    assert_eq!(state.collector_size(&h), 2);
    state.on_event(partial(h, 1, 0x11));
    let pending = state.get_pending_quorums();
    assert_eq!(pending.len(), 1);
    assert_eq!(
        pending[0].2,
        vec![(0, vec![0x10; 48]), (2, vec![0x12; 48]), (1, vec![0x11; 48])]
    );
}

#[test]
fn rejected_vertex_loses_its_partials() {
    let mut state = ConsensusState::new(0, 4);
    let v = Vertex { round: 0, author: 1, batch_hash: [4u8; 32], parent_indices: vec![] };
    let h = receive(&mut state, &v);
    for signer in 0..4 {
        state.on_event(partial(h, signer, 1));
    }
    assert_eq!(state.get_pending_quorums().len(), 1);
    state.reject_vertex(&h);
    assert_eq!(state.collector_size(&h), 0);
    assert!(state.get_pending_quorums().is_empty());
    state.reject_vertex(&[0xEE; 32]);
    assert_eq!(state.collector_size(&[0xEE; 32]), 0);
}

#[test]
fn promotion_needs_a_quorum_of_distinct_signers() {
    let mut state = ConsensusState::new(0, 4);
    let v = Vertex { round: 0, author: 1, batch_hash: [4u8; 32], parent_indices: vec![] };
    let h = receive(&mut state, &v);
    assert!(!state.certify_vertex(h, vec![(0, vec![1]), (1, vec![2])]));
    assert!(!state.certify_vertex(h, vec![(0, vec![1]), (1, vec![2]), (1, vec![3])]));
    assert!(!state.dag().is_certified(&h));
    assert!(state.certify_vertex(h, vec![(3, vec![1]), (1, vec![2]), (0, vec![3])]));
    assert!(state.dag().is_certified(&h));
}

#[test]
fn many_vertices_are_found_again() {
    let mut state = ConsensusState::new(0, 1);
    let mut hashes = Vec::new();
    for i in 0..600u32 {
        let mut batch_hash = [0u8; 32];
        batch_hash[..4].copy_from_slice(&i.to_le_bytes());
        let v = Vertex { round: 0, author: 0, batch_hash, parent_indices: vec![] };
        hashes.push((receive(&mut state, &v), batch_hash));
    }
    for (h, batch_hash) in &hashes {
        assert_eq!(state.dag().vertex(h).unwrap().batch_hash, *batch_hash);
    }
    assert!(state.dag().vertex(&[0u8; 32]).is_none());
}

#[test]
fn drift_metrics_keep_the_largest_sample() {
    let mut m = DriftMetrics::new();
    for d in [3u64, 9, 4, 9, 0] {
        m.record(d);
    }
    assert_eq!(m.drift_samples, vec![3, 9, 4, 9, 0]);
    assert_eq!(m.max_drift, 9);
}

fn signed(h: H, signer: u32, key: &BlsSecretKey) -> Event {
    Event::CoAReceived(CoA { batch_hash: h, signatures: vec![(signer, key.sign(&h))] })
}

#[test]
fn vertex_goes_from_unknown_to_certified() {
    let (keys, pks) = validator_keys();
    let mut ctx = CryptoContext::new();
    let mut state = ConsensusState::new(0, 4);
    let v = Vertex { round: 0, author: 2, batch_hash: [7u8; 32], parent_indices: vec![] };
    let h = hash_vertex(&v);
    assert_eq!(state.try_certify(&mut ctx, &h, &pks), CertifyOutcome::Unknown);
    receive(&mut state, &v);
    assert_eq!(state.try_certify(&mut ctx, &h, &pks), CertifyOutcome::Collecting);
    state.on_event(signed(h, 3, &keys[3]));
    state.on_event(signed(h, 1, &keys[1]));
    assert_eq!(state.try_certify(&mut ctx, &h, &pks), CertifyOutcome::Collecting);
    assert_eq!(state.collector_size(&h), 2);
    state.on_event(signed(h, 0, &keys[0]));
    assert_eq!(state.try_certify(&mut ctx, &h, &pks), CertifyOutcome::Certified);
    assert!(state.dag().is_certified(&h));
    match state.dag().certificate(&h) {
        Some(Certificate::Aggregated(agg)) => {
            assert_eq!(agg.batch_hash, h);
            assert_eq!(agg.signer_bitmap, 0b1011);
            assert_eq!(agg.aggregated_signature.len(), 48);
        }
        _ => panic!("expected an aggregated certificate"),
    }
    assert_eq!(state.try_certify(&mut ctx, &h, &pks), CertifyOutcome::AlreadyCertified);
    assert_eq!(state.dag().certified_count(0), 1);
}

#[test]
fn malformed_partial_waits_for_a_replacement() {
    let (keys, pks) = validator_keys();
    let mut ctx = CryptoContext::new();
    let mut state = ConsensusState::new(0, 4);
    let v = Vertex { round: 0, author: 2, batch_hash: [7u8; 32], parent_indices: vec![] };
    let h = receive(&mut state, &v);
    state.on_event(signed(h, 0, &keys[0]));
    // random bytes from validator 1
    state.on_event(partial(h, 1, 0x42));
    state.on_event(signed(h, 2, &keys[2]));
    assert_eq!(state.try_certify(&mut ctx, &h, &pks), CertifyOutcome::Malformed);
    // the two valid partials stay
    assert_eq!(state.collector_size(&h), 2);
    assert!(!state.dag().is_certified(&h));
    assert_eq!(state.try_certify(&mut ctx, &h, &pks), CertifyOutcome::Collecting);
    state.on_event(signed(h, 1, &keys[1]));
    assert_eq!(state.try_certify(&mut ctx, &h, &pks), CertifyOutcome::Certified);
}

#[test]
fn signer_without_a_bit_is_dropped() {
    let (keys, pks) = validator_keys();
    let mut ctx = CryptoContext::new();
    let mut state = ConsensusState::new(0, 4);
    let v = Vertex { round: 0, author: 2, batch_hash: [7u8; 32], parent_indices: vec![] };
    let h = receive(&mut state, &v);
    state.on_event(signed(h, 0, &keys[0]));
    state.on_event(signed(h, 64, &keys[1]));
    state.on_event(signed(h, 2, &keys[2]));
    assert_eq!(state.try_certify(&mut ctx, &h, &pks), CertifyOutcome::Malformed);
    assert_eq!(state.collector_size(&h), 2);
}

#[test]
fn certificate_that_does_not_verify_is_rejected() {
    let (keys, pks) = validator_keys();
    let mut ctx = CryptoContext::new();
    let mut state = ConsensusState::new(0, 4);
    let v = Vertex { round: 0, author: 2, batch_hash: [7u8; 32], parent_indices: vec![] };
    let h = receive(&mut state, &v);
    state.on_event(signed(h, 0, &keys[0]));
    state.on_event(signed(h, 1, &keys[1]));
    // validator 2 signed something else
    state.on_event(Event::CoAReceived(CoA {
        batch_hash: h,
        signatures: vec![(2, keys[2].sign(b"another vertex"))],
    }));
    assert_eq!(state.try_certify(&mut ctx, &h, &pks), CertifyOutcome::Rejected);
    assert_eq!(state.collector_size(&h), 0);
    assert!(!state.dag().is_certified(&h));
    // with three honest partials the vertex certifies after all
    for i in [0usize, 1, 3] {
        state.on_event(signed(h, i as u32, &keys[i]));
    }
    assert_eq!(state.try_certify(&mut ctx, &h, &pks), CertifyOutcome::Certified);
}

#[test]
fn vertex_that_the_store_refuses_is_rejected() {
    let (keys, pks) = validator_keys();
    let mut ctx = CryptoContext::new();
    let mut state = ConsensusState::new(0, 4);
    let first = Vertex { round: 0, author: 2, batch_hash: [7u8; 32], parent_indices: vec![] };
    let twin = Vertex { round: 0, author: 2, batch_hash: [8u8; 32], parent_indices: vec![] };
    let h1 = receive(&mut state, &first);
    let h2 = receive(&mut state, &twin);
    for i in 0..3usize {
        state.on_event(signed(h1, i as u32, &keys[i]));
        state.on_event(signed(h2, i as u32, &keys[i]));
    }
    assert_eq!(state.try_certify(&mut ctx, &h1, &pks), CertifyOutcome::Certified);
    // the author has a certified vertex in the round already
    assert_eq!(state.try_certify(&mut ctx, &h2, &pks), CertifyOutcome::Rejected);
    assert!(!state.dag().is_certified(&h2));
    assert_eq!(state.dag().certified_count(0), 1);
}

#[test]
fn next_round_commits_once_a_quorum_is_certified() {
    let mut state = ConsensusState::new(0, 4);
    let genesis: Vec<H> = (0..4)
        .map(|a| {
            certify(&mut state, &Vertex { round: 0, author: a, batch_hash: [0; 32], parent_indices: vec![] })
        })
        .collect();
    assert!(state.commit_next(None).is_none());
    let mut first = Vec::new();
    for a in 0..2 {
        let v = Vertex { round: 1, author: a, batch_hash: [1; 32], parent_indices: vec![0, 1, 2] };
        first.push(certify(&mut state, &v));
        assert!(state.commit_next(None).is_none());
    }
    let v = Vertex { round: 1, author: 3, batch_hash: [1; 32], parent_indices: vec![1, 2, 3] };
    first.push(certify(&mut state, &v));

    // without an anchor before, the seed is that of no signatures
    let seed = derive_vrf_seed(vec![], 1);
    assert_eq!(state.round_seed(None, 1), seed);
    let least = *first.iter().min_by_key(|h| (vrf_sort_key(h, &seed), **h)).unwrap();
    let (anchor, log) = state.commit_next(None).unwrap();
    assert_eq!(anchor, least);
    assert_eq!(log, vec![anchor]);
    assert_eq!(state.dag().committed_round(), 1);
    assert!(state.commit_next(Some(anchor)).is_none());

    // the next seed comes from the signatures of the anchor's certificate
    let sigs: Vec<Vec<u8>> = (0..3u8).map(|s| vec![s; 48]).collect();
    assert_eq!(state.round_seed(Some(anchor), 2), derive_vrf_seed(sigs, 2));
    assert_eq!(state.round_seed(Some([0xEE; 32]), 2), derive_vrf_seed(vec![], 2));
    assert!(genesis.iter().all(|h| state.dag().is_certified(h)));
}
