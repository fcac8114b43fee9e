use rand::rngs::OsRng;
use rand::RngCore;
use sublinear_bft_scifest::bls_crypto::{
    aggregate_signatures_with_metrics, count_signers, verify_aggregated,
    verify_aggregated_batch_with_metrics, verify_aggregated_with_metrics, AggregateError,
    BlsSecretKey, CryptoContext,
};

fn fresh_key() -> BlsSecretKey {
    let mut ikm = [0u8; 32];
    OsRng.fill_bytes(&mut ikm);
    BlsSecretKey::generate(&ikm)
}

#[test]
fn test_blst_basic() {
    let mut ctx = CryptoContext::new();
    let sk = fresh_key();
    let pk = sk.public_key();
    let msg = b"hello blst";
    let sig = sk.sign(msg);
    let (valid, _) = verify_aggregated_with_metrics(&mut ctx, msg, &sig, &[(0, pk)], 1, 1);
    assert!(valid);
}

#[test]
fn test_blst_aggregation() {
    let mut ctx = CryptoContext::new();
    let sk1 = fresh_key();
    let sk2 = fresh_key();
    let msg = b"consensus message";
    let sig1 = sk1.sign(msg);
    let sig2 = sk2.sign(msg);
    let (agg, bitmap, _) =
        aggregate_signatures_with_metrics(&mut ctx, &[(0, sig1), (1, sig2)], 2).unwrap();
    let pks = vec![(0, sk1.public_key()), (1, sk2.public_key())];
    let (valid, _) = verify_aggregated_with_metrics(&mut ctx, msg, &agg, &pks, bitmap, 2);
    assert!(valid);
}

#[test]
fn key_and_signature_sizes() {
    let sk = BlsSecretKey::generate(&[7u8; 32]);
    assert_eq!(sk.public_key().len(), 96);
    assert_eq!(sk.sign(b"x").len(), 48);
}

#[test]
fn signing_is_deterministic() {
    let a = BlsSecretKey::generate(&[1u8; 32]);
    let b = BlsSecretKey::generate(&[1u8; 32]);
    assert_eq!(a.public_key(), b.public_key());
    assert_eq!(a.sign(b"message"), b.sign(b"message"));
    assert_ne!(a.sign(b"message"), a.sign(b"another"));
    let c = BlsSecretKey::generate(&[2u8; 32]);
    assert_ne!(a.public_key(), c.public_key());
}

#[test]
fn wrong_message_or_key_is_rejected() {
    let mut ctx = CryptoContext::new();
    let sk = BlsSecretKey::generate(&[3u8; 32]);
    let other = BlsSecretKey::generate(&[4u8; 32]);
    let sig = sk.sign(b"right");
    assert!(verify_aggregated(&mut ctx, b"right", &sig, &[(0, sk.public_key())], 1, 1));
    assert!(!verify_aggregated(&mut ctx, b"wrong", &sig, &[(0, sk.public_key())], 1, 1));
    assert!(!verify_aggregated(&mut ctx, b"right", &sig, &[(0, other.public_key())], 1, 1));
}

fn four_keys() -> Vec<BlsSecretKey> {
    (0u8..4).map(|i| BlsSecretKey::generate(&[i + 10; 32])).collect()
}

fn key_list(keys: &[BlsSecretKey]) -> Vec<(u32, Vec<u8>)> {
    keys.iter().enumerate().map(|(i, k)| (i as u32, k.public_key())).collect()
}

#[test]
fn smallest_bft_quorum_of_three_certifies() {
    // n = 4, f = 1, q = 3
    let mut ctx = CryptoContext::new();
    let keys = four_keys();
    let pks = key_list(&keys);
    let msg = [9u8; 32];
    let partials: Vec<(u32, Vec<u8>)> =
        vec![(0, keys[0].sign(&msg)), (2, keys[2].sign(&msg)), (3, keys[3].sign(&msg))];
    let (agg, bitmap, metrics) = aggregate_signatures_with_metrics(&mut ctx, &partials, 3).unwrap();
    assert_eq!(bitmap, 0b1101);
    assert_eq!(count_signers(bitmap), 3);
    assert_eq!(metrics.signature_count, 3);
    assert_eq!(agg.len(), 48);
    let (valid, vm) = verify_aggregated_with_metrics(&mut ctx, &msg, &agg, &pks, bitmap, 3);
    assert!(valid);
    assert_eq!(vm.pairing_count, 2);
    // the same certificate does not meet a quorum of four
    assert!(!verify_aggregated(&mut ctx, &msg, &agg, &pks, bitmap, 4));
    // a bitmap that names another signer set does not verify
    assert!(!verify_aggregated(&mut ctx, &msg, &agg, &pks, 0b0111, 3));
}

#[test]
fn two_signers_fall_short_of_the_quorum() {
    let mut ctx = CryptoContext::new();
    let keys = four_keys();
    let msg = [1u8; 32];
    let partials = vec![(0, keys[0].sign(&msg)), (1, keys[1].sign(&msg))];
    let r = aggregate_signatures_with_metrics(&mut ctx, &partials, 3);
    assert_eq!(r.err(), Some(AggregateError::InsufficientSignatures));
    assert_eq!(AggregateError::InsufficientSignatures.message(), "Insufficient signatures");
}

#[test]
fn empty_bitmap_is_rejected() {
    let mut ctx = CryptoContext::new();
    let keys = four_keys();
    let pks = key_list(&keys);
    let msg = [1u8; 32];
    let sig = keys[0].sign(&msg);
    assert!(!verify_aggregated(&mut ctx, &msg, &sig, &pks, 0, 3));
    assert!(!verify_aggregated(&mut ctx, &msg, &sig, &pks, 0, 0));
    let (valid, m) = verify_aggregated_with_metrics(&mut ctx, &msg, &sig, &pks, 0, 1);
    assert!(!valid);
    assert_eq!(m.pairing_count, 0);
}

#[test]
fn signer_id_64_fails_aggregation() {
    let mut ctx = CryptoContext::new();
    let keys = four_keys();
    let msg = [1u8; 32];
    let partials = vec![(0, keys[0].sign(&msg)), (64, keys[1].sign(&msg))];
    let r = aggregate_signatures_with_metrics(&mut ctx, &partials, 2);
    assert_eq!(r.err(), Some(AggregateError::IdOutOfRange));
    assert_eq!(AggregateError::IdOutOfRange.message(), "ID out of range");
    let partials = vec![(63, keys[0].sign(&msg)), (0, keys[1].sign(&msg))];
    let (_, bitmap, _) = aggregate_signatures_with_metrics(&mut ctx, &partials, 2).unwrap();
    assert_eq!(bitmap, (1u64 << 63) | 1);
}

#[test]
fn duplicate_signer_fails_aggregation() {
    let mut ctx = CryptoContext::new();
    let keys = four_keys();
    let msg = [1u8; 32];
    let partials =
        vec![(1, keys[1].sign(&msg)), (2, keys[2].sign(&msg)), (1, keys[1].sign(&msg))];
    let r = aggregate_signatures_with_metrics(&mut ctx, &partials, 3);
    assert_eq!(r.err(), Some(AggregateError::DuplicateSigner));
    assert_eq!(AggregateError::DuplicateSigner.message(), "Duplicate signer");
}

#[test]
fn malformed_signature_fails_aggregation() {
    let mut ctx = CryptoContext::new();
    let keys = four_keys();
    let msg = [1u8; 32];
    let partials = vec![(0, keys[0].sign(&msg)), (1, vec![0x42u8; 48]), (2, keys[2].sign(&msg))];
    let r = aggregate_signatures_with_metrics(&mut ctx, &partials, 3);
    assert_eq!(r.err(), Some(AggregateError::InvalidSignatureFormat));
    assert_eq!(AggregateError::InvalidSignatureFormat.message(), "Invalid signature format");
    // the fault of the first faulty entry is reported
    let partials = vec![(0, vec![1u8; 10]), (70, keys[1].sign(&msg))];
    let r = aggregate_signatures_with_metrics(&mut ctx, &partials, 2);
    assert_eq!(r.err(), Some(AggregateError::InvalidSignatureFormat));
    assert_eq!(AggregateError::AggregationFailed.message(), "Aggregation failed");
}

fn certificate(keys: &[BlsSecretKey], ctx: &mut CryptoContext, msg: &[u8]) -> (Vec<u8>, u64) {
    let partials: Vec<(u32, Vec<u8>)> =
        vec![(0, keys[0].sign(msg)), (1, keys[1].sign(msg)), (2, keys[2].sign(msg))];
    let (agg, bitmap, _) = aggregate_signatures_with_metrics(ctx, &partials, 3).unwrap();
    (agg, bitmap)
}

#[test]
fn batch_of_valid_certificates_verifies() {
    let mut ctx = CryptoContext::new();
    let keys = four_keys();
    let pks = key_list(&keys);
    let msgs: Vec<Vec<u8>> = (0u8..8).map(|i| vec![i; 32]).collect();
    let certs: Vec<(Vec<u8>, u64)> =
        msgs.iter().map(|m| certificate(&keys, &mut ctx, m)).collect();
    let items: Vec<_> = msgs
        .iter()
        .zip(certs.iter())
        .map(|(m, c)| (m.as_slice(), &c.0, pks.as_slice(), c.1, 3usize))
        .collect();
    let (valid, metrics) = verify_aggregated_batch_with_metrics(&mut ctx, items);
    assert!(valid);
    assert_eq!(metrics.pairing_count, 9);
}

#[test]
fn one_bad_certificate_fails_the_batch() {
    let mut ctx = CryptoContext::new();
    let keys = four_keys();
    let pks = key_list(&keys);
    let msgs: Vec<Vec<u8>> = (0u8..8).map(|i| vec![i; 32]).collect();
    let mut certs: Vec<(Vec<u8>, u64)> =
        msgs.iter().map(|m| certificate(&keys, &mut ctx, m)).collect();
    // the certificate of message 5 is that of message 4
    certs[5] = certs[4].clone();
    let items: Vec<_> = msgs
        .iter()
        .zip(certs.iter())
        .map(|(m, c)| (m.as_slice(), &c.0, pks.as_slice(), c.1, 3usize))
        .collect();
    let (valid, _) = verify_aggregated_batch_with_metrics(&mut ctx, items);
    assert!(!valid);
    // one by one, only the bad one is refused
    for i in 0..8 {
        let ok = verify_aggregated(&mut ctx, &msgs[i], &certs[i].0, &pks, certs[i].1, 3);
        assert_eq!(ok, i != 5);
    }
}

#[test]
fn empty_batch_is_accepted() {
    let mut ctx = CryptoContext::new();
    let (valid, metrics) = verify_aggregated_batch_with_metrics(&mut ctx, Vec::new());
    assert!(valid);
    assert_eq!(metrics.pairing_count, 0);
    assert_eq!(metrics.verify_micros, 0);
}

#[test]
fn cached_results_agree_with_fresh_ones() {
    let keys = four_keys();
    let pks = key_list(&keys);
    let msg = [5u8; 32];
    let mut warm = CryptoContext::new();
    let (agg, bitmap) = certificate(&keys, &mut warm, &msg);
    for _ in 0..3 {
        assert!(verify_aggregated(&mut warm, &msg, &agg, &pks, bitmap, 3));
        let mut cold = CryptoContext::with_capacity(0);
        assert!(verify_aggregated(&mut cold, &msg, &agg, &pks, bitmap, 3));
    }
    // another validator set under the same bitmap
    let others: Vec<(u32, Vec<u8>)> = (0u32..4)
        .map(|i| (i, BlsSecretKey::generate(&[i as u8 + 100; 32]).public_key()))
        .collect();
    assert!(!verify_aggregated(&mut warm, &msg, &agg, &others, bitmap, 3));
    assert!(verify_aggregated(&mut warm, &msg, &agg, &pks, bitmap, 3));
}

#[test]
fn point_outside_the_group_fails_the_sum() {
    let mut ctx = CryptoContext::new();
    let mut found = false;
    for i in 0..=255u8 {
        // a compressed point with a small x coordinate
        let mut bytes = vec![0u8; 48];
        bytes[0] = 0x80;
        bytes[47] = i;
        match aggregate_signatures_with_metrics(&mut ctx, &[(0, bytes)], 1) {
            Err(AggregateError::AggregationFailed) => {
                found = true;
                break;
            }
            Err(AggregateError::InvalidSignatureFormat) => {}
            Ok(_) => {}
            Err(e) => panic!("unexpected error: {}", e.message()),
        }
    }
    assert!(found, "no point on the curve and outside the group among the candidates");
}

#[test]
fn three_of_four_validators_certify_without_the_fourth() {
    let mut ctx = CryptoContext::new();
    let keys = four_keys();
    let pks = key_list(&keys);
    for author in 0u8..3 {
        let msg = [author; 32];
        let partials: Vec<(u32, Vec<u8>)> =
            (0..3).map(|i| (i as u32, keys[i].sign(&msg))).collect();
        let (agg, bitmap, metrics) =
            aggregate_signatures_with_metrics(&mut ctx, &partials, 3).unwrap();
        assert_eq!(bitmap, 0b0111);
        assert_eq!(metrics.signature_count, 3);
        assert!(verify_aggregated(&mut ctx, &msg, &agg, &pks, bitmap, 3));
    }
}
