use ed25519_dalek::{Signer, SigningKey};
use sublinear_bft_scifest::crypto::{
    derive_vrf_seed, hash, hash_vertex, verify_partials, verify_signature, vrf_sort_key,
};
use sublinear_bft_scifest::codec::encode_vertex;
use sublinear_bft_scifest::types::Vertex;

#[test]
fn hash_is_blake3() {
    assert_eq!(hash(b"abc"), *blake3::hash(b"abc").as_bytes());
    assert_eq!(hash(b""), *blake3::hash(b"").as_bytes());
    assert_ne!(hash(b"abc"), hash(b"abd"));
}

#[test]
fn vertex_encoding_is_byte_exact() {
    let v = Vertex { round: 0x0102, author: 7, batch_hash: [0xAA; 32], parent_indices: vec![1, 0x01020304] };
    let mut expected = vec![0x02, 0x01, 0, 0, 0, 0, 0, 0, 7, 0, 0, 0];
    expected.extend([0xAA; 32]);
    expected.extend([2, 0, 0, 0, 0, 0, 0, 0]);
    expected.extend([1, 0, 0, 0]);
    expected.extend([4, 3, 2, 1]);
    assert_eq!(encode_vertex(&v), expected);
    assert_eq!(hash_vertex(&v), hash(&expected));
    let empty = Vertex { round: 0, author: 0, batch_hash: [0; 32], parent_indices: vec![] };
    assert_eq!(encode_vertex(&empty), vec![0u8; 52]);
}

#[test]
fn sort_key_hashes_the_vertex_hash_then_the_seed() {
    let h = [1u8; 32];
    let s = [2u8; 32];
    let mut both = h.to_vec();
    both.extend(s);
    assert_eq!(vrf_sort_key(&h, &s), hash(&both));
    assert_ne!(vrf_sort_key(&h, &s), vrf_sort_key(&s, &h));
}

#[test]
fn seed_does_not_depend_on_collection_order() {
    let a = vec![vec![3u8, 1], vec![1u8, 2, 3], vec![1u8, 2], vec![]];
    let b = vec![vec![1u8, 2], vec![], vec![3u8, 1], vec![1u8, 2, 3]];
    assert_eq!(derive_vrf_seed(a.clone(), 9), derive_vrf_seed(b, 9));
    assert_ne!(derive_vrf_seed(a.clone(), 9), derive_vrf_seed(a.clone(), 10));
    // sorted: [], [1,2], [1,2,3], [3,1]; then the round, little-endian
    let mut input = vec![1u8, 2, 1, 2, 3, 3, 1];
    input.extend(0x0102030405060708u64.to_le_bytes());
    assert_eq!(derive_vrf_seed(a, 0x0102030405060708), hash(&input));
    assert_eq!(derive_vrf_seed(vec![], 0), hash(&[0u8; 8]));
}

#[test]
fn ed25519_signature_is_checked() {
    let key = SigningKey::from_bytes(&[5u8; 32]);
    let pk = key.verifying_key().to_bytes();
    let sig = key.sign(b"payload").to_bytes();
    assert!(verify_signature(b"payload", &sig, &pk));
    assert!(!verify_signature(b"other", &sig, &pk));
    assert!(!verify_signature(b"payload", &sig[..63], &pk));
    assert!(!verify_signature(b"payload", &[], &pk));
    let other = SigningKey::from_bytes(&[6u8; 32]).verifying_key().to_bytes();
    assert!(!verify_signature(b"payload", &sig, &other));
}

#[test]
fn partial_certificate_is_checked_signature_by_signature() {
    let keys: Vec<SigningKey> = (0u8..3).map(|i| SigningKey::from_bytes(&[i + 1; 32])).collect();
    let public: Vec<[u8; 32]> = keys.iter().map(|k| k.verifying_key().to_bytes()).collect();
    let msg = [9u8; 32];
    let sig = |i: usize| keys[i].sign(&msg).to_bytes().to_vec();
    assert!(verify_partials(&msg, &vec![], &public));
    assert!(verify_partials(&msg, &vec![(2, sig(2)), (0, sig(0))], &public));
    // a signature of another signer, an unknown signer, another message
    assert!(!verify_partials(&msg, &vec![(0, sig(0)), (1, sig(2))], &public));
    assert!(!verify_partials(&msg, &vec![(3, sig(0))], &public));
    assert!(!verify_partials(&[8u8; 32], &vec![(0, sig(0))], &public));
}
