use sublinear_bft_scifest::crypto::{hash_vertex, vrf_sort_key};
use sublinear_bft_scifest::dag::{Dag, InsertError};
use sublinear_bft_scifest::types::{
    AggregatedCertifiedVertex, AggregatedCoA, Certificate, CertifiedVertex, CoA, Vertex,
};

type H = [u8; 32];

fn vertex(round: u64, author: u32, parents: Vec<u32>) -> Vertex {
    Vertex { round, author, batch_hash: [author as u8; 32], parent_indices: parents }
}

fn certified(v: &Vertex) -> (CertifiedVertex, H) {
    let h = hash_vertex(v);
    let coa = CoA { batch_hash: h, signatures: vec![(0, vec![1]), (1, vec![2]), (2, vec![3])] };
    (CertifiedVertex { vertex: v.clone(), coa }, h)
}

fn insert(dag: &mut Dag, v: &Vertex) -> H {
    let (cv, h) = certified(v);
    assert_eq!(dag.insert_certified(cv, h), Ok(()));
    h
}

/// n = 4, f = 1 with the four genesis vertices certified.
fn with_genesis() -> (Dag, Vec<H>) {
    let mut dag = Dag::new(4, 1);
    let hashes = (0..4).map(|a| insert(&mut dag, &vertex(0, a, vec![]))).collect();
    (dag, hashes)
}

#[test]
fn new_store_is_empty() {
    let dag = Dag::new(4, 1);
    assert_eq!(dag.n(), 4);
    assert_eq!(dag.f(), 1);
    assert_eq!(dag.committed_round(), 0);
    assert_eq!(dag.certified_count(0), 0);
    assert!(dag.vertex(&[0u8; 32]).is_none());
    assert!(!dag.is_certified(&[0u8; 32]));
}

#[test]
fn certified_vertices_are_indexed_in_order_of_certification() {
    let (dag, g) = with_genesis();
    assert_eq!(dag.certified_count(0), 4);
    for i in 0..4 {
        assert_eq!(dag.certified_at(0, i), Some(g[i]));
        assert!(dag.is_certified(&g[i]));
        assert_eq!(dag.vertex(&g[i]).unwrap().author, i as u32);
        assert_eq!(dag.certificate(&g[i]).unwrap().vertex_hash(), g[i]);
    }
    assert_eq!(dag.certified_at(0, 4), None);
    assert_eq!(dag.certified_count(1), 0);
}

#[test]
fn validate_vertex_accepts_a_quorum_of_distinct_certified_parents() {
    let (dag, g) = with_genesis();
    let v = vertex(1, 0, vec![0, 1, 2]);
    assert!(dag.validate_vertex(&v, &[g[0], g[1], g[2]]));
    assert!(dag.validate_vertex(&v, &[g[3], g[1], g[0]]));
}

#[test]
fn validate_vertex_rejects_wrong_parents() {
    let (mut dag, g) = with_genesis();
    let v = vertex(1, 0, vec![0, 1, 2]);
    // too few, too many
    assert!(!dag.validate_vertex(&v, &[g[0], g[1]]));
    assert!(!dag.validate_vertex(&v, &[g[0], g[1], g[2], g[3]]));
    // the same parent twice: the authors are not distinct
    assert!(!dag.validate_vertex(&v, &[g[0], g[1], g[1]]));
    // an unknown parent
    assert!(!dag.validate_vertex(&v, &[g[0], g[1], [0xEE; 32]]));
    // a parent that is known but not certified
    let loose = vertex(0, 9, vec![]);
    let loose_hash = hash_vertex(&loose);
    dag.insert_vertex(loose, loose_hash);
    assert!(!dag.validate_vertex(&v, &[g[0], g[1], loose_hash]));
    // parents of the wrong round
    let w = vertex(2, 0, vec![0, 1, 2]);
    assert!(!dag.validate_vertex(&w, &[g[0], g[1], g[2]]));
    let z = vertex(0, 0, vec![]);
    assert!(!dag.validate_vertex(&z, &[g[0], g[1], g[2]]));
}

#[test]
fn insert_certified_names_the_check_that_failed() {
    let (mut dag, g) = with_genesis();
    let v = vertex(1, 0, vec![0, 1, 2]);
    let (cv, h) = certified(&v);

    let mut wrong = cv.clone();
    wrong.coa.batch_hash = [7u8; 32];
    assert_eq!(dag.insert_certified(wrong, h), Err(InsertError::CertificateMismatch));

    // another vertex is known under the hash
    let other = vertex(5, 3, vec![]);
    let mut conflict = Dag::new(4, 1);
    conflict.insert_vertex(other, h);
    assert_eq!(conflict.insert_certified(cv.clone(), h), Err(InsertError::HashConflict));

    assert_eq!(dag.insert_certified(cv.clone(), h), Ok(()));
    assert_eq!(dag.insert_certified(cv.clone(), h), Err(InsertError::AlreadyCertified));
    assert_eq!(dag.certified_count(1), 1);

    // the same author again in round 1
    let mut twin = vertex(1, 0, vec![1, 2, 3]);
    twin.batch_hash = [0x55; 32];
    let (cv2, h2) = certified(&twin);
    assert_eq!(dag.insert_certified(cv2, h2), Err(InsertError::Equivocation));
    assert!(!dag.is_certified(&h2));

    // parents: wrong count, out of range, repeated
    for parents in [vec![0, 1], vec![0, 1, 4], vec![0, 1, 1], vec![0, 1, 2, 3]] {
        let bad = vertex(1, 1, parents);
        let (cvb, hb) = certified(&bad);
        assert_eq!(dag.insert_certified(cvb, hb), Err(InsertError::InvalidParents));
        assert!(dag.vertex(&hb).is_none());
    }
    // a vertex two rounds up has no certified parents yet
    let far = vertex(3, 1, vec![0, 1, 2]);
    let (cvf, hf) = certified(&far);
    assert_eq!(dag.insert_certified(cvf, hf), Err(InsertError::InvalidParents));
    assert_eq!(dag.certified_at(0, 0), Some(g[0]));
}

#[test]
fn one_certified_vertex_per_round_and_author() {
    let mut dag = Dag::new(4, 1);
    let a = vertex(0, 2, vec![]);
    let mut b = vertex(0, 2, vec![]);
    b.batch_hash = [0x99; 32];
    insert(&mut dag, &a);
    let (cvb, hb) = certified(&b);
    assert_eq!(dag.insert_certified(cvb, hb), Err(InsertError::Equivocation));
    assert_eq!(dag.certified_count(0), 1);
}

#[test]
fn anchor_without_predecessors_above_the_frontier_sorts_alone() {
    let (mut dag, _) = with_genesis();
    let anchor = insert(&mut dag, &vertex(1, 2, vec![0, 1, 3]));
    // anchor round = committed round + 1
    assert_eq!(dag.committed_round(), 0);
    assert_eq!(dag.aether_sort(&anchor, &[3u8; 32]), Some(vec![anchor]));
}

#[test]
fn uncertified_anchor_is_not_sorted() {
    let (mut dag, _) = with_genesis();
    let v = vertex(1, 2, vec![0, 1, 3]);
    let h = hash_vertex(&v);
    assert_eq!(dag.aether_sort(&h, &[3u8; 32]), None);
    dag.insert_vertex(v, h);
    assert_eq!(dag.aether_sort(&h, &[3u8; 32]), None);
}

fn two_rounds() -> (Dag, Vec<H>, H) {
    let (mut dag, _) = with_genesis();
    let r1: Vec<H> = (0..4).map(|a| insert(&mut dag, &vertex(1, a, vec![0, 1, 2]))).collect();
    let anchor = insert(&mut dag, &vertex(2, 1, vec![0, 2, 3]));
    (dag, r1, anchor)
}

#[test]
fn layers_ascend_by_round_and_by_sort_key() {
    let (dag, r1, anchor) = two_rounds();
    let seed = [0x5Au8; 32];
    let log = dag.aether_sort(&anchor, &seed).unwrap();
    // the parents 0, 2 and 3 of round 1, then the anchor
    assert_eq!(log.len(), 4);
    assert_eq!(log[3], anchor);
    let mut expected = vec![r1[0], r1[2], r1[3]];
    expected.sort_by_key(|h| (vrf_sort_key(h, &seed), *h));
    assert_eq!(&log[..3], &expected[..]);
    assert!(!log.contains(&r1[1]));
    for w in log[..3].windows(2) {
        assert!(vrf_sort_key(&w[0], &seed) < vrf_sort_key(&w[1], &seed));
    }
}

#[test]
fn committed_rounds_are_left_out() {
    let (mut dag, _, anchor) = two_rounds();
    let seed = [1u8; 32];
    dag.commit_round(1);
    assert_eq!(dag.aether_sort(&anchor, &seed), Some(vec![anchor]));
    dag.commit_round(2);
    assert_eq!(dag.aether_sort(&anchor, &seed), Some(vec![]));
    // the committed round never goes back
    dag.commit_round(1);
    assert_eq!(dag.committed_round(), 2);
    dag.commit_round(7);
    assert_eq!(dag.committed_round(), 7);
}

#[test]
fn same_store_anchor_and_seed_give_the_same_log() {
    let mut seed = [0u8; 32];
    seed[30] = 0xAB;
    seed[31] = 0xCD;
    let (a, _, anchor_a) = two_rounds();
    let (b, _, anchor_b) = two_rounds();
    assert_eq!(anchor_a, anchor_b);
    let log_a = a.aether_sort(&anchor_a, &seed).unwrap();
    let log_b = b.aether_sort(&anchor_b, &seed).unwrap();
    assert_eq!(log_a, log_b);
    assert_eq!(a.aether_sort(&anchor_a, &seed).unwrap(), log_a);
}

#[test]
fn shared_parents_are_listed_once() {
    let (mut dag, _) = with_genesis();
    let r1: Vec<H> = (0..4).map(|a| insert(&mut dag, &vertex(1, a, vec![0, 1, 2]))).collect();
    let r2: Vec<H> = (0..3).map(|a| insert(&mut dag, &vertex(2, a, vec![0, 1, 2]))).collect();
    let anchor = insert(&mut dag, &vertex(3, 0, vec![0, 1, 2]));
    let seed = [8u8; 32];
    let log = dag.aether_sort(&anchor, &seed).unwrap();
    assert_eq!(log.len(), 3 + 3 + 1);
    let mut l1 = vec![r1[0], r1[1], r1[2]];
    l1.sort_by_key(|h| (vrf_sort_key(h, &seed), *h));
    let mut l2 = r2.clone();
    l2.sort_by_key(|h| (vrf_sort_key(h, &seed), *h));
    let mut expected = l1;
    expected.extend(l2);
    expected.push(anchor);
    assert_eq!(log, expected);
}

#[test]
fn certificate_without_a_quorum_is_refused() {
    let mut dag = Dag::new(4, 1);
    let v = vertex(0, 0, vec![]);
    let h = hash_vertex(&v);
    let two = CoA { batch_hash: h, signatures: vec![(0, vec![1]), (1, vec![2])] };
    let cv = CertifiedVertex { vertex: v.clone(), coa: two };
    assert_eq!(dag.insert_certified(cv, h), Err(InsertError::QuorumShortfall));
    // three signatures of two signers
    let twice = CoA { batch_hash: h, signatures: vec![(0, vec![1]), (1, vec![2]), (0, vec![3])] };
    let cv = CertifiedVertex { vertex: v.clone(), coa: twice };
    assert_eq!(dag.insert_certified(cv, h), Err(InsertError::QuorumShortfall));
    assert!(!dag.is_certified(&h));
    // an aggregated certificate whose bitmap names two signers, then three
    let agg = |bitmap| AggregatedCertifiedVertex {
        vertex: v.clone(),
        agg_coa: AggregatedCoA { batch_hash: h, aggregated_signature: vec![0; 48], signer_bitmap: bitmap },
    };
    assert_eq!(dag.insert_aggregated(agg(0b1010), h), Err(InsertError::QuorumShortfall));
    assert_eq!(dag.insert_aggregated(agg(0), h), Err(InsertError::QuorumShortfall));
    assert_eq!(dag.insert_aggregated(agg(0b1011), h), Ok(()));
    assert!(matches!(dag.certificate(&h), Some(Certificate::Aggregated(a)) if a.signer_bitmap == 0b1011));
}

#[test]
fn anchor_is_the_certified_vertex_with_the_least_sort_key() {
    let (dag, g) = with_genesis();
    for seed_byte in 0..16u8 {
        let seed = [seed_byte; 32];
        let anchor = dag.select_anchor(0, &seed).unwrap();
        let least = *g.iter().min_by_key(|h| (vrf_sort_key(h, &seed), **h)).unwrap();
        assert_eq!(anchor, least);
    }
    assert_eq!(dag.select_anchor(1, &[0u8; 32]), None);
}

#[test]
fn anchor_without_any_predecessor_sorts_alone() {
    // a store that asks for no parents: the anchor of round 1 is all there is
    let mut dag = Dag::new(0, 0);
    let v = vertex(1, 0, vec![]);
    let h = hash_vertex(&v);
    let cv = CertifiedVertex { vertex: v, coa: CoA { batch_hash: h, signatures: vec![] } };
    assert_eq!(dag.insert_certified(cv, h), Ok(()));
    assert_eq!(dag.certified_count(0), 0);
    assert_eq!(dag.committed_round(), 0);
    assert_eq!(dag.aether_sort(&h, &[0xCD; 32]), Some(vec![h]));
}
