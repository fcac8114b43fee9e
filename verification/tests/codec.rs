use sublinear_bft_scifest::codec::encode_message;
use sublinear_bft_scifest::net::{decode_frame, encode_frame, Frame};
use sublinear_bft_scifest::parser::decode_message;
use sublinear_bft_scifest::types::{AggregatedCoA, CoA, Message, Vertex};

fn samples() -> Vec<Message> {
    vec![
        Message::Vertex(Vertex { round: 0, author: 0, batch_hash: [0; 32], parent_indices: vec![] }),
        Message::Vertex(Vertex {
            round: u64::MAX,
            author: u32::MAX,
            batch_hash: [0xAB; 32],
            parent_indices: vec![0, 1, 2, u32::MAX, 0x01020304],
        }),
        Message::CoA(CoA { batch_hash: [1; 32], signatures: vec![] }),
        Message::CoA(CoA {
            batch_hash: [2; 32],
            signatures: vec![(0, vec![]), (7, vec![1, 2, 3]), (u32::MAX, vec![9; 48]), (7, vec![0])],
        }),
        Message::AggregatedCoA(AggregatedCoA {
            batch_hash: [3; 32],
            aggregated_signature: (0u8..48).collect(),
            signer_bitmap: 0x8000_0000_0000_0005,
        }),
        Message::SkipVote(9, 2, 1, vec![]),
        Message::SkipVote(u64::MAX, 0, u32::MAX, vec![5; 64]),
    ]
}

fn same(a: &Message, b: &Message) -> bool {
    match (a, b) {
        (Message::Vertex(x), Message::Vertex(y)) => {
            x.round == y.round
                && x.author == y.author
                && x.batch_hash == y.batch_hash
                && x.parent_indices == y.parent_indices
        }
        (Message::CoA(x), Message::CoA(y)) => {
            x.batch_hash == y.batch_hash && x.signatures == y.signatures
        }
        (Message::AggregatedCoA(x), Message::AggregatedCoA(y)) => {
            x.batch_hash == y.batch_hash
                && x.aggregated_signature == y.aggregated_signature
                && x.signer_bitmap == y.signer_bitmap
        }
        (Message::SkipVote(a1, b1, c1, d1), Message::SkipVote(a2, b2, c2, d2)) => {
            a1 == a2 && b1 == b2 && c1 == c2 && d1 == d2
        }
        _ => false,
    }
}

#[test]
fn decoding_inverts_encoding() {
    for m in samples() {
        let bytes = encode_message(&m).unwrap();
        let back = decode_message(&bytes).expect("an encoding decodes");
        assert!(same(&m, &back));
        assert_eq!(encode_message(&back).unwrap(), bytes);
    }
}

#[test]
fn encodings_are_byte_exact() {
    let skip = encode_message(&Message::SkipVote(0x0102, 3, 4, vec![0xAA, 0xBB])).unwrap();
    assert_eq!(
        skip,
        vec![3, 2, 1, 0, 0, 0, 0, 0, 0, 3, 0, 0, 0, 4, 0, 0, 0, 2, 0, 0, 0, 0, 0, 0, 0, 0xAA, 0xBB]
    );
    let coa = encode_message(&Message::CoA(CoA {
        batch_hash: [0x11; 32],
        signatures: vec![(5, vec![0xCC]), (6, vec![])],
    }))
    .unwrap();
    let mut expected = vec![1u8];
    expected.extend([0x11; 32]);
    expected.extend([2, 0, 0, 0, 0, 0, 0, 0]);
    expected.extend([5, 0, 0, 0, 1, 0, 0, 0, 0, 0, 0, 0, 0xCC]);
    expected.extend([6, 0, 0, 0, 0, 0, 0, 0, 0, 0, 0, 0]);
    assert_eq!(coa, expected);
}

#[test]
fn aggregated_certificate_takes_88_bytes_after_its_tag() {
    let agg = AggregatedCoA { batch_hash: [3; 32], aggregated_signature: vec![4; 48], signer_bitmap: 7 };
    let bytes = encode_message(&Message::AggregatedCoA(agg)).unwrap();
    assert_eq!(bytes.len(), 1 + 88);
    assert_eq!(bytes[0], 2);
    assert_eq!(&bytes[1..33], &[3u8; 32]);
    assert_eq!(&bytes[33..81], &[4u8; 48][..]);
    assert_eq!(&bytes[81..], &[7, 0, 0, 0, 0, 0, 0, 0]);
    // a signature of another length has no encoding
    for len in [0usize, 47, 49, 96] {
        let bad = AggregatedCoA { batch_hash: [3; 32], aggregated_signature: vec![4; len], signer_bitmap: 7 };
        assert!(encode_message(&Message::AggregatedCoA(bad)).is_none());
    }
}

#[test]
fn bytes_that_encode_no_message_are_refused() {
    assert!(decode_message(&[]).is_none());
    assert!(decode_message(&[4]).is_none());
    assert!(decode_message(&[0xFF, 1, 2, 3]).is_none());
    for m in samples() {
        let bytes = encode_message(&m).unwrap();
        // cut short, and with a byte too many
        for cut in 0..bytes.len() {
            assert!(decode_message(&bytes[..cut]).is_none(), "a prefix of length {}", cut);
        }
        let mut longer = bytes.clone();
        longer.push(0);
        assert!(decode_message(&longer).is_none());
    }
    // a count of signatures that the bytes cannot hold
    let mut coa = vec![1u8];
    coa.extend([0; 32]);
    coa.extend(u64::MAX.to_le_bytes());
    assert!(decode_message(&coa).is_none());
    // a signature that is longer than what is left
    let mut coa = vec![1u8];
    coa.extend([0; 32]);
    coa.extend(1u64.to_le_bytes());
    coa.extend([0, 0, 0, 0]);
    coa.extend(u64::MAX.to_le_bytes());
    assert!(decode_message(&coa).is_none());
    // a parent count that does not match the length
    let mut vertex = encode_message(&samples()[1]).unwrap();
    vertex[45] = 4;
    assert!(decode_message(&vertex).is_none());
}

#[test]
fn framed_messages_come_back_from_a_stream() {
    let mut stream = Vec::new();
    let mut sent = Vec::new();
    for m in samples() {
        let payload = encode_message(&m).unwrap();
        stream.extend(encode_frame(&payload).unwrap());
        sent.push(payload);
    }
    let mut at = 0;
    for payload in &sent {
        match decode_frame(&stream[at..]) {
            Frame::Complete(got, consumed) => {
                assert_eq!(&got, payload);
                assert_eq!(encode_frame(&got).unwrap(), &stream[at..at + consumed]);
                at += consumed;
            }
            Frame::Incomplete => panic!("a whole frame is in the stream"),
        }
    }
    assert_eq!(at, stream.len());
}
