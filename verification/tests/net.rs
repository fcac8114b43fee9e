use sublinear_bft_scifest::net::{
    count_up, decode_frame, encode_frame, frame_length, message_to_event, Frame, NetMetrics,
};
use sublinear_bft_scifest::types::{AggregatedCoA, CoA, Event, Message, Vertex};

#[test]
fn frame_is_length_prefixed() {
    assert_eq!(encode_frame(b"abc"), Some(vec![3, 0, 0, 0, b'a', b'b', b'c']));
    assert_eq!(encode_frame(b""), Some(vec![0, 0, 0, 0]));
    let long = vec![7u8; 0x0102];
    let framed = encode_frame(&long).unwrap();
    assert_eq!(&framed[..4], &[0x02, 0x01, 0, 0]);
    assert_eq!(frame_length(&[0x02, 0x01, 0, 0]), 0x0102);
    assert_eq!(frame_length(&[0xFF, 0xFF, 0xFF, 0xFF]), 0xFFFF_FFFF);
}

#[test]
fn decoding_then_encoding_a_frame_gives_the_same_bytes() {
    let mut buf = encode_frame(b"first").unwrap();
    buf.extend(encode_frame(b"second!").unwrap());
    buf.extend([9, 0, 0]);
    match decode_frame(&buf) {
        Frame::Complete(payload, consumed) => {
            assert_eq!(payload, b"first");
            assert_eq!(consumed, 9);
            assert_eq!(encode_frame(&payload).unwrap(), &buf[..consumed]);
            match decode_frame(&buf[consumed..]) {
                Frame::Complete(second, used) => {
                    assert_eq!(second, b"second!");
                    assert_eq!(used, 11);
                    assert!(matches!(decode_frame(&buf[consumed + used..]), Frame::Incomplete));
                }
                Frame::Incomplete => panic!("the second frame is whole"),
            }
        }
        Frame::Incomplete => panic!("the first frame is whole"),
    }
}

#[test]
fn partial_frames_are_incomplete() {
    assert!(matches!(decode_frame(&[]), Frame::Incomplete));
    assert!(matches!(decode_frame(&[1, 0, 0]), Frame::Incomplete));
    assert!(matches!(decode_frame(&[2, 0, 0, 0, 7]), Frame::Incomplete));
    assert!(matches!(decode_frame(&[0, 0, 0, 0]), Frame::Complete(p, 4) if p.is_empty()));
}

#[test]
fn messages_become_events() {
    let v = Vertex { round: 3, author: 1, batch_hash: [2; 32], parent_indices: vec![0] };
    assert!(matches!(message_to_event(Message::Vertex(v)), Event::VertexReceived(x) if x.round == 3));
    let coa = CoA { batch_hash: [1; 32], signatures: vec![(4, vec![5])] };
    assert!(
        matches!(message_to_event(Message::CoA(coa.clone())), Event::CoAReceived(c) if c.signatures == vec![(4, vec![5])])
    );
    assert_eq!(Message::CoA(coa).coa().unwrap().batch_hash, [1; 32]);
    let agg = AggregatedCoA { batch_hash: [1; 32], aggregated_signature: vec![0; 48], signer_bitmap: 7 };
    assert!(Message::AggregatedCoA(agg.clone()).coa().is_none());
    assert!(
        matches!(message_to_event(Message::AggregatedCoA(agg)), Event::AggregatedCoAReceived(a) if a.signer_bitmap == 7)
    );
    assert!(matches!(
        message_to_event(Message::SkipVote(9, 1, 2, vec![3])),
        Event::SkipVoteReceived(9, 1, 2, s) if s == vec![3]
    ));
}

#[test]
fn counters_stay_full() {
    let mut m = NetMetrics::new();
    m.record_sent(10);
    m.record_sent(5);
    m.record_received(7, 100);
    assert_eq!(m.bytes_sent, 15);
    assert_eq!(m.bytes_recv, 7);
    assert_eq!(m.deser_micros, 100);
    assert_eq!(m.ser_micros, 0);
    assert_eq!(count_up(u64::MAX - 1, 1), u64::MAX);
    assert_eq!(count_up(u64::MAX - 1, 2), u64::MAX);
    m.bytes_recv = u64::MAX - 3;
    m.record_received(10, 0);
    assert_eq!(m.bytes_recv, u64::MAX);
}
