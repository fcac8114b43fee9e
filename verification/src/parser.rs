//! Decoding of the canonical byte encoding, and the laws that tie it to
//! the encoding: what is decoded encodes to the bytes it came from, and
//! every message that has an encoding is decoded from its encoding.

use vstd::prelude::*;
use crate::bytes::{
    u32_le, u64_le, le_value, read_u32_le, read_u64_le, lemma_le_bytes_len,
    lemma_le_bytes_of_value, lemma_le_value_of_bytes, lemma_le_value_bound, lemma_pow256_values,
    lemma_u32_le_injective, lemma_u64_le_injective,
};
use crate::codec::{
    indices_bytes, vertex_bytes, sig_entry_bytes, sig_list_bytes, coa_bytes,
    aggregated_coa_bytes, skip_vote_bytes, message_bytes, sigs_encodable, encodable, TAG_VERTEX,
    TAG_COA, TAG_AGGREGATED_COA, TAG_SKIP_VOTE, AGGREGATED_SIGNATURE_LEN,
};
use crate::types::{
    AggregatedCoA, AggregatedCoAView, CoA, CoAView, Digest, Message, MessageView, Vertex,
    VertexView, ValidatorId, Signature, sigs_view,
};

verus! {

/// The encoding of `n` parent indices takes 4 `n` bytes, and the index at
/// position `k` stands at 4 `k`.
pub proof fn lemma_indices_bytes(p: Seq<u32>)
    ensures
        indices_bytes(p).len() == 4 * p.len(),
        forall|k: int|
            0 <= k < p.len() ==> #[trigger] indices_bytes(p).subrange(4 * k, 4 * k + 4) == u32_le(
                p[k],
            ),
    decreases p.len(),
{
    if p.len() > 0 {
        let head = p.drop_last();
        lemma_indices_bytes(head);
        lemma_le_bytes_len(p.last() as nat, 4);
        let all = indices_bytes(p);
        assert forall|k: int| 0 <= k < p.len() implies #[trigger] all.subrange(4 * k, 4 * k + 4)
            == u32_le(p[k]) by {
            if k < head.len() {
                assert(all.subrange(4 * k, 4 * k + 4) =~= indices_bytes(head).subrange(
                    4 * k,
                    4 * k + 4,
                ));
                assert(head[k] == p[k]);
            } else {
                assert(all.subrange(4 * k, 4 * k + 4) =~= u32_le(p.last()));
            }
        }
    }
}

/// The encoding of a list of signatures that starts with `e` is the
/// encoding of `e` followed by that of the rest.
pub proof fn lemma_sig_list_front(e: (ValidatorId, Seq<u8>), rest: Seq<(ValidatorId, Seq<u8>)>)
    ensures
        sig_list_bytes(seq![e] + rest) == sig_entry_bytes(e) + sig_list_bytes(rest),
    decreases rest.len(),
{
    let all = seq![e] + rest;
    if rest.len() == 0 {
        assert(all.drop_last() =~= rest);
        assert(all.last() == e);
        assert(sig_list_bytes(rest) =~= Seq::<u8>::empty());
        assert(sig_list_bytes(all) =~= sig_entry_bytes(e) + sig_list_bytes(rest));
    } else {
        lemma_sig_list_front(e, rest.drop_last());
        assert(all.drop_last() =~= seq![e] + rest.drop_last());
        assert(all.last() == rest.last());
        assert(sig_list_bytes(all) =~= sig_entry_bytes(e) + sig_list_bytes(rest));
    }
}

/// The list of `count` signatures that `d` is the encoding of, where it is
/// one.
pub open spec fn parse_sigs(d: Seq<u8>, count: nat) -> Option<Seq<(ValidatorId, Seq<u8>)>>
    decreases count,
{
    if count == 0 {
        if d.len() == 0 {
            Some(Seq::empty())
        } else {
            None
        }
    } else if d.len() < 12 {
        None
    } else {
        let signer = le_value(d.subrange(0, 4)) as u32;
        let len = le_value(d.subrange(4, 12)) as int;
        if d.len() < 12 + len {
            None
        } else {
            match parse_sigs(d.skip(12 + len), (count - 1) as nat) {
                Some(rest) => Some(seq![(signer, d.subrange(12, 12 + len))] + rest),
                None => None,
            }
        }
    }
}

/// An encoded entry gives back its signer and the length of its signature.
pub proof fn lemma_entry_shape(e: (ValidatorId, Seq<u8>), rest: Seq<u8>)
    requires
        e.1.len() <= u64::MAX,
    ensures
        ({
            let d = sig_entry_bytes(e) + rest;
            &&& d.len() == 12 + e.1.len() + rest.len()
            &&& le_value(d.subrange(0, 4)) == e.0
            &&& le_value(d.subrange(4, 12)) == e.1.len()
            &&& d.subrange(12, 12 + e.1.len() as int) == e.1
            &&& d.skip(12 + e.1.len() as int) == rest
        }),
{
    let d = sig_entry_bytes(e) + rest;
    lemma_le_bytes_len(e.0 as nat, 4);
    lemma_le_bytes_len(e.1.len() as u64 as nat, 8);
    lemma_pow256_values();
    lemma_le_value_of_bytes(e.0 as nat, 4);
    lemma_le_value_of_bytes(e.1.len() as nat, 8);
    assert(d.subrange(0, 4) =~= u32_le(e.0));
    assert(d.subrange(4, 12) =~= u64_le(e.1.len() as u64));
    assert(d.subrange(12, 12 + e.1.len() as int) =~= e.1);
    assert(d.skip(12 + e.1.len() as int) =~= rest);
}

/// A list of signatures that has an encoding is parsed from its encoding.
pub proof fn lemma_parse_encoded_sigs(s: Seq<(ValidatorId, Seq<u8>)>)
    requires
        sigs_encodable(s),
    ensures
        parse_sigs(sig_list_bytes(s), s.len()) == Some(s),
    decreases s.len(),
{
    if s.len() > 0 {
        let e = s[0];
        let rest = s.drop_first();
        assert(s =~= seq![e] + rest);
        lemma_sig_list_front(e, rest);
        assert forall|i: int| 0 <= i < rest.len() implies (#[trigger] rest[i]).1.len()
            <= u64::MAX by {
            assert(rest[i] == s[i + 1]);
        }
        lemma_parse_encoded_sigs(rest);
        lemma_entry_shape(e, sig_list_bytes(rest));
    }
}

/// What is parsed as a list of signatures has `d` as its encoding.
pub proof fn lemma_parsed_sigs_encode(d: Seq<u8>, count: nat)
    requires
        parse_sigs(d, count) is Some,
    ensures
        parse_sigs(d, count).unwrap().len() == count,
        forall|i: int|
            0 <= i < count ==> (#[trigger] parse_sigs(d, count).unwrap()[i]).1.len() <= d.len(),
        sig_list_bytes(parse_sigs(d, count).unwrap()) == d,
    decreases count,
{
    if count == 0 {
        assert(d =~= Seq::<u8>::empty());
    } else {
        let signer = le_value(d.subrange(0, 4)) as u32;
        let len = le_value(d.subrange(4, 12)) as int;
        let tail = d.skip(12 + len);
        lemma_parsed_sigs_encode(tail, (count - 1) as nat);
        let rest = parse_sigs(tail, (count - 1) as nat).unwrap();
        let e = (signer, d.subrange(12, 12 + len));
        let all = seq![e] + rest;
        assert(parse_sigs(d, count).unwrap() == all);
        lemma_sig_list_front(e, rest);
        lemma_le_value_bound(d.subrange(0, 4));
        lemma_le_value_bound(d.subrange(4, 12));
        lemma_pow256_values();
        lemma_le_bytes_of_value(d.subrange(0, 4));
        lemma_le_bytes_of_value(d.subrange(4, 12));
        assert(sig_entry_bytes(e) =~= d.subrange(0, 12 + len));
        assert(d =~= d.subrange(0, 12 + len) + tail);
        assert forall|i: int| 0 <= i < count implies (#[trigger] all[i]).1.len() <= d.len() by {
            if i > 0 {
                assert(all[i] == rest[i - 1]);
            }
        }
    }
}


/// Where the fields of an encoded vertex stand.
pub proof fn lemma_vertex_shape(v: VertexView)
    requires
        v.parent_indices.len() <= u64::MAX,
    ensures
        ({
            let b = vertex_bytes(v);
            &&& b.len() == 52 + 4 * v.parent_indices.len()
            &&& b.subrange(0, 8) == u64_le(v.round)
            &&& b.subrange(8, 12) == u32_le(v.author)
            &&& b.subrange(12, 44) == v.batch_hash@
            &&& b.subrange(44, 52) == u64_le(v.parent_indices.len() as u64)
            &&& b.skip(52) == indices_bytes(v.parent_indices)
        }),
{
    let b = vertex_bytes(v);
    lemma_le_bytes_len(v.round as nat, 8);
    lemma_le_bytes_len(v.author as nat, 4);
    lemma_le_bytes_len(v.parent_indices.len() as u64 as nat, 8);
    lemma_indices_bytes(v.parent_indices);
    assert(b.subrange(0, 8) =~= u64_le(v.round));
    assert(b.subrange(8, 12) =~= u32_le(v.author));
    assert(b.subrange(12, 44) =~= v.batch_hash@);
    assert(b.subrange(44, 52) =~= u64_le(v.parent_indices.len() as u64));
    assert(b.skip(52) =~= indices_bytes(v.parent_indices));
}

/// Where the fields of an encoded partial certificate stand.
pub proof fn lemma_coa_shape(c: CoAView)
    ensures
        ({
            let b = coa_bytes(c);
            &&& b.len() >= 40
            &&& b.subrange(0, 32) == c.batch_hash@
            &&& b.subrange(32, 40) == u64_le(c.signatures.len() as u64)
            &&& b.skip(40) == sig_list_bytes(c.signatures)
        }),
{
    let b = coa_bytes(c);
    lemma_le_bytes_len(c.signatures.len() as u64 as nat, 8);
    assert(b.subrange(0, 32) =~= c.batch_hash@);
    assert(b.subrange(32, 40) =~= u64_le(c.signatures.len() as u64));
    assert(b.skip(40) =~= sig_list_bytes(c.signatures));
}

/// Where the fields of an encoded aggregated certificate stand.
pub proof fn lemma_aggregated_shape(a: AggregatedCoAView)
    requires
        a.aggregated_signature.len() == AGGREGATED_SIGNATURE_LEN,
    ensures
        ({
            let b = aggregated_coa_bytes(a);
            &&& b.len() == 88
            &&& b.subrange(0, 32) == a.batch_hash@
            &&& b.subrange(32, 80) == a.aggregated_signature
            &&& b.subrange(80, 88) == u64_le(a.signer_bitmap)
        }),
{
    let b = aggregated_coa_bytes(a);
    lemma_le_bytes_len(a.signer_bitmap as nat, 8);
    assert(b.subrange(0, 32) =~= a.batch_hash@);
    assert(b.subrange(32, 80) =~= a.aggregated_signature);
    assert(b.subrange(80, 88) =~= u64_le(a.signer_bitmap));
}

/// Where the fields of an encoded skip vote stand.
pub proof fn lemma_skip_vote_shape(round: u64, anchor: u32, signer: ValidatorId, sig: Seq<u8>)
    ensures
        ({
            let b = skip_vote_bytes(round, anchor, signer, sig);
            &&& b.len() == 24 + sig.len()
            &&& b.subrange(0, 8) == u64_le(round)
            &&& b.subrange(8, 12) == u32_le(anchor)
            &&& b.subrange(12, 16) == u32_le(signer)
            &&& b.subrange(16, 24) == u64_le(sig.len() as u64)
            &&& b.skip(24) == sig
        }),
{
    let b = skip_vote_bytes(round, anchor, signer, sig);
    lemma_le_bytes_len(round as nat, 8);
    lemma_le_bytes_len(anchor as nat, 4);
    lemma_le_bytes_len(signer as nat, 4);
    lemma_le_bytes_len(sig.len() as u64 as nat, 8);
    assert(b.subrange(0, 8) =~= u64_le(round));
    assert(b.subrange(8, 12) =~= u32_le(anchor));
    assert(b.subrange(12, 16) =~= u32_le(signer));
    assert(b.subrange(16, 24) =~= u64_le(sig.len() as u64));
    assert(b.skip(24) =~= sig);
}

/// Two lists of parent indices with the same encoding are the same list.
pub proof fn lemma_indices_injective(a: Seq<u32>, b: Seq<u32>)
    requires
        indices_bytes(a) == indices_bytes(b),
    ensures
        a == b,
{
    lemma_indices_bytes(a);
    lemma_indices_bytes(b);
    assert forall|k: int| 0 <= k < a.len() implies a[k] == b[k] by {
        assert(indices_bytes(a).subrange(4 * k, 4 * k + 4) == u32_le(a[k]));
        assert(indices_bytes(b).subrange(4 * k, 4 * k + 4) == u32_le(b[k]));
        lemma_u32_le_injective(a[k], b[k]);
    }
    assert(a =~= b);
}

/// Two messages that have the same encoding are the same message.
pub proof fn lemma_message_bytes_injective(a: MessageView, b: MessageView)
    requires
        encodable(a),
        encodable(b),
        message_bytes(a) == message_bytes(b),
    ensures
        a == b,
{
    let d = message_bytes(a);
    assert(message_bytes(a)[0] == message_bytes(b)[0]);
    match (a, b) {
        (MessageView::Vertex(x), MessageView::Vertex(y)) => {
            assert(vertex_bytes(x) =~= d.skip(1));
            assert(vertex_bytes(y) =~= d.skip(1));
            lemma_vertex_shape(x);
            lemma_vertex_shape(y);
            lemma_u64_le_injective(x.round, y.round);
            lemma_u32_le_injective(x.author, y.author);
            assert(x.batch_hash =~= y.batch_hash);
            lemma_indices_injective(x.parent_indices, y.parent_indices);
        },
        (MessageView::CoA(x), MessageView::CoA(y)) => {
            assert(coa_bytes(x) =~= d.skip(1));
            assert(coa_bytes(y) =~= d.skip(1));
            lemma_coa_shape(x);
            lemma_coa_shape(y);
            assert(x.batch_hash =~= y.batch_hash);
            lemma_u64_le_injective(x.signatures.len() as u64, y.signatures.len() as u64);
            lemma_parse_encoded_sigs(x.signatures);
            lemma_parse_encoded_sigs(y.signatures);
        },
        (MessageView::AggregatedCoA(x), MessageView::AggregatedCoA(y)) => {
            assert(aggregated_coa_bytes(x) =~= d.skip(1));
            assert(aggregated_coa_bytes(y) =~= d.skip(1));
            lemma_aggregated_shape(x);
            lemma_aggregated_shape(y);
            assert(x.batch_hash =~= y.batch_hash);
            lemma_u64_le_injective(x.signer_bitmap, y.signer_bitmap);
        },
        (
            MessageView::SkipVote(round_a, anchor_a, signer_a, sig_a),
            MessageView::SkipVote(round_b, anchor_b, signer_b, sig_b),
        ) => {
            assert(skip_vote_bytes(round_a, anchor_a, signer_a, sig_a) =~= d.skip(1));
            assert(skip_vote_bytes(round_b, anchor_b, signer_b, sig_b) =~= d.skip(1));
            lemma_skip_vote_shape(round_a, anchor_a, signer_a, sig_a);
            lemma_skip_vote_shape(round_b, anchor_b, signer_b, sig_b);
            lemma_u64_le_injective(round_a, round_b);
            lemma_u32_le_injective(anchor_a, anchor_b);
            lemma_u32_le_injective(signer_a, signer_b);
        },
        _ => {},
    }
}

/// Reads 32 bytes at offset `at` as a hash.
pub fn read_digest(data: &[u8], at: usize) -> (h: Digest)
    requires
        at + 32 <= data@.len(),
    ensures
        h@ == data@.subrange(at as int, at + 32),
{
    let mut h: Digest = [0u8; 32];
    let mut i: usize = 0;
    while i < 32
        invariant
            i <= 32,
            at + 32 <= data.len(),
            forall|k: int| 0 <= k < i ==> h@[k] == data@[at + k],
        decreases 32 - i,
    {
        h[i] = data[at + i];
        i = i + 1;
    }
    assert(h@ =~= data@.subrange(at as int, at + 32));
    h
}

/// Copies `len` bytes at offset `at`.
pub fn read_bytes(data: &[u8], at: usize, len: usize) -> (out: Vec<u8>)
    requires
        at + len <= data@.len(),
    ensures
        out@ == data@.subrange(at as int, at + len),
{
    let mut out: Vec<u8> = Vec::new();
    let mut i: usize = 0;
    while i < len
        invariant
            i <= len,
            at + len <= data.len(),
            out@ == data@.subrange(at as int, at + i),
        decreases len - i,
    {
        out.push(data[at + i]);
        assert(data@.subrange(at as int, at + i + 1) =~= data@.subrange(at as int, at + i).push(
            data@[at + i],
        ));
        i = i + 1;
    }
    out
}

/// Decodes the list of `count` signatures that takes up the bytes from
/// offset `at` to the end.
pub fn decode_sigs(data: &[u8], at: usize, count: u64) -> (r: Option<Vec<(ValidatorId, Signature)>>)
    requires
        at <= data@.len(),
    ensures
        match r {
            Some(list) => parse_sigs(data@.skip(at as int), count as nat) == Some(sigs_view(list@)),
            None => parse_sigs(data@.skip(at as int), count as nat) is None,
        },
{
    let ghost region = data@.skip(at as int);
    let mut done: Vec<(ValidatorId, Signature)> = Vec::new();
    let mut pos: usize = at;
    let mut k: u64 = 0;
    proof {
        assert(sigs_view(done@) =~= Seq::empty());
        match parse_sigs(region, count as nat) {
            Some(rest) => {
                assert(sigs_view(done@) + rest =~= rest);
            },
            None => {},
        }
    }
    while k < count
        invariant
            at <= pos <= data@.len(),
            k <= count,
            region == data@.skip(at as int),
            parse_sigs(region, count as nat) == match parse_sigs(
                data@.skip(pos as int),
                (count - k) as nat,
            ) {
                Some(rest) => Some(sigs_view(done@) + rest),
                None => None,
            },
        decreases count - k,
    {
        let ghost remaining = data@.skip(pos as int);
        if data.len() - pos < 12 {
            return None;
        }
        let signer: u32 = read_u32_le(data, pos);
        let len64: u64 = read_u64_le(data, pos + 4);
        proof {
            assert(remaining.subrange(0, 4) =~= data@.subrange(pos as int, pos + 4));
            assert(remaining.subrange(4, 12) =~= data@.subrange(pos + 4, pos + 4 + 8));
        }
        if len64 > (data.len() - pos - 12) as u64 {
            return None;
        }
        let len: usize = len64 as usize;
        let sig: Vec<u8> = read_bytes(data, pos + 12, len);
        let ghost before = sigs_view(done@);
        let ghost e = (signer, sig@);
        done.push((signer, sig));
        proof {
            assert(remaining.subrange(12, 12 + len) =~= data@.subrange(pos + 12, pos + 12 + len));
            assert(remaining.skip(12 + len) =~= data@.skip(pos + 12 + len));
            assert(sigs_view(done@) =~= before.push(e));
            match parse_sigs(data@.skip(pos + 12 + len), (count - k - 1) as nat) {
                Some(rest) => {
                    assert(before + (seq![e] + rest) =~= before.push(e) + rest);
                },
                None => {},
            }
        }
        pos = pos + 12 + len;
        k = k + 1;
    }
    if pos != data.len() {
        return None;
    }
    proof {
        assert(data@.skip(pos as int) =~= Seq::<u8>::empty());
        assert(sigs_view(done@) + Seq::<(ValidatorId, Seq<u8>)>::empty() =~= sigs_view(done@));
    }
    Some(done)
}


/// Decodes the vertex whose encoding takes up the bytes from offset 1 to
/// the end.
fn decode_vertex(data: &[u8]) -> (r: Option<Vertex>)
    requires
        data@.len() >= 1,
    ensures
        match r {
            Some(v) => vertex_bytes(v@) == data@.skip(1),
            None => forall|v: VertexView|
                v.parent_indices.len() <= u64::MAX ==> #[trigger] vertex_bytes(v) != data@.skip(1),
        },
{
    let ghost body = data@.skip(1);
    if data.len() < 53 {
        proof {
            assert forall|v: VertexView| v.parent_indices.len() <= u64::MAX implies #[trigger] vertex_bytes(
                v,
            ) != body by {
                lemma_vertex_shape(v);
            }
        }
        return None;
    }
    let round: u64 = read_u64_le(data, 1);
    let author: u32 = read_u32_le(data, 9);
    let batch_hash: Digest = read_digest(data, 13);
    let count: u64 = read_u64_le(data, 45);
    let rest: usize = data.len() - 53;
    proof {
        assert(body.subrange(0, 8) =~= data@.subrange(1, 9));
        assert(body.subrange(8, 12) =~= data@.subrange(9, 13));
        assert(body.subrange(12, 44) =~= data@.subrange(13, 45));
        assert(body.subrange(44, 52) =~= data@.subrange(45, 53));
    }
    if rest % 4 != 0 || (rest / 4) as u64 != count {
        proof {
            assert forall|v: VertexView| v.parent_indices.len() <= u64::MAX implies #[trigger] vertex_bytes(
                v,
            ) != body by {
                lemma_vertex_shape(v);
                if vertex_bytes(v) == body {
                    lemma_u64_le_injective(v.parent_indices.len() as u64, count);
                }
            }
        }
        return None;
    }
    let mut parents: Vec<u32> = Vec::new();
    let mut k: usize = 0;
    let n: usize = rest / 4;
    while k < n
        invariant
            k <= n,
            data.len() == 53 + 4 * n,
            body == data@.skip(1),
            parents@.len() == k,
            indices_bytes(parents@) == body.subrange(52, 52 + 4 * k),
        decreases n - k,
    {
        let idx: u32 = read_u32_le(data, 53 + 4 * k);
        let ghost before = parents@;
        parents.push(idx);
        proof {
            assert(parents@.drop_last() =~= before);
            assert(data@.subrange(53 + 4 * k, 53 + 4 * k + 4) =~= body.subrange(
                52 + 4 * k,
                52 + 4 * k + 4,
            ));
            assert(body.subrange(52, 52 + 4 * (k + 1)) =~= body.subrange(52, 52 + 4 * k)
                + body.subrange(52 + 4 * k, 52 + 4 * k + 4));
        }
        k = k + 1;
    }
    let v = Vertex { round, author, batch_hash, parent_indices: parents };
    proof {
        lemma_le_bytes_len(round as nat, 8);
        lemma_le_bytes_len(author as nat, 4);
        lemma_le_bytes_len(count as nat, 8);
        assert(body.subrange(52, 52 + 4 * n) =~= body.skip(52));
        assert(body =~= body.subrange(0, 8) + body.subrange(8, 12) + body.subrange(12, 44)
            + body.subrange(44, 52) + body.skip(52));
        assert(vertex_bytes(v@) =~= body);
    }
    Some(v)
}

/// Decodes a message. What is decoded encodes to the same bytes again;
/// `None` exactly where the bytes are the encoding of no message.
pub fn decode_message(data: &[u8]) -> (r: Option<Message>)
    ensures
        match r {
            Some(m) => encodable(m@) && message_bytes(m@) == data@,
            None => forall|m: MessageView| encodable(m) ==> #[trigger] message_bytes(m) != data@,
        },
{
    if data.len() == 0 {
        return None;
    }
    let tag: u8 = data[0];
    let ghost body = data@.skip(1);
    proof {
        assert forall|m: MessageView| #[trigger] message_bytes(m) == data@ implies match m {
            MessageView::Vertex(v) => tag == TAG_VERTEX && vertex_bytes(v) == body,
            MessageView::CoA(c) => tag == TAG_COA && coa_bytes(c) == body,
            MessageView::AggregatedCoA(a) => tag == TAG_AGGREGATED_COA && aggregated_coa_bytes(a)
                == body,
            MessageView::SkipVote(round, anchor, signer, sig) => tag == TAG_SKIP_VOTE
                && skip_vote_bytes(round, anchor, signer, sig) == body,
        } by {
            assert(message_bytes(m)[0] == data@[0]);
            match m {
                MessageView::Vertex(v) => {
                    assert(vertex_bytes(v) =~= message_bytes(m).skip(1));
                },
                MessageView::CoA(c) => {
                    assert(coa_bytes(c) =~= message_bytes(m).skip(1));
                },
                MessageView::AggregatedCoA(a) => {
                    assert(aggregated_coa_bytes(a) =~= message_bytes(m).skip(1));
                },
                MessageView::SkipVote(round, anchor, signer, sig) => {
                    assert(skip_vote_bytes(round, anchor, signer, sig) =~= message_bytes(m).skip(
                        1,
                    ));
                },
            }
        }
        assert(data@ =~= seq![tag] + body);
    }
    if tag == TAG_VERTEX {
        match decode_vertex(data) {
            Some(v) => {
                assert(v.parent_indices@.len() == v.parent_indices.len());
                Some(Message::Vertex(v))
            },
            None => None,
        }
    } else if tag == TAG_COA {
        if data.len() < 41 {
            proof {
                assert forall|m: MessageView| encodable(m) implies #[trigger] message_bytes(m)
                    != data@ by {
                    if let MessageView::CoA(c) = m {
                        lemma_coa_shape(c);
                    }
                }
            }
            return None;
        }
        let batch_hash: Digest = read_digest(data, 1);
        let count: u64 = read_u64_le(data, 33);
        proof {
            assert(body.subrange(0, 32) =~= data@.subrange(1, 33));
            assert(body.subrange(32, 40) =~= data@.subrange(33, 41));
            assert(body.skip(40) =~= data@.skip(41));
            assert forall|m: MessageView| encodable(m) && #[trigger] message_bytes(m)
                == data@ implies parse_sigs(data@.skip(41), count as nat) is Some by {
                if let MessageView::CoA(c) = m {
                    lemma_coa_shape(c);
                    lemma_u64_le_injective(c.signatures.len() as u64, count);
                    lemma_parse_encoded_sigs(c.signatures);
                }
            }
        }
        match decode_sigs(data, 41, count) {
            Some(signatures) => {
                let coa = CoA { batch_hash, signatures };
                proof {
                    lemma_parsed_sigs_encode(data@.skip(41), count as nat);
                    lemma_le_bytes_len(count as nat, 8);
                    assert(body =~= body.subrange(0, 32) + body.subrange(32, 40) + body.skip(40));
                    assert(coa_bytes(coa@) =~= body);
                    assert forall|i: int| 0 <= i < coa@.signatures.len() implies (
                    #[trigger] coa@.signatures[i]).1.len() <= u64::MAX by {
                        assert(coa@.signatures[i].1.len() <= data@.skip(41).len());
                    }
                }
                Some(Message::CoA(coa))
            },
            None => None,
        }
    } else if tag == TAG_AGGREGATED_COA {
        if data.len() != 89 {
            proof {
                assert forall|m: MessageView| encodable(m) implies #[trigger] message_bytes(m)
                    != data@ by {
                    if let MessageView::AggregatedCoA(a) = m {
                        lemma_aggregated_shape(a);
                    }
                }
            }
            return None;
        }
        let batch_hash: Digest = read_digest(data, 1);
        let aggregated_signature: Vec<u8> = read_bytes(data, 33, 48);
        let signer_bitmap: u64 = read_u64_le(data, 81);
        let agg = AggregatedCoA { batch_hash, aggregated_signature, signer_bitmap };
        proof {
            lemma_le_bytes_len(signer_bitmap as nat, 8);
            assert(aggregated_coa_bytes(agg@) =~= body);
        }
        Some(Message::AggregatedCoA(agg))
    } else if tag == TAG_SKIP_VOTE {
        if data.len() < 25 {
            proof {
                assert forall|m: MessageView| encodable(m) implies #[trigger] message_bytes(m)
                    != data@ by {
                    if let MessageView::SkipVote(round, anchor, signer, sig) = m {
                        lemma_skip_vote_shape(round, anchor, signer, sig);
                    }
                }
            }
            return None;
        }
        let round: u64 = read_u64_le(data, 1);
        let anchor: u32 = read_u32_le(data, 9);
        let signer: u32 = read_u32_le(data, 13);
        let len64: u64 = read_u64_le(data, 17);
        proof {
            assert(body.subrange(16, 24) =~= data@.subrange(17, 25));
        }
        if (data.len() - 25) as u64 != len64 {
            proof {
                assert forall|m: MessageView| encodable(m) implies #[trigger] message_bytes(m)
                    != data@ by {
                    if let MessageView::SkipVote(r, a, s, sig) = m {
                        lemma_skip_vote_shape(r, a, s, sig);
                        if message_bytes(m) == data@ {
                            lemma_u64_le_injective(sig.len() as u64, len64);
                        }
                    }
                }
            }
            return None;
        }
        let sig: Vec<u8> = read_bytes(data, 25, data.len() - 25);
        proof {
            lemma_le_bytes_len(round as nat, 8);
            lemma_le_bytes_len(anchor as nat, 4);
            lemma_le_bytes_len(signer as nat, 4);
            lemma_le_bytes_len(len64 as nat, 8);
            assert(skip_vote_bytes(round, anchor, signer, sig@) =~= body);
        }
        Some(Message::SkipVote(round, anchor, signer, sig))
    } else {
        None
    }
}

/// Decoding the encoding of a message gives the message back: whatever
/// meets the contract of `decode_message` on the encoding of `m` is `m`.
pub proof fn lemma_decode_inverts_encode(m: MessageView, decoded: Option<MessageView>)
    requires
        encodable(m),
        decoded is Some ==> encodable(decoded.unwrap()) && message_bytes(decoded.unwrap())
            == message_bytes(m),
        decoded is None ==> forall|y: MessageView|
            encodable(y) ==> #[trigger] message_bytes(y) != message_bytes(m),
    ensures
        decoded == Some(m),
{
    if decoded is Some {
        lemma_message_bytes_injective(decoded.unwrap(), m);
    } else {
        let bytes = message_bytes(m);
        assert(encodable(m) ==> message_bytes(m) != bytes);
    }
}

} // verus!
