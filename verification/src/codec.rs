//! The canonical byte encoding, layout version 1.
//!
//! Integers are little-endian. A vertex is its round (8 bytes), author (4),
//! batch hash (32), parent count (8) and the parent indices (4 each). A list
//! of signatures is, for each entry, the signer (4), the signature's length
//! (8) and the signature. A message is a tag byte and its body.

use vstd::prelude::*;
use crate::bytes::{u32_le, u64_le, push_u32_le, push_u64_le, push_bytes};
use crate::types::{
    AggregatedCoA, AggregatedCoAView, CoA, CoAView, Message, MessageView, Vertex, VertexView,
    ValidatorId, Signature, sigs_view,
};

verus! {

/// The encoding of a list of parent indices, one after the other.
pub open spec fn indices_bytes(p: Seq<u32>) -> Seq<u8>
    decreases p.len(),
{
    if p.len() == 0 {
        Seq::empty()
    } else {
        indices_bytes(p.drop_last()) + u32_le(p.last())
    }
}

/// The canonical encoding of a vertex.
pub open spec fn vertex_bytes(v: VertexView) -> Seq<u8> {
    u64_le(v.round) + u32_le(v.author) + v.batch_hash@ + u64_le(v.parent_indices.len() as u64)
        + indices_bytes(v.parent_indices)
}

/// The encoding of one (signer, signature) entry.
pub open spec fn sig_entry_bytes(e: (ValidatorId, Seq<u8>)) -> Seq<u8> {
    u32_le(e.0) + u64_le(e.1.len() as u64) + e.1
}

/// The encoding of a list of (signer, signature) entries, one after the other.
pub open spec fn sig_list_bytes(s: Seq<(ValidatorId, Seq<u8>)>) -> Seq<u8>
    decreases s.len(),
{
    if s.len() == 0 {
        Seq::empty()
    } else {
        sig_list_bytes(s.drop_last()) + sig_entry_bytes(s.last())
    }
}

/// Appends the canonical encoding of `v` to `buf`.
pub fn write_vertex(buf: &mut Vec<u8>, v: &Vertex)
    ensures
        final(buf)@ == old(buf)@ + vertex_bytes(v@),
{
    push_u64_le(buf, v.round);
    push_u32_le(buf, v.author);
    push_bytes(buf, v.batch_hash.as_slice());
    push_u64_le(buf, v.parent_indices.len() as u64);
    let ghost head = buf@;
    let mut i: usize = 0;
    while i < v.parent_indices.len()
        invariant
            i <= v.parent_indices.len(),
            buf@ == head + indices_bytes(v.parent_indices@.take(i as int)),
        decreases v.parent_indices.len() - i,
    {
        push_u32_le(buf, v.parent_indices[i]);
        proof {
            let next = v.parent_indices@.take(i + 1);
            assert(next.drop_last() =~= v.parent_indices@.take(i as int));
            assert(buf@ =~= head + indices_bytes(next));
        }
        i = i + 1;
    }
    proof {
        assert(v.parent_indices@.take(i as int) =~= v.parent_indices@);
        assert(buf@ =~= old(buf)@ + vertex_bytes(v@));
    }
}

/// The canonical encoding of a vertex.
pub fn encode_vertex(v: &Vertex) -> (out: Vec<u8>)
    ensures
        out@ == vertex_bytes(v@),
{
    let mut out: Vec<u8> = Vec::new();
    write_vertex(&mut out, v);
    assert(out@ =~= vertex_bytes(v@));
    out
}

/// Appends the encoding of a list of (signer, signature) entries to `buf`.
pub fn write_sig_list(buf: &mut Vec<u8>, s: &Vec<(ValidatorId, Signature)>)
    ensures
        final(buf)@ == old(buf)@ + sig_list_bytes(sigs_view(s@)),
{
    let ghost list = sigs_view(s@);
    let ghost head = buf@;
    let mut i: usize = 0;
    while i < s.len()
        invariant
            i <= s.len(),
            list == sigs_view(s@),
            buf@ == head + sig_list_bytes(list.take(i as int)),
        decreases s.len() - i,
    {
        push_u32_le(buf, s[i].0);
        push_u64_le(buf, s[i].1.len() as u64);
        push_bytes(buf, s[i].1.as_slice());
        proof {
            let next = list.take(i + 1);
            assert(next.drop_last() =~= list.take(i as int));
            assert(next.last() == (s@[i as int].0, s@[i as int].1@));
            assert(buf@ =~= head + sig_list_bytes(next));
        }
        i = i + 1;
    }
    proof {
        assert(list.take(i as int) =~= list);
    }
}


/// The encoding of a partial certificate: the vertex hash (32 bytes), the
/// number of signatures (8) and the signatures.
pub open spec fn coa_bytes(c: CoAView) -> Seq<u8> {
    c.batch_hash@ + u64_le(c.signatures.len() as u64) + sig_list_bytes(c.signatures)
}

/// The encoding of an aggregated certificate: the vertex hash (32 bytes),
/// the aggregated signature (48) and the signer bitmap (8).
pub open spec fn aggregated_coa_bytes(a: AggregatedCoAView) -> Seq<u8> {
    a.batch_hash@ + a.aggregated_signature + u64_le(a.signer_bitmap)
}

/// The encoding of a vote to skip an anchor: the round (8 bytes), the
/// anchor (4), the signer (4), the signature's length (8) and the
/// signature.
pub open spec fn skip_vote_bytes(round: u64, anchor: u32, signer: ValidatorId, sig: Seq<u8>) -> Seq<
    u8,
> {
    u64_le(round) + u32_le(anchor) + u32_le(signer) + u64_le(sig.len() as u64) + sig
}

/// The tag byte of each kind of message.
pub const TAG_VERTEX: u8 = 0;

pub const TAG_COA: u8 = 1;

pub const TAG_AGGREGATED_COA: u8 = 2;

pub const TAG_SKIP_VOTE: u8 = 3;

/// The length of the aggregated signature of a certificate on the wire.
pub const AGGREGATED_SIGNATURE_LEN: usize = 48;

/// The encoding of a message: its tag, then its body.
pub open spec fn message_bytes(m: MessageView) -> Seq<u8> {
    match m {
        MessageView::Vertex(v) => seq![TAG_VERTEX] + vertex_bytes(v),
        MessageView::CoA(c) => seq![TAG_COA] + coa_bytes(c),
        MessageView::AggregatedCoA(a) => seq![TAG_AGGREGATED_COA] + aggregated_coa_bytes(a),
        MessageView::SkipVote(round, anchor, signer, sig) => seq![TAG_SKIP_VOTE] + skip_vote_bytes(
            round,
            anchor,
            signer,
            sig,
        ),
    }
}

/// Whether a list of signatures has an encoding: its length and the
/// length of each signature fit in 8 bytes.
pub open spec fn sigs_encodable(s: Seq<(ValidatorId, Seq<u8>)>) -> bool {
    &&& s.len() <= u64::MAX
    &&& forall|i: int| 0 <= i < s.len() ==> (#[trigger] s[i]).1.len() <= u64::MAX
}

/// Whether a message has an encoding: every length fits in 8 bytes, and an
/// aggregated signature is 48 bytes long.
pub open spec fn encodable(m: MessageView) -> bool {
    match m {
        MessageView::Vertex(v) => v.parent_indices.len() <= u64::MAX,
        MessageView::CoA(c) => sigs_encodable(c.signatures),
        MessageView::AggregatedCoA(a) => a.aggregated_signature.len() == AGGREGATED_SIGNATURE_LEN,
        MessageView::SkipVote(_, _, _, sig) => sig.len() <= u64::MAX,
    }
}

/// Encodes a message; `None` where it has no encoding, which is where an
/// aggregated signature is not 48 bytes long.
pub fn encode_message(m: &Message) -> (r: Option<Vec<u8>>)
    ensures
        r is Some <==> encodable(m@),
        r is Some ==> r.unwrap()@ == message_bytes(m@),
{
    let mut out: Vec<u8> = Vec::new();
    match m {
        Message::Vertex(v) => {
            out.push(TAG_VERTEX);
            write_vertex(&mut out, v);
            assert(out@ =~= message_bytes(m@));
            assert(v.parent_indices@.len() == v.parent_indices.len());
            assert(encodable(m@));
        },
        Message::CoA(c) => {
            out.push(TAG_COA);
            push_bytes(&mut out, c.batch_hash.as_slice());
            push_u64_le(&mut out, c.signatures.len() as u64);
            write_sig_list(&mut out, &c.signatures);
            assert(out@ =~= message_bytes(m@));
            assert forall|i: int| 0 <= i < c@.signatures.len() implies (
            #[trigger] c@.signatures[i]).1.len() <= u64::MAX by {
                assert(c@.signatures[i].1 == c.signatures@[i].1@);
                assert(c.signatures@[i].1@.len() == c.signatures@[i].1.len());
            }
            assert(c.signatures@.len() == c.signatures.len());
            assert(encodable(m@));
        },
        Message::AggregatedCoA(a) => {
            if a.aggregated_signature.len() != AGGREGATED_SIGNATURE_LEN {
                return None;
            }
            out.push(TAG_AGGREGATED_COA);
            push_bytes(&mut out, a.batch_hash.as_slice());
            push_bytes(&mut out, a.aggregated_signature.as_slice());
            push_u64_le(&mut out, a.signer_bitmap);
            assert(out@ =~= message_bytes(m@));
            assert(encodable(m@));
        },
        Message::SkipVote(round, anchor, signer, sig) => {
            out.push(TAG_SKIP_VOTE);
            push_u64_le(&mut out, *round);
            push_u32_le(&mut out, *anchor);
            push_u32_le(&mut out, *signer);
            push_u64_le(&mut out, sig.len() as u64);
            push_bytes(&mut out, sig.as_slice());
            assert(out@ =~= message_bytes(m@));
            assert(sig@.len() == sig.len());
            assert(encodable(m@));
        },
    }
    Some(out)
}

} // verus!
