//! The network boundary: length-prefixed frames, what a received message
//! means to the state machine, and the traffic counters.

use vstd::prelude::*;
use crate::bytes::{u32_le, push_u32_le, push_bytes, read_u32_le};
use crate::types::{Event, Message};

verus! {

/// The bytes of a frame: the length of the payload as 4 little-endian
/// bytes, then the payload.
pub open spec fn frame_bytes(payload: Seq<u8>) -> Seq<u8>
    recommends
        payload.len() <= u32::MAX,
{
    u32_le(payload.len() as u32) + payload
}

/// Frames a payload; `None` where it is too long for the length prefix.
pub fn encode_frame(payload: &[u8]) -> (r: Option<Vec<u8>>)
    ensures
        r is Some <==> payload@.len() <= u32::MAX,
        r is Some ==> r.unwrap()@ == frame_bytes(payload@),
{
    if payload.len() > u32::MAX as usize {
        return None;
    }
    let mut out: Vec<u8> = Vec::new();
    push_u32_le(&mut out, payload.len() as u32);
    push_bytes(&mut out, payload);
    assert(out@ =~= frame_bytes(payload@));
    Some(out)
}

/// The length of the payload that a frame header announces.
pub fn frame_length(header: &[u8; 4]) -> (len: usize)
    ensures
        u32_le(len as u32) == header@,
        len <= u32::MAX,
{
    let n: u32 = read_u32_le(header.as_slice(), 0);
    assert(header@.subrange(0, 4) =~= header@);
    n as usize
}

/// What the start of a receive buffer holds.
pub enum Frame {
    /// Not yet a whole frame.
    Incomplete,
    /// A frame with the given payload, which takes up the given number of
    /// bytes of the buffer.
    Complete(Vec<u8>, usize),
}

/// Takes the first frame off a receive buffer. Framing the payload again
/// gives the bytes that were taken.
pub fn decode_frame(buf: &[u8]) -> (r: Frame)
    ensures
        match r {
            Frame::Complete(payload, consumed) => {
                &&& consumed <= buf@.len()
                &&& payload@.len() <= u32::MAX
                &&& consumed == 4 + payload@.len()
                &&& frame_bytes(payload@) == buf@.take(consumed as int)
            },
            Frame::Incomplete => forall|payload: Seq<u8>|
                payload.len() <= u32::MAX && 4 + payload.len() <= buf@.len() ==> #[trigger] frame_bytes(
                    payload,
                ) != buf@.take(4 + payload.len() as int),
        },
{
    if buf.len() < 4 {
        return Frame::Incomplete;
    }
    let n: u32 = read_u32_le(buf, 0);
    let len: usize = n as usize;
    if buf.len() - 4 < len {
        proof {
            assert forall|payload: Seq<u8>|
                payload.len() <= u32::MAX && 4 + payload.len() <= buf@.len() implies #[trigger] frame_bytes(
                payload,
            ) != buf@.take(4 + payload.len() as int) by {
                if frame_bytes(payload) == buf@.take(4 + payload.len() as int) {
                    crate::bytes::lemma_le_bytes_len(payload.len() as u32 as nat, 4);
                    assert(frame_bytes(payload).subrange(0, 4) =~= u32_le(payload.len() as u32));
                    assert(buf@.take(4 + payload.len() as int).subrange(0, 4) =~= buf@.subrange(0, 4));
                    crate::bytes::lemma_u32_le_injective(payload.len() as u32, n);
                }
            }
        }
        return Frame::Incomplete;
    }
    let mut payload: Vec<u8> = Vec::new();
    let mut i: usize = 0;
    while i < len
        invariant
            i <= len,
            4 + len <= buf.len(),
            payload@ == buf@.subrange(4, 4 + i),
        decreases len - i,
    {
        payload.push(buf[4 + i]);
        assert(buf@.subrange(4, 4 + i + 1) =~= buf@.subrange(4, 4 + i).push(buf@[4 + i]));
        i = i + 1;
    }
    proof {
        crate::bytes::lemma_le_bytes_len(n as nat, 4);
        assert(frame_bytes(payload@) =~= buf@.take(4 + len));
    }
    Frame::Complete(payload, 4 + len)
}

/// The event that a received message is to the state machine.
pub fn message_to_event(msg: Message) -> (event: Event)
    ensures
        event == match msg {
            Message::Vertex(v) => Event::VertexReceived(v),
            Message::CoA(coa) => Event::CoAReceived(coa),
            Message::AggregatedCoA(agg) => Event::AggregatedCoAReceived(agg),
            Message::SkipVote(round, anchor, signer, sig) => Event::SkipVoteReceived(
                round,
                anchor,
                signer,
                sig,
            ),
        },
{
    match msg {
        Message::Vertex(v) => Event::VertexReceived(v),
        Message::CoA(coa) => Event::CoAReceived(coa),
        Message::AggregatedCoA(agg) => Event::AggregatedCoAReceived(agg),
        Message::SkipVote(round, anchor, signer, sig) => Event::SkipVoteReceived(
            round,
            anchor,
            signer,
            sig,
        ),
    }
}

/// Counters of the traffic of one validator. A counter that is full stays
/// full.
#[derive(Debug, Clone, Copy)]
pub struct NetMetrics {
    pub ser_micros: u64,
    pub deser_micros: u64,
    pub bytes_sent: u64,
    pub bytes_recv: u64,
}

/// The sum of a counter and an amount, or the largest value where the sum
/// is above it.
pub open spec fn counted(counter: u64, amount: nat) -> u64 {
    if counter + amount > u64::MAX {
        u64::MAX
    } else {
        (counter + amount) as u64
    }
}

/// Computes `counted`.
pub fn count_up(counter: u64, amount: u64) -> (r: u64)
    ensures
        r == counted(counter, amount as nat),
{
    if amount > u64::MAX - counter {
        u64::MAX
    } else {
        counter + amount
    }
}

impl NetMetrics {
    /// All counters at zero.
    pub fn new() -> (m: Self)
        ensures
            m.ser_micros == 0,
            m.deser_micros == 0,
            m.bytes_sent == 0,
            m.bytes_recv == 0,
    {
        NetMetrics { ser_micros: 0, deser_micros: 0, bytes_sent: 0, bytes_recv: 0 }
    }

    /// Counts a message of `bytes` bytes that was sent.
    pub fn record_sent(&mut self, bytes: usize)
        ensures
            final(self).bytes_sent == counted(old(self).bytes_sent, bytes as nat),
            final(self).ser_micros == old(self).ser_micros,
            final(self).deser_micros == old(self).deser_micros,
            final(self).bytes_recv == old(self).bytes_recv,
    {
        self.bytes_sent = count_up(self.bytes_sent, bytes as u64);
    }

    /// Counts a message of `bytes` bytes that was received and took
    /// `micros` microseconds to decode.
    pub fn record_received(&mut self, bytes: usize, micros: u64)
        ensures
            final(self).bytes_recv == counted(old(self).bytes_recv, bytes as nat),
            final(self).deser_micros == counted(old(self).deser_micros, micros as nat),
            final(self).ser_micros == old(self).ser_micros,
            final(self).bytes_sent == old(self).bytes_sent,
    {
        self.deser_micros = count_up(self.deser_micros, micros);
        self.bytes_recv = count_up(self.bytes_recv, bytes as u64);
    }
}

} // verus!
