//! The data model: vertices, certificates of availability, events and wire
//! messages, each with its mathematical view.

use vstd::prelude::*;
use crate::bytes::bytes_eq;

verus! {

/// A validator's stable identity, also its bit index in a signer bitmap.
pub type ValidatorId = u32;

/// A 32-byte content digest.
pub type Hash = [u8; 32];

/// Another name for [`Hash`].
pub type Digest = [u8; 32];

/// A signature as raw bytes.
pub type Signature = Vec<u8>;

/// A compressed BLS12-381 G1 signature (48 bytes when well formed).
pub type BlsSignature = Vec<u8>;

/// A compressed BLS12-381 G2 public key (96 bytes when well formed).
pub type BlsPublicKey = Vec<u8>;

/// Bit `i` is set exactly when validator `i` contributed.
pub type SignerBitmap = u64;

/// The view of a list of (signer, signature) pairs.
pub open spec fn sigs_view(s: Seq<(ValidatorId, Signature)>) -> Seq<(ValidatorId, Seq<u8>)> {
    Seq::new(s.len(), |i: int| (s[i].0, s[i].1@))
}

/// Copies a byte vector.
pub fn clone_bytes(b: &Vec<u8>) -> (r: Vec<u8>)
    ensures
        r@ == b@,
{
    let mut out: Vec<u8> = Vec::new();
    let mut i: usize = 0;
    while i < b.len()
        invariant
            i <= b.len(),
            out@ == b@.take(i as int),
        decreases b.len() - i,
    {
        out.push(b[i]);
        assert(b@.take(i + 1) =~= b@.take(i as int).push(b@[i as int]));
        i = i + 1;
    }
    assert(b@.take(i as int) =~= b@);
    out
}

/// Copies a list of (signer, signature) pairs.
pub fn clone_sigs(s: &Vec<(ValidatorId, Signature)>) -> (r: Vec<(ValidatorId, Signature)>)
    ensures
        sigs_view(r@) == sigs_view(s@),
{
    let mut out: Vec<(ValidatorId, Signature)> = Vec::new();
    let mut i: usize = 0;
    while i < s.len()
        invariant
            i <= s.len(),
            out.len() == i,
            forall|k: int| 0 <= k < i ==> out@[k].0 == s@[k].0 && out@[k].1@ == s@[k].1@,
        decreases s.len() - i,
    {
        let sig: Vec<u8> = clone_bytes(&s[i].1);
        out.push((s[i].0, sig));
        i = i + 1;
    }
    assert(sigs_view(out@) =~= sigs_view(s@));
    out
}

/// Whether the list holds a signature of `signer`.
pub open spec fn has_signer(sigs: Seq<(ValidatorId, Seq<u8>)>, signer: ValidatorId) -> bool {
    exists|i: int| 0 <= i < sigs.len() && (#[trigger] sigs[i]).0 == signer
}

/// Whether no signer occurs twice in the list.
pub open spec fn distinct_signers(sigs: Seq<(ValidatorId, Seq<u8>)>) -> bool {
    forall|i: int, j: int|
        0 <= i < j < sigs.len() ==> (#[trigger] sigs[i]).0 != (#[trigger] sigs[j]).0
}

/// Decides `has_signer`.
pub fn signer_present(sigs: &Vec<(ValidatorId, Signature)>, signer: ValidatorId) -> (r: bool)
    ensures
        r == has_signer(sigs_view(sigs@), signer),
{
    let mut i: usize = 0;
    while i < sigs.len()
        invariant
            i <= sigs.len(),
            forall|k: int| 0 <= k < i ==> (#[trigger] sigs_view(sigs@)[k]).0 != signer,
        decreases sigs.len() - i,
    {
        if sigs[i].0 == signer {
            assert(sigs_view(sigs@)[i as int].0 == signer);
            return true;
        }
        i = i + 1;
    }
    false
}

/// Decides `distinct_signers`.
pub fn signers_distinct(sigs: &Vec<(ValidatorId, Signature)>) -> (r: bool)
    ensures
        r == distinct_signers(sigs_view(sigs@)),
{
    let ghost list = sigs_view(sigs@);
    let mut j: usize = 0;
    while j < sigs.len()
        invariant
            j <= sigs.len(),
            list == sigs_view(sigs@),
            forall|a: int, b: int| 0 <= a < b < j ==> (#[trigger] list[a]).0 != (#[trigger] list[b]).0,
        decreases sigs.len() - j,
    {
        let mut i: usize = 0;
        while i < j
            invariant
                i <= j < sigs.len(),
                list == sigs_view(sigs@),
                forall|a: int| 0 <= a < i ==> (#[trigger] list[a]).0 != list[j as int].0,
            decreases j - i,
        {
            if sigs[i].0 == sigs[j].0 {
                assert(list[i as int].0 == list[j as int].0);
                return false;
            }
            i = i + 1;
        }
        j = j + 1;
    }
    true
}

/// An immutable proposal for one round.
#[derive(Debug)]
pub struct Vertex {
    pub round: u64,
    pub author: ValidatorId,
    pub batch_hash: Hash,
    /// Positions in the certified list of the previous round.
    pub parent_indices: Vec<u32>,
}

pub struct VertexView {
    pub round: u64,
    pub author: ValidatorId,
    pub batch_hash: Hash,
    pub parent_indices: Seq<u32>,
}

impl View for Vertex {
    type V = VertexView;

    open spec fn view(&self) -> VertexView {
        VertexView {
            round: self.round,
            author: self.author,
            batch_hash: self.batch_hash,
            parent_indices: self.parent_indices@,
        }
    }
}

impl Clone for Vertex {
    fn clone(&self) -> (r: Self)
        ensures
            r@ == self@,
    {
        let mut parents: Vec<u32> = Vec::new();
        let mut i: usize = 0;
        while i < self.parent_indices.len()
            invariant
                i <= self.parent_indices.len(),
                parents@ == self.parent_indices@.take(i as int),
            decreases self.parent_indices.len() - i,
        {
            parents.push(self.parent_indices[i]);
            assert(self.parent_indices@.take(i + 1) =~= self.parent_indices@.take(i as int).push(
                self.parent_indices@[i as int],
            ));
            i = i + 1;
        }
        assert(self.parent_indices@.take(i as int) =~= self.parent_indices@);
        Vertex {
            round: self.round,
            author: self.author,
            batch_hash: self.batch_hash,
            parent_indices: parents,
        }
    }
}

/// Decides whether two vertices hold the same data.
pub fn vertex_eq(a: &Vertex, b: &Vertex) -> (r: bool)
    ensures
        r == (a@ == b@),
{
    if a.round != b.round || a.author != b.author {
        return false;
    }
    if !bytes_eq(a.batch_hash.as_slice(), b.batch_hash.as_slice()) {
        return false;
    }
    assert(a.batch_hash =~= b.batch_hash);
    if a.parent_indices.len() != b.parent_indices.len() {
        return false;
    }
    let mut i: usize = 0;
    while i < a.parent_indices.len()
        invariant
            i <= a.parent_indices.len(),
            a.parent_indices.len() == b.parent_indices.len(),
            forall|k: int| 0 <= k < i ==> a.parent_indices@[k] == b.parent_indices@[k],
        decreases a.parent_indices.len() - i,
    {
        if a.parent_indices[i] != b.parent_indices[i] {
            return false;
        }
        i = i + 1;
    }
    assert(a.parent_indices@ =~= b.parent_indices@);
    true
}

/// A certificate of availability in partial form: the signatures gathered
/// for one vertex hash.
#[derive(Debug)]
pub struct CoA {
    pub batch_hash: Hash,
    pub signatures: Vec<(ValidatorId, Signature)>,
}

pub struct CoAView {
    pub batch_hash: Hash,
    pub signatures: Seq<(ValidatorId, Seq<u8>)>,
}

impl View for CoA {
    type V = CoAView;

    open spec fn view(&self) -> CoAView {
        CoAView { batch_hash: self.batch_hash, signatures: sigs_view(self.signatures@) }
    }
}

impl Clone for CoA {
    fn clone(&self) -> (r: Self)
        ensures
            r@ == self@,
    {
        CoA { batch_hash: self.batch_hash, signatures: clone_sigs(&self.signatures) }
    }
}

/// A certificate of availability in aggregated form: 32 + 48 + 8 bytes,
/// whatever the size of the quorum.
#[derive(Debug)]
pub struct AggregatedCoA {
    pub batch_hash: Hash,
    pub aggregated_signature: BlsSignature,
    pub signer_bitmap: SignerBitmap,
}

pub struct AggregatedCoAView {
    pub batch_hash: Hash,
    pub aggregated_signature: Seq<u8>,
    pub signer_bitmap: SignerBitmap,
}

impl View for AggregatedCoA {
    type V = AggregatedCoAView;

    open spec fn view(&self) -> AggregatedCoAView {
        AggregatedCoAView {
            batch_hash: self.batch_hash,
            aggregated_signature: self.aggregated_signature@,
            signer_bitmap: self.signer_bitmap,
        }
    }
}

impl Clone for AggregatedCoA {
    fn clone(&self) -> (r: Self)
        ensures
            r@ == self@,
    {
        AggregatedCoA {
            batch_hash: self.batch_hash,
            aggregated_signature: clone_bytes(&self.aggregated_signature),
            signer_bitmap: self.signer_bitmap,
        }
    }
}

/// A vertex together with its certificate.
#[derive(Debug)]
pub struct CertifiedVertex {
    pub vertex: Vertex,
    pub coa: CoA,
}

pub struct CertifiedVertexView {
    pub vertex: VertexView,
    pub coa: CoAView,
}

impl View for CertifiedVertex {
    type V = CertifiedVertexView;

    open spec fn view(&self) -> CertifiedVertexView {
        CertifiedVertexView { vertex: self.vertex@, coa: self.coa@ }
    }
}

impl Clone for CertifiedVertex {
    fn clone(&self) -> (r: Self)
        ensures
            r@ == self@,
    {
        CertifiedVertex { vertex: self.vertex.clone(), coa: self.coa.clone() }
    }
}

/// A vertex together with its aggregated certificate.
#[derive(Debug)]
pub struct AggregatedCertifiedVertex {
    pub vertex: Vertex,
    pub agg_coa: AggregatedCoA,
}

pub struct AggregatedCertifiedVertexView {
    pub vertex: VertexView,
    pub agg_coa: AggregatedCoAView,
}

impl View for AggregatedCertifiedVertex {
    type V = AggregatedCertifiedVertexView;

    open spec fn view(&self) -> AggregatedCertifiedVertexView {
        AggregatedCertifiedVertexView { vertex: self.vertex@, agg_coa: self.agg_coa@ }
    }
}

impl Clone for AggregatedCertifiedVertex {
    fn clone(&self) -> (r: Self)
        ensures
            r@ == self@,
    {
        AggregatedCertifiedVertex { vertex: self.vertex.clone(), agg_coa: self.agg_coa.clone() }
    }
}

/// The certificate under which a vertex is certified: the signatures of a
/// quorum, one by one or aggregated.
#[derive(Debug)]
pub enum Certificate {
    Partial(CoA),
    Aggregated(AggregatedCoA),
}

pub enum CertificateView {
    Partial(CoAView),
    Aggregated(AggregatedCoAView),
}

impl CertificateView {
    /// The hash of the vertex that the certificate is for.
    pub open spec fn vertex_hash(self) -> Hash {
        match self {
            CertificateView::Partial(c) => c.batch_hash,
            CertificateView::Aggregated(a) => a.batch_hash,
        }
    }
}

impl View for Certificate {
    type V = CertificateView;

    open spec fn view(&self) -> CertificateView {
        match self {
            Certificate::Partial(c) => CertificateView::Partial(c@),
            Certificate::Aggregated(a) => CertificateView::Aggregated(a@),
        }
    }
}

impl Clone for Certificate {
    fn clone(&self) -> (r: Self)
        ensures
            r@ == self@,
    {
        match self {
            Certificate::Partial(c) => Certificate::Partial(c.clone()),
            Certificate::Aggregated(a) => Certificate::Aggregated(a.clone()),
        }
    }
}

impl Certificate {
    /// The hash of the vertex that the certificate is for.
    pub fn vertex_hash(&self) -> (h: Hash)
        ensures
            h == self@.vertex_hash(),
    {
        match self {
            Certificate::Partial(c) => c.batch_hash,
            Certificate::Aggregated(a) => a.batch_hash,
        }
    }
}

/// The votes gathered to skip a round's anchor.
#[derive(Debug)]
pub struct SkipCert {
    pub round: u64,
    pub anchor_index: ValidatorId,
    pub signatures: Vec<(ValidatorId, Signature)>,
}

pub struct SkipCertView {
    pub round: u64,
    pub anchor_index: ValidatorId,
    pub signatures: Seq<(ValidatorId, Seq<u8>)>,
}

impl View for SkipCert {
    type V = SkipCertView;

    open spec fn view(&self) -> SkipCertView {
        SkipCertView {
            round: self.round,
            anchor_index: self.anchor_index,
            signatures: sigs_view(self.signatures@),
        }
    }
}

impl Clone for SkipCert {
    fn clone(&self) -> (r: Self)
        ensures
            r@ == self@,
    {
        SkipCert {
            round: self.round,
            anchor_index: self.anchor_index,
            signatures: clone_sigs(&self.signatures),
        }
    }
}

/// Where a vertex stands: known, or certified by the given certificate.
pub enum VertexState {
    Pending,
    Certified(CoA),
}

/// What the consensus state machine is driven by.
pub enum Event {
    VertexReceived(Vertex),
    CoAReceived(CoA),
    AggregatedCoAReceived(AggregatedCoA),
    SkipVoteReceived(u64, u32, ValidatorId, Signature),
    Timeout(u64),
}

/// What validators send each other.
#[derive(Debug)]
pub enum Message {
    Vertex(Vertex),
    CoA(CoA),
    AggregatedCoA(AggregatedCoA),
    SkipVote(u64, u32, ValidatorId, Signature),
}

pub enum MessageView {
    Vertex(VertexView),
    CoA(CoAView),
    AggregatedCoA(AggregatedCoAView),
    SkipVote(u64, u32, ValidatorId, Seq<u8>),
}

impl View for Message {
    type V = MessageView;

    open spec fn view(&self) -> MessageView {
        match self {
            Message::Vertex(v) => MessageView::Vertex(v@),
            Message::CoA(c) => MessageView::CoA(c@),
            Message::AggregatedCoA(a) => MessageView::AggregatedCoA(a@),
            Message::SkipVote(round, anchor, signer, sig) => MessageView::SkipVote(
                *round,
                *anchor,
                *signer,
                sig@,
            ),
        }
    }
}

impl Clone for Message {
    fn clone(&self) -> (r: Self)
        ensures
            r@ == self@,
    {
        match self {
            Message::Vertex(v) => Message::Vertex(v.clone()),
            Message::CoA(c) => Message::CoA(c.clone()),
            Message::AggregatedCoA(a) => Message::AggregatedCoA(a.clone()),
            Message::SkipVote(round, anchor, signer, sig) => Message::SkipVote(
                *round,
                *anchor,
                *signer,
                clone_bytes(sig),
            ),
        }
    }
}

impl Message {
    /// The certificate that a `CoA` message carries; `None` for the others.
    pub fn coa(&self) -> (r: Option<&CoA>)
        ensures
            match *self {
                Message::CoA(c) => r == Some(&c),
                _ => r is None,
            },
    {
        match self {
            Message::CoA(coa) => Some(coa),
            _ => None,
        }
    }
}

} // verus!
