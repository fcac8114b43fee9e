//! The DAG store: vertices and certificates by hash, the certified
//! vertices of each round in their order of certification, and the
//! deterministic linearization from an anchor.

use vstd::prelude::*;
use std::collections::HashMap;
use crate::bls_crypto::{popcount, count_signers};
use crate::crypto::vrf_sort_key;
use crate::store::{HashTable, hash_eq, hash_list_contains};
use crate::linearize::{
    key_le, sort_layer, lemma_key_le_antisymmetric, lemma_key_le_transitive, lemma_key_le_total,
    lemma_key_le_reflexive, key_le_given,
};
use crate::types::{
    AggregatedCertifiedVertex, Certificate, CertificateView, CertifiedVertex, Digest,
    ValidatorId, Vertex, VertexView, vertex_eq, distinct_signers, signers_distinct,
};

verus! {

broadcast use vstd::std_specs::hash::group_hash_axioms;

/// The certified hashes of each round, in their order of certification.
pub struct RoundIndex {
    lists: HashMap<u64, Vec<Digest>>,
}

impl RoundIndex {
    /// The certified hashes of round `r`; none where the round is unknown.
    pub closed spec fn list(&self, r: u64) -> Seq<Digest> {
        if self.lists@.contains_key(r) {
            self.lists@[r]@
        } else {
            Seq::empty()
        }
    }

    /// The index without any round.
    pub fn new() -> (idx: Self)
        ensures
            forall|r: u64| idx.list(r) == Seq::<Digest>::empty(),
    {
        RoundIndex { lists: HashMap::new() }
    }

    /// The number of certified vertices of round `r`.
    pub fn count(&self, r: u64) -> (n: usize)
        ensures
            n == self.list(r).len(),
    {
        match self.lists.get(&r) {
            Some(list) => list.len(),
            None => 0,
        }
    }

    /// The hash at position `i` of round `r`.
    pub fn at(&self, r: u64, i: usize) -> (h: Option<Digest>)
        ensures
            match h {
                Some(x) => i < self.list(r).len() && x == self.list(r)[i as int],
                None => i >= self.list(r).len(),
            },
    {
        match self.lists.get(&r) {
            Some(list) => {
                if i < list.len() {
                    Some(list[i])
                } else {
                    None
                }
            },
            None => None,
        }
    }

    /// Appends `h` to the list of round `r`.
    pub fn append(&mut self, r: u64, h: Digest)
        ensures
            final(self).list(r) == old(self).list(r).push(h),
            forall|other: u64| other != r ==> final(self).list(other) == old(self).list(other),
    {
        let mut list: Vec<Digest> = match self.lists.remove(&r) {
            Some(l) => l,
            None => Vec::new(),
        };
        list.push(h);
        self.lists.insert(r, list);
    }
}

/// Whether a certificate carries a quorum: at least `quorum` signatures of
/// distinct signers, or a bitmap that names at least `quorum` signers.
pub open spec fn has_quorum(cert: CertificateView, quorum: int) -> bool {
    match cert {
        CertificateView::Partial(c) => c.signatures.len() >= quorum && distinct_signers(
            c.signatures,
        ),
        CertificateView::Aggregated(a) => popcount(a.signer_bitmap) >= quorum,
    }
}

/// Decides `has_quorum`.
pub fn certificate_has_quorum(cert: &Certificate, quorum: usize) -> (r: bool)
    ensures
        r == has_quorum(cert@, quorum as int),
{
    match cert {
        Certificate::Partial(c) => c.signatures.len() >= quorum && signers_distinct(&c.signatures),
        Certificate::Aggregated(a) => count_signers(a.signer_bitmap) >= quorum,
    }
}

/// The DAG store as plain values.
#[verifier::ext_equal]
pub struct DagView {
    /// Every vertex that is known, by its hash.
    pub vertices: Map<Digest, VertexView>,
    /// The certificate of every certified vertex, by its hash.
    pub certs: Map<Digest, CertificateView>,
    /// The certified hashes of each round, in their order of certification.
    pub rounds: spec_fn(u64) -> Seq<Digest>,
    /// The highest round that has been linearized.
    pub committed_round: u64,
    /// The number of validators.
    pub n: nat,
    /// The number of faulty validators that is tolerated.
    pub f: nat,
}

impl DagView {
    /// The certified hashes of round `r`, in their order of certification.
    pub open spec fn round_list(self, r: u64) -> Seq<Digest> {
        (self.rounds)(r)
    }

    /// The number of signers, and of parents, that a certified vertex needs.
    pub open spec fn quorum(self) -> int {
        self.n - self.f
    }

    /// Whether `h` is the hash of a certified vertex.
    pub open spec fn certified(self, h: Digest) -> bool {
        self.certs.contains_key(h)
    }

    /// The hashes that the parent indices of a vertex of round `round`
    /// stand for, where all are in range.
    pub open spec fn resolve(self, round: u64, indices: Seq<u32>) -> Seq<Digest> {
        Seq::new(indices.len(), |k: int| self.round_list((round - 1) as u64)[indices[k] as int])
    }

    /// Whether every parent index of a vertex of round `round` has a
    /// certified vertex to stand for.
    pub open spec fn resolvable(self, round: u64, indices: Seq<u32>) -> bool {
        round > 0 && forall|k: int|
            0 <= k < indices.len() ==> (#[trigger] indices[k]) < self.round_list(
                (round - 1) as u64,
            ).len()
    }

    /// Whether `parents` are valid parents of a vertex of round `round`:
    /// there are n - f of them, each is certified in the round before, and
    /// no two have the same author.
    pub open spec fn parents_valid(self, round: u64, parents: Seq<Digest>) -> bool {
        &&& parents.len() == self.quorum()
        &&& forall|i: int|
            0 <= i < parents.len() ==> {
                &&& self.vertices.contains_key(#[trigger] parents[i])
                &&& self.certs.contains_key(parents[i])
                &&& self.vertices[parents[i]].round + 1 == round
            }
        &&& forall|i: int, j: int|
            0 <= i < j < parents.len() ==> self.vertices[#[trigger] parents[i]].author
                != self.vertices[#[trigger] parents[j]].author
    }

    /// Whether the parent index at position `k` of the vertex `child` stands
    /// for `h`.
    pub open spec fn parent_via(self, child: Digest, k: int, h: Digest) -> bool {
        let v = self.vertices[child];
        let below = self.round_list((v.round - 1) as u64);
        0 <= k < v.parent_indices.len() && v.parent_indices[k] < below.len()
            && below[v.parent_indices[k] as int] == h
    }

    /// Whether `h` is a parent of the vertex `child`.
    pub open spec fn parent_of(self, child: Digest, h: Digest) -> bool {
        &&& self.vertices.contains_key(child)
        &&& self.vertices[child].round > 0
        &&& exists|k: int| #[trigger] self.parent_via(child, k, h)
    }

    /// Whether `h` is a parent of one of the first `i` vertices of `list`.
    pub open spec fn parent_of_some(self, list: Seq<Digest>, i: int, h: Digest) -> bool {
        exists|c: int| 0 <= c < i && self.parent_of(#[trigger] list[c], h)
    }

    /// Whether one of the first `k` parent indices of `child` stands for `h`.
    pub open spec fn parent_via_some(self, child: Digest, k: int, h: Digest) -> bool {
        exists|m: int| 0 <= m < k && #[trigger] self.parent_via(child, m, h)
    }

    /// The parents of the vertices of `children`.
    pub open spec fn parents_of(self, children: Set<Digest>) -> Set<Digest> {
        Set::new(|h: Digest| exists|c: Digest| #[trigger] children.contains(c) && self.parent_of(c, h))
    }

    /// What is reached from `anchor` in round `r` by following parent
    /// links: the anchor alone in its own round, and in each round below the
    /// parents of what is reached in the round above.
    pub open spec fn layer(self, anchor: Digest, r: int) -> Set<Digest>
        decreases self.vertices[anchor].round - r,
    {
        let top = self.vertices[anchor].round as int;
        if r > top {
            Set::empty()
        } else if r == top {
            set![anchor]
        } else {
            self.parents_of(self.layer(anchor, r + 1))
        }
    }

    /// Whether `h` is reached from `anchor` in round `r`.
    pub open spec fn in_layer(self, anchor: Digest, r: int, h: Digest) -> bool {
        self.layer(anchor, r).contains(h)
    }

    /// Whether `h` belongs to the log extension that `anchor` commits: it
    /// is reached from the anchor in a round above the committed round.
    pub open spec fn reachable(self, anchor: Digest, h: Digest) -> bool {
        exists|r: int|
            self.committed_round < r <= self.vertices[anchor].round && #[trigger] self.in_layer(
                anchor,
                r,
                h,
            )
    }

    /// The order of the log: by round, and within a round by sort key.
    pub open spec fn log_le(self, a: Digest, b: Digest, seed: Digest) -> bool {
        self.vertices[a].round < self.vertices[b].round || (self.vertices[a].round
            == self.vertices[b].round && key_le(a, b, seed))
    }

    /// Whether `log` is the linearization from `anchor` under `seed`: it
    /// holds each reachable vertex once, and nothing else, in the order of
    /// the log.
    pub open spec fn is_linearization(self, log: Seq<Digest>, anchor: Digest, seed: Digest) -> bool {
        &&& log.no_duplicates()
        &&& forall|h: Digest| log.contains(h) <==> self.reachable(anchor, h)
        &&& forall|i: int, j: int|
            0 <= i < j < log.len() ==> self.log_le(#[trigger] log[i], #[trigger] log[j], seed)
    }

    /// The store is consistent: certified vertices are known, and their
    /// certificates carry a quorum; each round's list holds each certified
    /// vertex of that round once and nothing else; no author has two
    /// certified vertices in a round; and the parent indices of a certified
    /// vertex past round 0 stand for valid parents.
    pub open spec fn wf(self) -> bool {
        &&& self.f <= self.n
        &&& forall|h: Digest| #[trigger] self.certs.contains_key(h) ==> self.vertices.contains_key(h)
        &&& forall|h: Digest| #[trigger]
            self.certs.contains_key(h) ==> has_quorum(self.certs[h], self.quorum())
        &&& forall|r: u64| (#[trigger] self.round_list(r)).no_duplicates()
        &&& forall|r: u64, i: int|
            0 <= i < self.round_list(r).len() ==> {
                &&& self.certs.contains_key(#[trigger] self.round_list(r)[i])
                &&& self.vertices[self.round_list(r)[i]].round == r
            }
        &&& forall|h: Digest| #[trigger]
            self.certs.contains_key(h) ==> self.round_list(self.vertices[h].round).contains(h)
        &&& forall|a: Digest, b: Digest|
            #![trigger self.certs.contains_key(a), self.certs.contains_key(b)]
            self.certs.contains_key(a) && self.certs.contains_key(b) && self.vertices[a].round
                == self.vertices[b].round && self.vertices[a].author == self.vertices[b].author
                ==> a == b
        &&& forall|h: Digest| #[trigger]
            self.certs.contains_key(h) && self.vertices[h].round > 0 ==> {
                &&& self.resolvable(self.vertices[h].round, self.vertices[h].parent_indices)
                &&& self.parents_valid(
                    self.vertices[h].round,
                    self.resolve(self.vertices[h].round, self.vertices[h].parent_indices),
                )
            }
    }
}

/// Every certified vertex past round 0 has n - f parent indices, and they
/// stand for vertices certified in the round before, no two by the same
/// author.
pub proof fn lemma_certified_parents(dag: DagView, h: Digest)
    requires
        dag.wf(),
        dag.certified(h),
        dag.vertices[h].round > 0,
    ensures
        dag.vertices[h].parent_indices.len() == dag.n - dag.f,
        forall|k: int|
            0 <= k < dag.vertices[h].parent_indices.len() ==> {
                let list = dag.round_list((dag.vertices[h].round - 1) as u64);
                let idx = #[trigger] dag.vertices[h].parent_indices[k];
                &&& idx < list.len()
                &&& dag.certified(list[idx as int])
                &&& dag.vertices[list[idx as int]].round == dag.vertices[h].round - 1
            },
        forall|j: int, k: int|
            0 <= j < k < dag.vertices[h].parent_indices.len() ==> {
                let list = dag.round_list((dag.vertices[h].round - 1) as u64);
                dag.vertices[list[(#[trigger] dag.vertices[h].parent_indices[j]) as int]].author
                    != dag.vertices[list[(#[trigger] dag.vertices[h].parent_indices[k]) as int]].author
            },
{
    let v = dag.vertices[h];
    let parents = dag.resolve(v.round, v.parent_indices);
    assert(dag.parents_valid(v.round, parents));
    assert forall|k: int| 0 <= k < v.parent_indices.len() implies {
        let list = dag.round_list((v.round - 1) as u64);
        let idx = #[trigger] v.parent_indices[k];
        &&& idx < list.len()
        &&& dag.certified(list[idx as int])
        &&& dag.vertices[list[idx as int]].round == v.round - 1
    } by {
        assert(dag.certs.contains_key(parents[k]));
    }
    assert forall|j: int, k: int| 0 <= j < k < v.parent_indices.len() implies {
        let list = dag.round_list((v.round - 1) as u64);
        dag.vertices[list[(#[trigger] v.parent_indices[j]) as int]].author
            != dag.vertices[list[(#[trigger] v.parent_indices[k]) as int]].author
    } by {
        assert(dag.vertices[parents[j]].author != dag.vertices[parents[k]].author);
    }
}

/// The certificate of every certified vertex carries a quorum.
pub proof fn lemma_certified_has_quorum(dag: DagView, h: Digest)
    requires
        dag.wf(),
        dag.certified(h),
    ensures
        has_quorum(dag.certs[h], dag.n - dag.f),
{
}

/// For a round and an author, at most one vertex hash is certified.
pub proof fn lemma_one_vertex_per_author(dag: DagView, a: Digest, b: Digest)
    requires
        dag.wf(),
        dag.certified(a),
        dag.certified(b),
        dag.vertices[a].round == dag.vertices[b].round,
        dag.vertices[a].author == dag.vertices[b].author,
    ensures
        a == b,
{
}


/// Why a certified vertex was not taken into the store.
#[derive(Debug, Clone, Copy, PartialEq, Eq, Structural)]
pub enum InsertError {
    /// The certificate is for another hash.
    CertificateMismatch,
    /// The certificate does not carry a quorum of distinct signers.
    QuorumShortfall,
    /// Another vertex is known under the same hash.
    HashConflict,
    /// The vertex is certified already.
    AlreadyCertified,
    /// The author has another certified vertex in the same round.
    Equivocation,
    /// The parent indices do not stand for valid parents.
    InvalidParents,
}

/// Why the store refuses the vertex `v` with the certificate `cert` under
/// the hash `h`, if it does: the first of the six checks that fails.
pub open spec fn insert_fault(dag: DagView, v: VertexView, cert: CertificateView, h: Digest) -> Option<
    InsertError,
> {
    if cert.vertex_hash() != h {
        Some(InsertError::CertificateMismatch)
    } else if !has_quorum(cert, dag.quorum()) {
        Some(InsertError::QuorumShortfall)
    } else if dag.vertices.contains_key(h) && dag.vertices[h] != v {
        Some(InsertError::HashConflict)
    } else if dag.certs.contains_key(h) {
        Some(InsertError::AlreadyCertified)
    } else if exists|o: Digest| #[trigger]
        dag.certs.contains_key(o) && dag.vertices[o].round == v.round && dag.vertices[o].author
            == v.author {
        Some(InsertError::Equivocation)
    } else if v.round > 0 && !(dag.resolvable(v.round, v.parent_indices) && dag.parents_valid(
        v.round,
        dag.resolve(v.round, v.parent_indices),
    )) {
        Some(InsertError::InvalidParents)
    } else {
        None
    }
}

/// The store after it has taken the vertex `v` with the certificate
/// `cert` under the hash `h`: the vertex and the certificate are written,
/// and the hash comes last in its round.
pub open spec fn with_certified(
    dag: DagView,
    v: VertexView,
    cert: CertificateView,
    h: Digest,
) -> DagView {
    DagView {
        vertices: dag.vertices.insert(h, v),
        certs: dag.certs.insert(h, cert),
        rounds: |r: u64|
            if r == v.round {
                dag.round_list(r).push(h)
            } else {
                dag.round_list(r)
            },
        committed_round: dag.committed_round,
        n: dag.n,
        f: dag.f,
    }
}

/// Taking a certified vertex that passes the six checks keeps the store
/// consistent.
pub proof fn lemma_insert_keeps_wf(dag: DagView, v: VertexView, cert: CertificateView, h: Digest)
    requires
        dag.wf(),
        insert_fault(dag, v, cert, h) is None,
    ensures
        with_certified(dag, v, cert, h).wf(),
{
    let new = with_certified(dag, v, cert, h);
    // a hash that was certified before is not `h`, and keeps its vertex
    assert forall|x: Digest| #[trigger] dag.certs.contains_key(x) implies x != h
        && new.vertices.contains_key(x) && new.vertices[x] == dag.vertices[x]
        && new.certs.contains_key(x) by {}
    assert forall|r: u64| (#[trigger] new.round_list(r)).no_duplicates() by {
        assert(dag.round_list(r).no_duplicates());
        if r == v.round {
            let old_list = dag.round_list(r);
            assert forall|i: int| 0 <= i < old_list.len() implies old_list[i] != h by {
                assert(dag.certs.contains_key(old_list[i]));
            }
        }
    }
    assert forall|r: u64, i: int| 0 <= i < new.round_list(r).len() implies {
        &&& new.certs.contains_key(#[trigger] new.round_list(r)[i])
        &&& new.vertices[new.round_list(r)[i]].round == r
    } by {
        if i < dag.round_list(r).len() {
            assert(dag.certs.contains_key(dag.round_list(r)[i]));
        }
    }
    assert forall|x: Digest| #[trigger] new.certs.contains_key(x) implies new.round_list(
        new.vertices[x].round,
    ).contains(x) by {
        if x == h {
            let list = new.round_list(v.round);
            assert(list[list.len() - 1] == h);
        } else {
            assert(dag.certs.contains_key(x));
            let r = dag.vertices[x].round;
            let i = choose|i: int| 0 <= i < dag.round_list(r).len() && dag.round_list(r)[i] == x;
            assert(new.round_list(r)[i] == x);
        }
    }
    assert forall|a: Digest, b: Digest|
        #![trigger new.certs.contains_key(a), new.certs.contains_key(b)]
        new.certs.contains_key(a) && new.certs.contains_key(b) && new.vertices[a].round
            == new.vertices[b].round && new.vertices[a].author
            == new.vertices[b].author implies a == b by {
        if a != h && b != h {
            assert(dag.certs.contains_key(a) && dag.certs.contains_key(b));
        } else if a != h {
            assert(dag.certs.contains_key(a));
        } else if b != h {
            assert(dag.certs.contains_key(b));
        }
    }
    assert forall|x: Digest| #[trigger]
        new.certs.contains_key(x) && new.vertices[x].round > 0 implies {
        &&& new.resolvable(new.vertices[x].round, new.vertices[x].parent_indices)
        &&& new.parents_valid(
            new.vertices[x].round,
            new.resolve(new.vertices[x].round, new.vertices[x].parent_indices),
        )
    } by {
        let xv = new.vertices[x];
        if x != h {
            assert(dag.certs.contains_key(x));
        }
        assert(dag.resolvable(xv.round, xv.parent_indices));
        let parents = dag.resolve(xv.round, xv.parent_indices);
        assert(dag.parents_valid(xv.round, parents));
        let before = dag.round_list((xv.round - 1) as u64);
        let after = new.round_list((xv.round - 1) as u64);
        assert forall|k: int| 0 <= k < xv.parent_indices.len() implies (
        #[trigger] xv.parent_indices[k]) < after.len() && after[xv.parent_indices[k] as int]
            == parents[k] by {}
        assert(new.resolve(xv.round, xv.parent_indices) =~= parents);
        assert forall|i: int| 0 <= i < parents.len() implies {
            &&& new.vertices.contains_key(#[trigger] parents[i])
            &&& new.certs.contains_key(parents[i])
            &&& new.vertices[parents[i]].round + 1 == xv.round
        } by {
            assert(dag.certs.contains_key(parents[i]));
        }
        assert forall|i: int, j: int| 0 <= i < j < parents.len() implies new.vertices[
            #[trigger] parents[i]].author != new.vertices[#[trigger] parents[j]].author by {
            assert(dag.certs.contains_key(parents[i]));
            assert(dag.certs.contains_key(parents[j]));
        }
    }
}

/// The DAG store.
pub struct Dag {
    vertices: HashTable<Vertex>,
    certs: HashTable<Certificate>,
    round_to_vertices: RoundIndex,
    committed_round: u64,
    n: usize,
    f: usize,
}

impl View for Dag {
    type V = DagView;

    closed spec fn view(&self) -> DagView {
        DagView {
            vertices: self.vertices@.map_values(|v: Vertex| v@),
            certs: self.certs@.map_values(|c: Certificate| c@),
            rounds: |r: u64| self.round_to_vertices.list(r),
            committed_round: self.committed_round,
            n: self.n as nat,
            f: self.f as nat,
        }
    }
}

impl Dag {
    /// The store is consistent; see `DagView::wf`.
    pub closed spec fn wf(&self) -> bool {
        &&& self.vertices.wf()
        &&& self.certs.wf()
        &&& self@.wf()
    }

    /// A consistent store has a consistent view.
    pub proof fn lemma_wf_view(&self)
        requires
            self.wf(),
        ensures
            self@.wf(),
    {
    }

    /// The empty store for `n` validators of which `f` may be faulty.
    pub fn new(n: usize, f: usize) -> (dag: Self)
        requires
            f <= n,
        ensures
            dag.wf(),
            dag@.vertices == Map::<Digest, VertexView>::empty(),
            dag@.certs == Map::<Digest, CertificateView>::empty(),
            forall|r: u64| #[trigger] dag@.round_list(r) == Seq::<Digest>::empty(),
            dag@.committed_round == 0,
            dag@.n == n,
            dag@.f == f,
    {
        let dag = Dag {
            vertices: HashTable::new(),
            certs: HashTable::new(),
            round_to_vertices: RoundIndex::new(),
            committed_round: 0,
            n,
            f,
        };
        proof {
            assert(dag@.vertices =~= Map::<Digest, VertexView>::empty());
            assert(dag@.certs =~= Map::<Digest, CertificateView>::empty());
        }
        dag
    }

    /// The highest round that has been linearized.
    pub fn committed_round(&self) -> (r: u64)
        ensures
            r == self@.committed_round,
    {
        self.committed_round
    }

    /// The number of validators.
    pub fn n(&self) -> (n: usize)
        ensures
            n == self@.n,
    {
        self.n
    }

    /// The number of faulty validators that is tolerated.
    pub fn f(&self) -> (f: usize)
        ensures
            f == self@.f,
    {
        self.f
    }

    /// The vertex that is known under `h`.
    pub fn vertex(&self, h: &Digest) -> (r: Option<&Vertex>)
        requires
            self.wf(),
        ensures
            match r {
                Some(v) => self@.vertices.contains_key(*h) && self@.vertices[*h] == v@,
                None => !self@.vertices.contains_key(*h),
            },
    {
        self.vertices.get(h)
    }

    /// The certificate of the vertex `h`.
    pub fn certificate(&self, h: &Digest) -> (r: Option<&Certificate>)
        requires
            self.wf(),
        ensures
            match r {
                Some(c) => self@.certs.contains_key(*h) && self@.certs[*h] == c@,
                None => !self@.certs.contains_key(*h),
            },
    {
        self.certs.get(h)
    }

    /// Whether the vertex `h` is certified.
    pub fn is_certified(&self, h: &Digest) -> (r: bool)
        requires
            self.wf(),
        ensures
            r == self@.certified(*h),
    {
        self.certs.contains_key(h)
    }

    /// The number of certified vertices of round `r`.
    pub fn certified_count(&self, r: u64) -> (n: usize)
        ensures
            n == self@.round_list(r).len(),
    {
        self.round_to_vertices.count(r)
    }

    /// The certified hash at position `i` of round `r`.
    pub fn certified_at(&self, r: u64, i: usize) -> (h: Option<Digest>)
        ensures
            match h {
                Some(x) => i < self@.round_list(r).len() && x == self@.round_list(r)[i as int],
                None => i >= self@.round_list(r).len(),
            },
    {
        self.round_to_vertices.at(r, i)
    }

    /// Records that every round up to `round` has been linearized. The
    /// committed round never goes back.
    pub fn commit_round(&mut self, round: u64)
        requires
            old(self).wf(),
        ensures
            final(self).wf(),
            final(self)@.committed_round == if round > old(self)@.committed_round {
                round
            } else {
                old(self)@.committed_round
            },
            final(self)@.committed_round >= old(self)@.committed_round,
            final(self)@.vertices == old(self)@.vertices,
            final(self)@.certs == old(self)@.certs,
            final(self)@.rounds == old(self)@.rounds,
            final(self)@.n == old(self)@.n,
            final(self)@.f == old(self)@.f,
    {
        if round > self.committed_round {
            self.committed_round = round;
        }
        proof {
            assert(self@.rounds =~= old(self)@.rounds);
            lemma_more_vertices(old(self)@, self@);
        }
    }

    /// Stores a vertex that is not certified yet. A hash that is known
    /// keeps its vertex.
    pub fn insert_vertex(&mut self, vertex: Vertex, v_hash: Digest)
        requires
            old(self).wf(),
        ensures
            final(self).wf(),
            final(self)@.vertices == if old(self)@.vertices.contains_key(v_hash) {
                old(self)@.vertices
            } else {
                old(self)@.vertices.insert(v_hash, vertex@)
            },
            final(self)@.certs == old(self)@.certs,
            final(self)@.rounds == old(self)@.rounds,
            final(self)@.committed_round == old(self)@.committed_round,
            final(self)@.n == old(self)@.n,
            final(self)@.f == old(self)@.f,
    {
        if self.vertices.contains_key(&v_hash) {
            return ;
        }
        self.vertices.insert(v_hash, vertex);
        proof {
            assert(self@.vertices =~= old(self)@.vertices.insert(v_hash, vertex@));
            assert(self@.rounds =~= old(self)@.rounds);
            lemma_more_vertices(old(self)@, self@);
        }
    }

    /// The hashes that the parent indices of `vertex` stand for; `None`
    /// where the vertex is of round 0 or an index is out of range.
    pub fn resolve_parents(&self, vertex: &Vertex) -> (r: Option<Vec<Digest>>)
        ensures
            match r {
                Some(parents) => self@.resolvable(vertex@.round, vertex@.parent_indices)
                    && parents@ == self@.resolve(vertex@.round, vertex@.parent_indices),
                None => !self@.resolvable(vertex@.round, vertex@.parent_indices),
            },
    {
        if vertex.round == 0 {
            return None;
        }
        let below: u64 = vertex.round - 1;
        let mut parents: Vec<Digest> = Vec::new();
        let mut k: usize = 0;
        while k < vertex.parent_indices.len()
            invariant
                k <= vertex.parent_indices.len(),
                below == vertex.round - 1,
                parents@.len() == k,
                forall|j: int|
                    0 <= j < k ==> (#[trigger] vertex.parent_indices@[j]) < self@.round_list(
                        below,
                    ).len() && parents@[j] == self@.round_list(
                        below,
                    )[vertex.parent_indices@[j] as int],
            decreases vertex.parent_indices.len() - k,
        {
            let idx: u32 = vertex.parent_indices[k];
            match self.round_to_vertices.at(below, idx as usize) {
                Some(p) => {
                    parents.push(p);
                },
                None => {
                    assert(vertex@.parent_indices[k as int] >= self@.round_list(below).len());
                    return None;
                },
            }
            k = k + 1;
        }
        proof {
            assert(parents@ =~= self@.resolve(vertex@.round, vertex@.parent_indices));
        }
        Some(parents)
    }

    /// Takes a vertex with its certificate into the store, unless one of
    /// six checks fails.
    fn insert_with(&mut self, vertex: Vertex, cert: Certificate, v_hash: Digest) -> (r: Result<
        (),
        InsertError,
    >)
        requires
            old(self).wf(),
        ensures
            final(self).wf(),
            match r {
                Ok(_) => insert_fault(old(self)@, vertex@, cert@, v_hash) is None && final(self)@
                    =~= with_certified(old(self)@, vertex@, cert@, v_hash),
                Err(e) => insert_fault(old(self)@, vertex@, cert@, v_hash) == Some(e)
                    && final(self)@ == old(self)@,
            },
    {
        proof {
            self.lemma_wf_view();
        }
        let cert_hash: Digest = cert.vertex_hash();
        if !hash_eq(&cert_hash, &v_hash) {
            return Err(InsertError::CertificateMismatch);
        }
        if !certificate_has_quorum(&cert, self.n - self.f) {
            return Err(InsertError::QuorumShortfall);
        }
        match self.vertices.get(&v_hash) {
            Some(known) => {
                if !vertex_eq(known, &vertex) {
                    return Err(InsertError::HashConflict);
                }
            },
            None => {},
        }
        if self.certs.contains_key(&v_hash) {
            return Err(InsertError::AlreadyCertified);
        }
        let round: u64 = vertex.round;
        let count: usize = self.round_to_vertices.count(round);
        let mut i: usize = 0;
        while i < count
            invariant
                i <= count,
                self.wf(),
                *self == *old(self),
                cert@.vertex_hash() == v_hash,
                has_quorum(cert@, self@.quorum()),
                !(self@.vertices.contains_key(v_hash) && self@.vertices[v_hash] != vertex@),
                !self@.certs.contains_key(v_hash),
                round == vertex.round,
                count == self@.round_list(round).len(),
                forall|k: int|
                    0 <= k < i ==> self@.vertices[#[trigger] self@.round_list(round)[k]].author
                        != vertex@.author,
            decreases count - i,
        {
            let other: Option<Digest> = self.round_to_vertices.at(round, i);
            let o: Digest = other.unwrap();
            proof {
                assert(self@.certs.contains_key(self@.round_list(round)[i as int]));
            }
            match self.vertices.get(&o) {
                Some(ov) => {
                    if ov.author == vertex.author {
                        assert(self@.certs.contains_key(o) && self@.vertices[o].round
                            == vertex@.round && self@.vertices[o].author == vertex@.author);
                        return Err(InsertError::Equivocation);
                    }
                },
                None => {},
            }
            i = i + 1;
        }
        proof {
            assert forall|o: Digest| #[trigger]
                self@.certs.contains_key(o) && self@.vertices[o].round == vertex@.round
                implies self@.vertices[o].author != vertex@.author by {
                let k = choose|k: int|
                    0 <= k < self@.round_list(round).len() && self@.round_list(round)[k] == o;
                assert(self@.round_list(round)[k] == o);
            }
        }
        if round > 0 {
            match self.resolve_parents(&vertex) {
                Some(parents) => {
                    if !self.validate_vertex(&vertex, parents.as_slice()) {
                        return Err(InsertError::InvalidParents);
                    }
                },
                None => {
                    return Err(InsertError::InvalidParents);
                },
            }
        }
        assert(insert_fault(self@, vertex@, cert@, v_hash) is None);
        let ghost vertex_view = vertex@;
        self.vertices.insert(v_hash, vertex);
        self.certs.insert(v_hash, cert);
        self.round_to_vertices.append(round, v_hash);
        proof {
            let target = with_certified(old(self)@, vertex_view, cert@, v_hash);
            assert(self@.vertices =~= target.vertices);
            assert(self@.certs =~= target.certs);
            assert forall|r: u64| #[trigger] (self@.rounds)(r) == (target.rounds)(r) by {
                assert(self@.round_list(r) == target.round_list(r));
            }
            assert(self@.rounds =~= target.rounds);
            assert(self@ =~= target);
            lemma_insert_keeps_wf(old(self)@, vertex_view, cert@, v_hash);
        }
        Ok(())
    }

    /// Takes a certified vertex into the store, unless one of six checks
    /// fails: the certificate is for `v_hash`; it carries signatures of
    /// n - f distinct signers; no other vertex is known under `v_hash`; the
    /// vertex is not certified yet; its author has no other certified vertex
    /// in its round; and, past round 0, its parent indices stand for valid
    /// parents. A refused vertex leaves the store as it was.
    pub fn insert_certified(&mut self, cv: CertifiedVertex, v_hash: Digest) -> (r: Result<
        (),
        InsertError,
    >)
        requires
            old(self).wf(),
        ensures
            final(self).wf(),
            match r {
                Ok(_) => insert_fault(
                    old(self)@,
                    cv@.vertex,
                    CertificateView::Partial(cv@.coa),
                    v_hash,
                ) is None && final(self)@ =~= with_certified(
                    old(self)@,
                    cv@.vertex,
                    CertificateView::Partial(cv@.coa),
                    v_hash,
                ),
                Err(e) => insert_fault(
                    old(self)@,
                    cv@.vertex,
                    CertificateView::Partial(cv@.coa),
                    v_hash,
                ) == Some(e) && final(self)@ == old(self)@,
            },
    {
        let CertifiedVertex { vertex, coa } = cv;
        self.insert_with(vertex, Certificate::Partial(coa), v_hash)
    }

    /// Takes a vertex with its aggregated certificate into the store, under
    /// the same checks as `insert_certified`; the certificate carries a
    /// quorum where its bitmap names at least n - f signers.
    pub fn insert_aggregated(&mut self, cv: AggregatedCertifiedVertex, v_hash: Digest) -> (r:
        Result<(), InsertError>)
        requires
            old(self).wf(),
        ensures
            final(self).wf(),
            match r {
                Ok(_) => insert_fault(
                    old(self)@,
                    cv@.vertex,
                    CertificateView::Aggregated(cv@.agg_coa),
                    v_hash,
                ) is None && final(self)@ =~= with_certified(
                    old(self)@,
                    cv@.vertex,
                    CertificateView::Aggregated(cv@.agg_coa),
                    v_hash,
                ),
                Err(e) => insert_fault(
                    old(self)@,
                    cv@.vertex,
                    CertificateView::Aggregated(cv@.agg_coa),
                    v_hash,
                ) == Some(e) && final(self)@ == old(self)@,
            },
    {
        let AggregatedCertifiedVertex { vertex, agg_coa } = cv;
        self.insert_with(vertex, Certificate::Aggregated(agg_coa), v_hash)
    }

    /// The parents of the vertices of `current`, each once. The vertices
    /// are certified vertices of round `round`.
    fn next_layer(&self, current: &Vec<Digest>, round: u64) -> (next: Vec<Digest>)
        requires
            self.wf(),
            round > 0,
            forall|i: int|
                0 <= i < current@.len() ==> self@.certs.contains_key(#[trigger] current@[i])
                    && self@.vertices[current@[i]].round == round,
        ensures
            next@.no_duplicates(),
            forall|h: Digest|
                next@.contains(h) <==> self@.parent_of_some(current@, current@.len() as int, h),
    {
        let below: u64 = round - 1;
        let mut next: Vec<Digest> = Vec::new();
        let mut i: usize = 0;
        while i < current.len()
            invariant
                i <= current.len(),
                self.wf(),
                round > 0,
                below == round - 1,
                forall|i: int|
                    0 <= i < current@.len() ==> self@.certs.contains_key(#[trigger] current@[i])
                        && self@.vertices[current@[i]].round == round,
                next@.no_duplicates(),
                forall|h: Digest| next@.contains(h) <==> self@.parent_of_some(current@, i as int, h),
            decreases current.len() - i,
        {
            let child: Digest = current[i];
            assert(self@.certs.contains_key(current@[i as int]));
            let vertex: &Vertex = match self.vertices.get(&child) {
                Some(v) => v,
                None => {
                    // a certified vertex is known
                    assert(false);
                    return next;
                },
            };
            let mut k: usize = 0;
            while k < vertex.parent_indices.len()
                invariant
                    k <= vertex.parent_indices.len(),
                    i < current.len(),
                    child == current@[i as int],
                    self.wf(),
                    round > 0,
                    below == round - 1,
                    self@.vertices.contains_key(child),
                    self@.certs.contains_key(child),
                    self@.vertices[child] == vertex@,
                    vertex@.round == round,
                    next@.no_duplicates(),
                    forall|h: Digest|
                        next@.contains(h) <==> self@.parent_of_some(current@, i as int, h)
                            || self@.parent_via_some(child, k as int, h),
                decreases vertex.parent_indices.len() - k,
            {
                let idx: u32 = vertex.parent_indices[k];
                let ghost before = next@;
                let p: Digest = match self.round_to_vertices.at(below, idx as usize) {
                    Some(p) => p,
                    None => {
                        // the indices of a certified vertex are in range
                        assert(self@.resolvable(vertex@.round, vertex@.parent_indices));
                        assert(vertex@.parent_indices[k as int] < self@.round_list(below).len());
                        assert(false);
                        return next;
                    },
                };
                if !hash_list_contains(&next, &p) {
                    next.push(p);
                }
                proof {
                    assert(self@.parent_via(child, k as int, p));
                    assert forall|h: Digest| next@.contains(h) <==> (before.contains(h) || h
                        == p) by {
                        if next@.contains(h) {
                            let x = choose|x: int| 0 <= x < next@.len() && next@[x] == h;
                            if x < before.len() {
                                assert(before[x] == h);
                            }
                        }
                        if before.contains(h) {
                            let x = choose|x: int| 0 <= x < before.len() && before[x] == h;
                            assert(next@[x] == h);
                        }
                        if h == p && !before.contains(p) {
                            assert(next@[before.len() as int] == h);
                        }
                    }
                    assert forall|h: Digest|
                        self@.parent_via_some(child, k + 1, h) <==> (self@.parent_via_some(
                            child,
                            k as int,
                            h,
                        ) || h == p) by {
                        if self@.parent_via_some(child, k + 1, h) {
                            let m = choose|m: int|
                                0 <= m < k + 1 && #[trigger] self@.parent_via(child, m, h);
                            if m < k {
                                assert(0 <= m < k && self@.parent_via(child, m, h));
                            }
                        }
                        if self@.parent_via_some(child, k as int, h) {
                            let m = choose|m: int|
                                0 <= m < k && #[trigger] self@.parent_via(child, m, h);
                            assert(0 <= m < k + 1 && self@.parent_via(child, m, h));
                        }
                        if h == p {
                            assert(0 <= k < k + 1 && self@.parent_via(child, k as int, h));
                        }
                    }
                    assert forall|h: Digest|
                        next@.contains(h) <==> self@.parent_of_some(current@, i as int, h)
                            || self@.parent_via_some(child, (k + 1) as int, h) by {
                        assert(before.contains(h) <==> self@.parent_of_some(current@, i as int, h)
                            || self@.parent_via_some(child, k as int, h));
                        assert(next@.contains(h) <==> (before.contains(h) || h == p));
                        assert(self@.parent_via_some(child, k + 1, h) <==> (
                        self@.parent_via_some(child, k as int, h) || h == p));
                    }
                }
                k = k + 1;
            }
            proof {
                assert forall|h: Digest|
                    self@.parent_of_some(current@, i + 1, h) <==> (self@.parent_of_some(
                        current@,
                        i as int,
                        h,
                    ) || self@.parent_via_some(child, k as int, h)) by {
                    if self@.parent_via_some(child, k as int, h) {
                        let m = choose|m: int|
                            0 <= m < k && #[trigger] self@.parent_via(child, m, h);
                        assert(self@.parent_of(current@[i as int], h));
                        assert(0 <= i < i + 1 && self@.parent_of(current@[i as int], h));
                    }
                    if self@.parent_of_some(current@, i + 1, h) {
                        let c = choose|c: int|
                            0 <= c < i + 1 && self@.parent_of(#[trigger] current@[c], h);
                        if c == i {
                            let m = choose|m: int| #[trigger] self@.parent_via(child, m, h);
                            assert(0 <= m < k && self@.parent_via(child, m, h));
                        } else {
                            assert(0 <= c < i && self@.parent_of(current@[c], h));
                        }
                    }
                    if self@.parent_of_some(current@, i as int, h) {
                        let c = choose|c: int|
                            0 <= c < i && self@.parent_of(#[trigger] current@[c], h);
                        assert(0 <= c < i + 1 && self@.parent_of(current@[c], h));
                    }
                }
                assert forall|h: Digest|
                    next@.contains(h) <==> self@.parent_of_some(current@, (i + 1) as int, h) by {
                    assert(next@.contains(h) <==> self@.parent_of_some(current@, i as int, h)
                        || self@.parent_via_some(child, k as int, h));
                    assert(self@.parent_of_some(current@, i + 1, h) <==> (self@.parent_of_some(
                        current@,
                        i as int,
                        h,
                    ) || self@.parent_via_some(child, k as int, h)));
                }
            }
            i = i + 1;
        }
        next
    }

    /// The anchor of a round under a seed: the certified vertex of the
    /// round that comes first in the order of the sort keys; `None` where
    /// the round has no certified vertex.
    pub fn select_anchor(&self, round: u64, seed: &Digest) -> (r: Option<Digest>)
        ensures
            r is None <==> self@.round_list(round).len() == 0,
            r is Some ==> self@.round_list(round).contains(r.unwrap()) && forall|i: int|
                0 <= i < self@.round_list(round).len() ==> key_le(
                    r.unwrap(),
                    #[trigger] self@.round_list(round)[i],
                    *seed,
                ),
    {
        let count: usize = self.round_to_vertices.count(round);
        if count == 0 {
            return None;
        }
        let ghost list = self@.round_list(round);
        let mut best: Digest = self.round_to_vertices.at(round, 0).unwrap();
        let mut best_key: Digest = vrf_sort_key(&best, seed);
        proof {
            lemma_key_le_reflexive(best, *seed);
        }
        let mut i: usize = 1;
        while i < count
            invariant
                1 <= i <= count,
                list == self@.round_list(round),
                count == list.len(),
                best_key@ == crate::linearize::sort_key(best, *seed),
                exists|k: int| 0 <= k < i && list[k] == best,
                forall|k: int| 0 <= k < i ==> key_le(best, #[trigger] list[k], *seed),
            decreases count - i,
        {
            let h: Digest = self.round_to_vertices.at(round, i).unwrap();
            let key: Digest = vrf_sort_key(&h, seed);
            if !key_le_given(&best, &best_key, &h, &key, Ghost(*seed)) {
                proof {
                    lemma_key_le_total(best, h, *seed);
                    lemma_key_le_reflexive(h, *seed);
                    assert forall|k: int| 0 <= k < i + 1 implies key_le(
                        h,
                        #[trigger] list[k],
                        *seed,
                    ) by {
                        if k < i {
                            lemma_key_le_transitive(h, best, list[k], *seed);
                        }
                    }
                }
                best = h;
                best_key = key;
            }
            i = i + 1;
        }
        Some(best)
    }

    /// Linearizes what `anchor_hash` commits: the vertices reached from
    /// the anchor by parent links in rounds above the committed round, in
    /// ascending rounds, and within a round ascending by sort key under
    /// `seed`. `None` exactly where the anchor is not certified.
    pub fn aether_sort(&self, anchor_hash: &Digest, seed: &Digest) -> (r: Option<Vec<Digest>>)
        requires
            self.wf(),
        ensures
            r is Some <==> self@.certified(*anchor_hash),
            r is Some ==> self@.is_linearization(r.unwrap()@, *anchor_hash, *seed),
    {
        if !self.certs.contains_key(anchor_hash) {
            return None;
        }
        let top: u64 = match self.vertices.get(anchor_hash) {
            Some(v) => v.round,
            None => {
                return None;
            },
        };
        let committed: u64 = self.committed_round;
        let ghost dag = self@;
        let ghost anchor = *anchor_hash;
        let mut log: Vec<Digest> = Vec::new();
        let mut current: Vec<Digest> = Vec::new();
        current.push(*anchor_hash);
        let mut r: u64 = if top > committed {
            top
        } else {
            committed
        };
        proof {
            assert forall|h: Digest| current@.contains(h) <==> dag.in_layer(
                anchor,
                top as int,
                h,
            ) by {
                if h == anchor {
                    assert(current@[0] == h);
                }
            }
        }
        while r > committed
            invariant
                self.wf(),
                dag == self@,
                anchor == *anchor_hash,
                dag.certified(anchor),
                top == dag.vertices[anchor].round,
                committed == dag.committed_round,
                committed <= r,
                r <= top || r == committed,
                r > committed ==> current@.no_duplicates(),
                r > committed ==> forall|h: Digest|
                    current@.contains(h) <==> dag.in_layer(anchor, r as int, h),
                log@.no_duplicates(),
                forall|h: Digest|
                    log@.contains(h) <==> exists|q: int|
                        r < q <= top && #[trigger] dag.in_layer(anchor, q, h),
                forall|i: int, j: int|
                    0 <= i < j < log@.len() ==> dag.log_le(
                        #[trigger] log@[i],
                        #[trigger] log@[j],
                        *seed,
                    ),
                forall|i: int| 0 <= i < log@.len() ==> dag.vertices[#[trigger] log@[i]].round > r,
            decreases r,
        {
            proof {
                assert forall|i: int| 0 <= i < current@.len() implies dag.certs.contains_key(
                    #[trigger] current@[i],
                ) && dag.vertices[current@[i]].round == r by {
                    assert(current@.contains(current@[i]));
                    lemma_layer_members(dag, anchor, r as int, current@[i]);
                }
            }
            let mut sorted: Vec<Digest> = sort_layer(&current, seed);
            let next: Vec<Digest> = if r - 1 > committed {
                self.next_layer(&current, r)
            } else {
                Vec::new()
            };
            let ghost layer = sorted@;
            let ghost above = log@;
            sorted.append(&mut log);
            log = sorted;
            proof {
                let joined = log@;
                assert(joined =~= layer + above);
                assert forall|i: int| 0 <= i < layer.len() implies dag.vertices[
                    #[trigger] layer[i]].round == r by {
                    assert(layer.contains(layer[i]));
                    assert(current@.contains(layer[i]));
                    lemma_layer_members(dag, anchor, r as int, layer[i]);
                }
                assert forall|i: int| 0 <= i < joined.len() implies dag.vertices[
                    #[trigger] joined[i]].round > r - 1 by {
                    if i < layer.len() {
                        assert(joined[i] == layer[i]);
                    } else {
                        assert(joined[i] == above[i - layer.len()]);
                    }
                }
                assert forall|i: int, j: int| 0 <= i < j < joined.len() implies joined[i]
                    != joined[j] && dag.log_le(#[trigger] joined[i], #[trigger] joined[j], *seed) by {
                    if j < layer.len() {
                        assert(joined[i] == layer[i] && joined[j] == layer[j]);
                        assert(key_le(layer[i], layer[j], *seed));
                    } else if i < layer.len() {
                        assert(joined[i] == layer[i] && joined[j] == above[j - layer.len()]);
                    } else {
                        assert(joined[i] == above[i - layer.len()] && joined[j] == above[j
                            - layer.len()]);
                    }
                }
                assert forall|h: Digest|
                    joined.contains(h) <==> exists|q: int|
                        r - 1 < q <= top && #[trigger] dag.in_layer(anchor, q, h) by {
                    if joined.contains(h) {
                        let x = choose|x: int| 0 <= x < joined.len() && joined[x] == h;
                        if x < layer.len() {
                            assert(layer[x] == h);
                            assert(layer.contains(h));
                            assert(dag.in_layer(anchor, r as int, h));
                        } else {
                            assert(above[x - layer.len()] == h);
                            assert(above.contains(h));
                            let q = choose|q: int|
                                r < q <= top && #[trigger] dag.in_layer(anchor, q, h);
                            assert(r - 1 < q <= top && dag.in_layer(anchor, q, h));
                        }
                    }
                    if exists|q: int| r - 1 < q <= top && #[trigger] dag.in_layer(anchor, q, h) {
                        let q = choose|q: int|
                            r - 1 < q <= top && #[trigger] dag.in_layer(anchor, q, h);
                        if q == r {
                            assert(current@.contains(h));
                            assert(layer.contains(h));
                            let x = choose|x: int| 0 <= x < layer.len() && layer[x] == h;
                            assert(joined[x] == h);
                        } else {
                            assert(r < q <= top && dag.in_layer(anchor, q, h));
                            assert(above.contains(h));
                            let x = choose|x: int| 0 <= x < above.len() && above[x] == h;
                            assert(joined[x + layer.len()] == h);
                        }
                    }
                }
                if r - 1 > committed {
                    assert forall|h: Digest| next@.contains(h) <==> dag.in_layer(
                        anchor,
                        r - 1,
                        h,
                    ) by {
                        if next@.contains(h) {
                            assert(dag.parent_of_some(current@, current@.len() as int, h));
                            let i = choose|i: int|
                                0 <= i < current@.len() && dag.parent_of(
                                    #[trigger] current@[i],
                                    h,
                                );
                            assert(current@.contains(current@[i]));
                            assert(dag.layer(anchor, (r - 1) + 1).contains(current@[i]));
                        }
                        if dag.in_layer(anchor, r - 1, h) {
                            let upper = dag.layer(anchor, (r - 1) + 1);
                            let c = choose|c: Digest| #[trigger]
                                upper.contains(c) && dag.parent_of(c, h);
                            assert(dag.in_layer(anchor, r as int, c));
                            assert(current@.contains(c));
                            let i = choose|i: int| 0 <= i < current@.len() && current@[i] == c;
                            assert(dag.parent_of(current@[i], h));
                            assert(dag.parent_of_some(current@, current@.len() as int, h));
                        }
                    }
                }
            }
            current = next;
            r = r - 1;
        }
        proof {
            assert forall|h: Digest| log@.contains(h) <==> dag.reachable(anchor, h) by {
                if log@.contains(h) {
                    let q = choose|q: int| r < q <= top && #[trigger] dag.in_layer(anchor, q, h);
                    assert(committed < q <= top && dag.in_layer(anchor, q, h));
                }
                if dag.reachable(anchor, h) {
                    let q = choose|q: int|
                        committed < q <= top && #[trigger] dag.in_layer(anchor, q, h);
                    assert(r < q <= top && dag.in_layer(anchor, q, h));
                }
            }
        }
        Some(log)
    }

    /// Decides whether `parent_hashes` are valid parents of `vertex`: there
    /// are n - f of them, each is a certified vertex of the round before,
    /// and no two have the same author.
    pub fn validate_vertex(&self, vertex: &Vertex, parent_hashes: &[Digest]) -> (ok: bool)
        requires
            self.wf(),
        ensures
            ok == self@.parents_valid(vertex@.round, parent_hashes@),
    {
        if parent_hashes.len() != self.n - self.f {
            return false;
        }
        let mut authors: Vec<ValidatorId> = Vec::new();
        let mut i: usize = 0;
        while i < parent_hashes.len()
            invariant
                i <= parent_hashes.len(),
                self.wf(),
                authors@.len() == i,
                forall|k: int|
                    0 <= k < i ==> {
                        &&& self@.vertices.contains_key(#[trigger] parent_hashes@[k])
                        &&& self@.certs.contains_key(parent_hashes@[k])
                        &&& self@.vertices[parent_hashes@[k]].round + 1 == vertex@.round
                        &&& authors@[k] == self@.vertices[parent_hashes@[k]].author
                    },
                forall|j: int, k: int|
                    0 <= j < k < i ==> self@.vertices[#[trigger] parent_hashes@[j]].author
                        != self@.vertices[#[trigger] parent_hashes@[k]].author,
            decreases parent_hashes.len() - i,
        {
            let p: &Digest = &parent_hashes[i];
            match self.vertices.get(p) {
                Some(parent) => {
                    if parent.round == u64::MAX || parent.round + 1 != vertex.round {
                        return false;
                    }
                    if id_list_contains(&authors, parent.author) {
                        proof {
                            let k = choose|k: int|
                                0 <= k < authors@.len() && authors@[k] == parent.author;
                            assert(self@.vertices[parent_hashes@[k]].author
                                == self@.vertices[parent_hashes@[i as int]].author);
                        }
                        return false;
                    }
                    if !self.certs.contains_key(p) {
                        return false;
                    }
                    authors.push(parent.author);
                },
                None => {
                    return false;
                },
            }
            i = i + 1;
        }
        true
    }
}

/// What is reached from a certified anchor in round `r` is certified and
/// of round `r`.
pub proof fn lemma_layer_members(dag: DagView, anchor: Digest, r: int, h: Digest)
    requires
        dag.wf(),
        dag.certified(anchor),
        dag.in_layer(anchor, r, h),
    ensures
        dag.certified(h),
        dag.vertices[h].round == r,
    decreases dag.vertices[anchor].round - r,
{
    if r < dag.vertices[anchor].round {
        let above = dag.layer(anchor, r + 1);
        let c = choose|c: Digest| #[trigger] above.contains(c) && dag.parent_of(c, h);
        lemma_layer_members(dag, anchor, r + 1, c);
        let k = choose|k: int| #[trigger] dag.parent_via(c, k, h);
        let below = dag.round_list((dag.vertices[c].round - 1) as u64);
        let idx = dag.vertices[c].parent_indices[k] as int;
        assert(dag.certs.contains_key(below[idx]));
    }
}

/// Two sequences without duplicates that hold the same hashes in the order
/// of the log are the same sequence.
pub proof fn lemma_same_order_same_log(dag: DagView, seed: Digest, a: Seq<Digest>, b: Seq<Digest>)
    requires
        a.no_duplicates(),
        b.no_duplicates(),
        forall|h: Digest| a.contains(h) <==> b.contains(h),
        forall|i: int, j: int|
            0 <= i < j < a.len() ==> dag.log_le(#[trigger] a[i], #[trigger] a[j], seed),
        forall|i: int, j: int|
            0 <= i < j < b.len() ==> dag.log_le(#[trigger] b[i], #[trigger] b[j], seed),
    ensures
        a == b,
    decreases a.len(),
{
    if a.len() == 0 {
        if b.len() > 0 {
            assert(b.contains(b[0]));
        }
        assert(a =~= b);
    } else {
        assert(a.contains(a[0]));
        assert(b.contains(a[0]));
        assert(b.contains(b[0]));
        assert(a.contains(b[0]));
        let i = choose|i: int| 0 <= i < a.len() && a[i] == b[0];
        let j = choose|j: int| 0 <= j < b.len() && b[j] == a[0];
        if i != 0 && j != 0 {
            assert(dag.log_le(a[0], a[i], seed));
            assert(dag.log_le(b[0], b[j], seed));
            lemma_key_le_antisymmetric(a[0], b[0], seed);
        }
        assert(a[0] == b[0]);
        let ta = a.drop_first();
        let tb = b.drop_first();
        assert forall|h: Digest| ta.contains(h) <==> tb.contains(h) by {
            if ta.contains(h) {
                let k = choose|k: int| 0 <= k < ta.len() && ta[k] == h;
                assert(a[k + 1] == h);
                assert(a.contains(h));
                let m = choose|m: int| 0 <= m < b.len() && b[m] == h;
                assert(m != 0);
                assert(tb[m - 1] == h);
            }
            if tb.contains(h) {
                let k = choose|k: int| 0 <= k < tb.len() && tb[k] == h;
                assert(b[k + 1] == h);
                assert(b.contains(h));
                let m = choose|m: int| 0 <= m < a.len() && a[m] == h;
                assert(m != 0);
                assert(ta[m - 1] == h);
            }
        }
        assert forall|p: int, q: int| 0 <= p < q < ta.len() implies dag.log_le(
            #[trigger] ta[p],
            #[trigger] ta[q],
            seed,
        ) by {
            assert(dag.log_le(a[p + 1], a[q + 1], seed));
        }
        assert forall|p: int, q: int| 0 <= p < q < tb.len() implies dag.log_le(
            #[trigger] tb[p],
            #[trigger] tb[q],
            seed,
        ) by {
            assert(dag.log_le(b[p + 1], b[q + 1], seed));
        }
        lemma_same_order_same_log(dag, seed, ta, tb);
        assert(a =~= seq![a[0]] + ta);
        assert(b =~= seq![b[0]] + tb);
    }
}

/// The linearization from an anchor under a seed is determined by the
/// store: two validators with the same store, anchor and seed have the same
/// log.
pub proof fn lemma_linearization_deterministic(
    dag: DagView,
    anchor: Digest,
    seed: Digest,
    a: Seq<Digest>,
    b: Seq<Digest>,
)
    requires
        dag.is_linearization(a, anchor, seed),
        dag.is_linearization(b, anchor, seed),
    ensures
        a == b,
{
    lemma_same_order_same_log(dag, seed, a, b);
}

/// Decides whether `id` occurs in `list`.
pub fn id_list_contains(list: &Vec<ValidatorId>, id: ValidatorId) -> (r: bool)
    ensures
        r == (exists|k: int| 0 <= k < list@.len() && list@[k] == id),
{
    let mut i: usize = 0;
    while i < list.len()
        invariant
            i <= list.len(),
            forall|k: int| 0 <= k < i ==> list@[k] != id,
        decreases list.len() - i,
    {
        if list[i] == id {
            return true;
        }
        i = i + 1;
    }
    false
}

/// Learning of more vertices keeps a store consistent.
pub proof fn lemma_more_vertices(old_dag: DagView, new_dag: DagView)
    requires
        old_dag.wf(),
        forall|h: Digest| #[trigger]
            old_dag.vertices.contains_key(h) ==> new_dag.vertices.contains_key(h)
                && new_dag.vertices[h] == old_dag.vertices[h],
        new_dag.certs == old_dag.certs,
        new_dag.rounds == old_dag.rounds,
        new_dag.n == old_dag.n,
        new_dag.f == old_dag.f,
    ensures
        new_dag.wf(),
{
    assert forall|h: Digest| #[trigger] new_dag.certs.contains_key(h) implies new_dag.vertices[h]
        == old_dag.vertices[h] && new_dag.vertices.contains_key(h) by {
        assert(old_dag.certs.contains_key(h));
        assert(old_dag.vertices.contains_key(h));
    }
    assert forall|r: u64, i: int| 0 <= i < new_dag.round_list(r).len() implies {
        &&& new_dag.certs.contains_key(#[trigger] new_dag.round_list(r)[i])
        &&& new_dag.vertices[new_dag.round_list(r)[i]].round == r
    } by {
        assert(old_dag.certs.contains_key(old_dag.round_list(r)[i]));
    }
    assert forall|h: Digest| #[trigger]
        new_dag.certs.contains_key(h) && new_dag.vertices[h].round > 0 implies {
        &&& new_dag.resolvable(new_dag.vertices[h].round, new_dag.vertices[h].parent_indices)
        &&& new_dag.parents_valid(
            new_dag.vertices[h].round,
            new_dag.resolve(new_dag.vertices[h].round, new_dag.vertices[h].parent_indices),
        )
    } by {
        let v = old_dag.vertices[h];
        let parents = old_dag.resolve(v.round, v.parent_indices);
        assert(new_dag.resolve(v.round, v.parent_indices) =~= parents);
        assert(old_dag.parents_valid(v.round, parents));
        assert forall|i: int| 0 <= i < parents.len() implies {
            &&& new_dag.vertices.contains_key(#[trigger] parents[i])
            &&& new_dag.certs.contains_key(parents[i])
            &&& new_dag.vertices[parents[i]].round + 1 == v.round
        } by {
            assert(old_dag.certs.contains_key(parents[i]));
        }
        assert forall|i: int, j: int| 0 <= i < j < parents.len() implies new_dag.vertices[
            #[trigger] parents[i]].author != new_dag.vertices[#[trigger] parents[j]].author by {
            assert(old_dag.certs.contains_key(parents[i]));
            assert(old_dag.certs.contains_key(parents[j]));
        }
    }
}

} // verus!
