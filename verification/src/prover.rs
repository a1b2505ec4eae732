//! The succinct-proof structure, its binary codec, and the verifier.
//!
//! The encoding is an internal, versioned binary contract between this
//! system's producer and verifier: every integer is eight bytes
//! little-endian, and every list is its length followed by its elements.
//! `spec_encode_proof` and `spec_decode_proof` state the format; the
//! executable encoder and decoder are proved to implement them exactly.
//! Field elements are residues of the Goldilocks prime; extension elements
//! are pairs of them.

use vstd::prelude::*;

verus! {

/// The Goldilocks prime `2^64 - 2^32 + 1`; field elements are residues.
pub const GOLDILOCKS_MODULUS: u64 = 18446744069414584321;

/// Largest accepted length of the FRI final polynomial.
pub const FINAL_POLY_MAX_COEFFS: usize = 1024;

/// A Merkle-cap entry: four base field elements.
#[derive(Debug, Clone, Copy, PartialEq, Eq, Structural)]
pub struct Digest {
    pub e0: u64,
    pub e1: u64,
    pub e2: u64,
    pub e3: u64,
}

/// A quadratic extension field element: two base field coefficients.
#[derive(Debug, Clone, Copy, PartialEq, Eq, Structural)]
pub struct ExtElem {
    pub c0: u64,
    pub c1: u64,
}

/// One FRI folding step of a query: the sibling value and its opening path.
#[derive(Debug, PartialEq, Eq)]
pub struct FRIQueryStep {
    pub sibling_value: ExtElem,
    pub opening_proof: Vec<Digest>,
}

/// One FRI query: openings into the initial trees and the per-layer steps.
#[derive(Debug, PartialEq, Eq)]
pub struct QueryProof {
    pub initial_trees_proof: Vec<Vec<u64>>,
    pub steps: Vec<FRIQueryStep>,
}

/// The FRI sub-proof: per-layer commitments, per-query opening proofs, and
/// the final low-degree polynomial.
#[derive(Debug, PartialEq, Eq)]
pub struct FRIProof {
    pub commit_phase_caps: Vec<Vec<Digest>>,
    pub query_proofs: Vec<QueryProof>,
    pub final_poly: Vec<ExtElem>,
}

/// A succinct proof: trace commitment, quotient-chunk commitment, and the
/// FRI sub-proof.
#[derive(Debug, PartialEq, Eq)]
pub struct STARKProof {
    pub trace_cap: Vec<Digest>,
    pub quotient_chunks_cap: Vec<Digest>,
    pub fri_proof: FRIProof,
}

/// Mathematical value of a `FRIQueryStep`.
pub struct StepView {
    pub sibling_value: ExtElem,
    pub opening_proof: Seq<Digest>,
}

/// Mathematical value of a `QueryProof`.
pub struct QueryView {
    pub initial_trees_proof: Seq<Seq<u64>>,
    pub steps: Seq<StepView>,
}

/// Mathematical value of a `FRIProof`.
pub struct FriView {
    pub commit_phase_caps: Seq<Seq<Digest>>,
    pub query_proofs: Seq<QueryView>,
    pub final_poly: Seq<ExtElem>,
}

/// Mathematical value of a `STARKProof`.
pub struct ProofView {
    pub trace_cap: Seq<Digest>,
    pub quotient_chunks_cap: Seq<Digest>,
    pub fri: FriView,
}

/// Views of a sequence of digest lists.
pub open spec fn caps_view(s: Seq<Vec<Digest>>) -> Seq<Seq<Digest>> {
    s.map_values(|c: Vec<Digest>| c@)
}

/// Views of a sequence of integer lists.
pub open spec fn rows_view(s: Seq<Vec<u64>>) -> Seq<Seq<u64>> {
    s.map_values(|c: Vec<u64>| c@)
}

/// Views of a sequence of steps.
pub open spec fn steps_view(s: Seq<FRIQueryStep>) -> Seq<StepView> {
    s.map_values(|x: FRIQueryStep| x@)
}

/// Views of a sequence of queries.
pub open spec fn queries_view(s: Seq<QueryProof>) -> Seq<QueryView> {
    s.map_values(|x: QueryProof| x@)
}

impl View for FRIQueryStep {
    type V = StepView;

    open spec fn view(&self) -> StepView {
        StepView { sibling_value: self.sibling_value, opening_proof: self.opening_proof@ }
    }
}

impl View for QueryProof {
    type V = QueryView;

    open spec fn view(&self) -> QueryView {
        QueryView {
            initial_trees_proof: rows_view(self.initial_trees_proof@),
            steps: steps_view(self.steps@),
        }
    }
}

impl View for FRIProof {
    type V = FriView;

    open spec fn view(&self) -> FriView {
        FriView {
            commit_phase_caps: caps_view(self.commit_phase_caps@),
            query_proofs: queries_view(self.query_proofs@),
            final_poly: self.final_poly@,
        }
    }
}

impl View for STARKProof {
    type V = ProofView;

    open spec fn view(&self) -> ProofView {
        ProofView {
            trace_cap: self.trace_cap@,
            quotient_chunks_cap: self.quotient_chunks_cap@,
            fri: self.fri_proof@,
        }
    }
}

// ---------------------------------------------------------------------
// Encoding: every integer is eight bytes little-endian; every list is its
// length followed by its elements.
// ---------------------------------------------------------------------

/// The eight little-endian bytes of an integer.
pub open spec fn enc_u64(x: u64) -> Seq<u8> {
    seq![
        (x % 256) as u8,
        ((x / 256) % 256) as u8,
        ((x / 65536) % 256) as u8,
        ((x / 16777216) % 256) as u8,
        ((x / 4294967296) % 256) as u8,
        ((x / 1099511627776) % 256) as u8,
        ((x / 281474976710656) % 256) as u8,
        ((x / 72057594037927936) % 256) as u8,
    ]
}

pub open spec fn enc_digest(d: Digest) -> Seq<u8> {
    enc_u64(d.e0) + enc_u64(d.e1) + enc_u64(d.e2) + enc_u64(d.e3)
}

pub open spec fn enc_ext(e: ExtElem) -> Seq<u8> {
    enc_u64(e.c0) + enc_u64(e.c1)
}

pub open spec fn enc_digest_seq(s: Seq<Digest>) -> Seq<u8>
    decreases s.len(),
{
    if s.len() == 0 {
        Seq::<u8>::empty()
    } else {
        enc_digest(s[0]) + enc_digest_seq(s.drop_first())
    }
}

pub open spec fn enc_digest_vec(s: Seq<Digest>) -> Seq<u8> {
    enc_u64(s.len() as u64) + enc_digest_seq(s)
}

pub open spec fn enc_cap_seq(s: Seq<Seq<Digest>>) -> Seq<u8>
    decreases s.len(),
{
    if s.len() == 0 {
        Seq::<u8>::empty()
    } else {
        enc_digest_vec(s[0]) + enc_cap_seq(s.drop_first())
    }
}

pub open spec fn enc_cap_vec(s: Seq<Seq<Digest>>) -> Seq<u8> {
    enc_u64(s.len() as u64) + enc_cap_seq(s)
}

pub open spec fn enc_u64_seq(s: Seq<u64>) -> Seq<u8>
    decreases s.len(),
{
    if s.len() == 0 {
        Seq::<u8>::empty()
    } else {
        enc_u64(s[0]) + enc_u64_seq(s.drop_first())
    }
}

pub open spec fn enc_u64_vec(s: Seq<u64>) -> Seq<u8> {
    enc_u64(s.len() as u64) + enc_u64_seq(s)
}

pub open spec fn enc_row_seq(s: Seq<Seq<u64>>) -> Seq<u8>
    decreases s.len(),
{
    if s.len() == 0 {
        Seq::<u8>::empty()
    } else {
        enc_u64_vec(s[0]) + enc_row_seq(s.drop_first())
    }
}

pub open spec fn enc_row_vec(s: Seq<Seq<u64>>) -> Seq<u8> {
    enc_u64(s.len() as u64) + enc_row_seq(s)
}

pub open spec fn enc_ext_seq(s: Seq<ExtElem>) -> Seq<u8>
    decreases s.len(),
{
    if s.len() == 0 {
        Seq::<u8>::empty()
    } else {
        enc_ext(s[0]) + enc_ext_seq(s.drop_first())
    }
}

pub open spec fn enc_ext_vec(s: Seq<ExtElem>) -> Seq<u8> {
    enc_u64(s.len() as u64) + enc_ext_seq(s)
}

pub open spec fn enc_step(s: StepView) -> Seq<u8> {
    enc_ext(s.sibling_value) + enc_digest_vec(s.opening_proof)
}

pub open spec fn enc_step_seq(s: Seq<StepView>) -> Seq<u8>
    decreases s.len(),
{
    if s.len() == 0 {
        Seq::<u8>::empty()
    } else {
        enc_step(s[0]) + enc_step_seq(s.drop_first())
    }
}

pub open spec fn enc_step_vec(s: Seq<StepView>) -> Seq<u8> {
    enc_u64(s.len() as u64) + enc_step_seq(s)
}

pub open spec fn enc_query(q: QueryView) -> Seq<u8> {
    enc_row_vec(q.initial_trees_proof) + enc_step_vec(q.steps)
}

pub open spec fn enc_query_seq(s: Seq<QueryView>) -> Seq<u8>
    decreases s.len(),
{
    if s.len() == 0 {
        Seq::<u8>::empty()
    } else {
        enc_query(s[0]) + enc_query_seq(s.drop_first())
    }
}

pub open spec fn enc_query_vec(s: Seq<QueryView>) -> Seq<u8> {
    enc_u64(s.len() as u64) + enc_query_seq(s)
}

pub open spec fn enc_fri(f: FriView) -> Seq<u8> {
    enc_cap_vec(f.commit_phase_caps) + enc_query_vec(f.query_proofs) + enc_ext_vec(f.final_poly)
}

/// The whole encoding of a proof.
pub open spec fn spec_encode_proof(p: ProofView) -> Seq<u8> {
    enc_digest_vec(p.trace_cap) + enc_digest_vec(p.quotient_chunks_cap) + enc_fri(p.fri)
}

// ---------------------------------------------------------------------
// Decoding: the exact inverse reading, cursor-style. Every `dec_*`
// function yields the decoded value and the position after it, or nothing
// when the bytes run out.
// ---------------------------------------------------------------------

/// The integer held in eight little-endian bytes at `pos`.
pub open spec fn u64_le(b: Seq<u8>, pos: int) -> u64 {
    ((b[pos] as int) + (b[pos + 1] as int) * 256 + (b[pos + 2] as int) * 65536 + (b[pos + 3] as int)
        * 16777216 + (b[pos + 4] as int) * 4294967296 + (b[pos + 5] as int) * 1099511627776 + (b[pos
        + 6] as int) * 281474976710656 + (b[pos + 7] as int) * 72057594037927936) as u64
}

pub open spec fn dec_u64(b: Seq<u8>, pos: int) -> Option<(u64, int)> {
    if pos < 0 || pos + 8 > b.len() {
        Option::None
    } else {
        Option::Some((u64_le(b, pos), pos + 8))
    }
}

pub open spec fn dec_digest(b: Seq<u8>, pos: int) -> Option<(Digest, int)> {
    match dec_u64(b, pos) {
        Option::None => Option::None,
        Option::Some((e0, p0)) => match dec_u64(b, p0) {
            Option::None => Option::None,
            Option::Some((e1, p1)) => match dec_u64(b, p1) {
                Option::None => Option::None,
                Option::Some((e2, p2)) => match dec_u64(b, p2) {
                    Option::None => Option::None,
                    Option::Some((e3, p3)) => Option::Some((Digest { e0, e1, e2, e3 }, p3)),
                },
            },
        },
    }
}

pub open spec fn dec_ext(b: Seq<u8>, pos: int) -> Option<(ExtElem, int)> {
    match dec_u64(b, pos) {
        Option::None => Option::None,
        Option::Some((c0, p0)) => match dec_u64(b, p0) {
            Option::None => Option::None,
            Option::Some((c1, p1)) => Option::Some((ExtElem { c0, c1 }, p1)),
        },
    }
}

pub open spec fn dec_digest_seq(b: Seq<u8>, pos: int, n: nat) -> Option<(Seq<Digest>, int)>
    decreases n,
{
    if n == 0 {
        Option::Some((Seq::<Digest>::empty(), pos))
    } else {
        match dec_digest(b, pos) {
            Option::None => Option::None,
            Option::Some((d, p1)) => match dec_digest_seq(b, p1, (n - 1) as nat) {
                Option::None => Option::None,
                Option::Some((s, p2)) => Option::Some((seq![d] + s, p2)),
            },
        }
    }
}

pub open spec fn dec_digest_vec(b: Seq<u8>, pos: int) -> Option<(Seq<Digest>, int)> {
    match dec_u64(b, pos) {
        Option::None => Option::None,
        Option::Some((cnt, p1)) => if cnt > usize::MAX as u64 {
            Option::None
        } else {
            dec_digest_seq(b, p1, cnt as nat)
        },
    }
}

pub open spec fn dec_cap_seq(b: Seq<u8>, pos: int, n: nat) -> Option<(Seq<Seq<Digest>>, int)>
    decreases n,
{
    if n == 0 {
        Option::Some((Seq::<Seq<Digest>>::empty(), pos))
    } else {
        match dec_digest_vec(b, pos) {
            Option::None => Option::None,
            Option::Some((d, p1)) => match dec_cap_seq(b, p1, (n - 1) as nat) {
                Option::None => Option::None,
                Option::Some((s, p2)) => Option::Some((seq![d] + s, p2)),
            },
        }
    }
}

pub open spec fn dec_cap_vec(b: Seq<u8>, pos: int) -> Option<(Seq<Seq<Digest>>, int)> {
    match dec_u64(b, pos) {
        Option::None => Option::None,
        Option::Some((cnt, p1)) => if cnt > usize::MAX as u64 {
            Option::None
        } else {
            dec_cap_seq(b, p1, cnt as nat)
        },
    }
}

pub open spec fn dec_u64_seq(b: Seq<u8>, pos: int, n: nat) -> Option<(Seq<u64>, int)>
    decreases n,
{
    if n == 0 {
        Option::Some((Seq::<u64>::empty(), pos))
    } else {
        match dec_u64(b, pos) {
            Option::None => Option::None,
            Option::Some((d, p1)) => match dec_u64_seq(b, p1, (n - 1) as nat) {
                Option::None => Option::None,
                Option::Some((s, p2)) => Option::Some((seq![d] + s, p2)),
            },
        }
    }
}

pub open spec fn dec_u64_vec(b: Seq<u8>, pos: int) -> Option<(Seq<u64>, int)> {
    match dec_u64(b, pos) {
        Option::None => Option::None,
        Option::Some((cnt, p1)) => if cnt > usize::MAX as u64 {
            Option::None
        } else {
            dec_u64_seq(b, p1, cnt as nat)
        },
    }
}

pub open spec fn dec_row_seq(b: Seq<u8>, pos: int, n: nat) -> Option<(Seq<Seq<u64>>, int)>
    decreases n,
{
    if n == 0 {
        Option::Some((Seq::<Seq<u64>>::empty(), pos))
    } else {
        match dec_u64_vec(b, pos) {
            Option::None => Option::None,
            Option::Some((d, p1)) => match dec_row_seq(b, p1, (n - 1) as nat) {
                Option::None => Option::None,
                Option::Some((s, p2)) => Option::Some((seq![d] + s, p2)),
            },
        }
    }
}

pub open spec fn dec_row_vec(b: Seq<u8>, pos: int) -> Option<(Seq<Seq<u64>>, int)> {
    match dec_u64(b, pos) {
        Option::None => Option::None,
        Option::Some((cnt, p1)) => if cnt > usize::MAX as u64 {
            Option::None
        } else {
            dec_row_seq(b, p1, cnt as nat)
        },
    }
}

pub open spec fn dec_ext_seq(b: Seq<u8>, pos: int, n: nat) -> Option<(Seq<ExtElem>, int)>
    decreases n,
{
    if n == 0 {
        Option::Some((Seq::<ExtElem>::empty(), pos))
    } else {
        match dec_ext(b, pos) {
            Option::None => Option::None,
            Option::Some((d, p1)) => match dec_ext_seq(b, p1, (n - 1) as nat) {
                Option::None => Option::None,
                Option::Some((s, p2)) => Option::Some((seq![d] + s, p2)),
            },
        }
    }
}

pub open spec fn dec_ext_vec(b: Seq<u8>, pos: int) -> Option<(Seq<ExtElem>, int)> {
    match dec_u64(b, pos) {
        Option::None => Option::None,
        Option::Some((cnt, p1)) => if cnt > usize::MAX as u64 {
            Option::None
        } else {
            dec_ext_seq(b, p1, cnt as nat)
        },
    }
}

pub open spec fn dec_step(b: Seq<u8>, pos: int) -> Option<(StepView, int)> {
    match dec_ext(b, pos) {
        Option::None => Option::None,
        Option::Some((sib, p1)) => match dec_digest_vec(b, p1) {
            Option::None => Option::None,
            Option::Some((op, p2)) => Option::Some(
                (StepView { sibling_value: sib, opening_proof: op }, p2),
            ),
        },
    }
}

pub open spec fn dec_step_seq(b: Seq<u8>, pos: int, n: nat) -> Option<(Seq<StepView>, int)>
    decreases n,
{
    if n == 0 {
        Option::Some((Seq::<StepView>::empty(), pos))
    } else {
        match dec_step(b, pos) {
            Option::None => Option::None,
            Option::Some((d, p1)) => match dec_step_seq(b, p1, (n - 1) as nat) {
                Option::None => Option::None,
                Option::Some((s, p2)) => Option::Some((seq![d] + s, p2)),
            },
        }
    }
}

pub open spec fn dec_step_vec(b: Seq<u8>, pos: int) -> Option<(Seq<StepView>, int)> {
    match dec_u64(b, pos) {
        Option::None => Option::None,
        Option::Some((cnt, p1)) => if cnt > usize::MAX as u64 {
            Option::None
        } else {
            dec_step_seq(b, p1, cnt as nat)
        },
    }
}

pub open spec fn dec_query(b: Seq<u8>, pos: int) -> Option<(QueryView, int)> {
    match dec_row_vec(b, pos) {
        Option::None => Option::None,
        Option::Some((rows, p1)) => match dec_step_vec(b, p1) {
            Option::None => Option::None,
            Option::Some((st, p2)) => Option::Some(
                (QueryView { initial_trees_proof: rows, steps: st }, p2),
            ),
        },
    }
}

pub open spec fn dec_query_seq(b: Seq<u8>, pos: int, n: nat) -> Option<(Seq<QueryView>, int)>
    decreases n,
{
    if n == 0 {
        Option::Some((Seq::<QueryView>::empty(), pos))
    } else {
        match dec_query(b, pos) {
            Option::None => Option::None,
            Option::Some((d, p1)) => match dec_query_seq(b, p1, (n - 1) as nat) {
                Option::None => Option::None,
                Option::Some((s, p2)) => Option::Some((seq![d] + s, p2)),
            },
        }
    }
}

pub open spec fn dec_query_vec(b: Seq<u8>, pos: int) -> Option<(Seq<QueryView>, int)> {
    match dec_u64(b, pos) {
        Option::None => Option::None,
        Option::Some((cnt, p1)) => if cnt > usize::MAX as u64 {
            Option::None
        } else {
            dec_query_seq(b, p1, cnt as nat)
        },
    }
}

pub open spec fn dec_fri(b: Seq<u8>, pos: int) -> Option<(FriView, int)> {
    match dec_cap_vec(b, pos) {
        Option::None => Option::None,
        Option::Some((caps, p1)) => match dec_query_vec(b, p1) {
            Option::None => Option::None,
            Option::Some((qs, p2)) => match dec_ext_vec(b, p2) {
                Option::None => Option::None,
                Option::Some((fp, p3)) => Option::Some(
                    (FriView { commit_phase_caps: caps, query_proofs: qs, final_poly: fp }, p3),
                ),
            },
        },
    }
}

pub open spec fn dec_proof_at(b: Seq<u8>, pos: int) -> Option<(ProofView, int)> {
    match dec_digest_vec(b, pos) {
        Option::None => Option::None,
        Option::Some((tc, p1)) => match dec_digest_vec(b, p1) {
            Option::None => Option::None,
            Option::Some((qc, p2)) => match dec_fri(b, p2) {
                Option::None => Option::None,
                Option::Some((fri, p3)) => Option::Some(
                    (ProofView { trace_cap: tc, quotient_chunks_cap: qc, fri }, p3),
                ),
            },
        },
    }
}

/// The meaning of proof bytes: the decoded proof, provided the whole
/// buffer is consumed; nothing otherwise.
pub open spec fn spec_decode_proof(b: Seq<u8>) -> Option<ProofView> {
    match dec_proof_at(b, 0) {
        Option::None => Option::None,
        Option::Some((p, end)) => if end == b.len() {
            Option::Some(p)
        } else {
            Option::None
        },
    }
}

// ---------------------------------------------------------------------
// Executable encoder.
// ---------------------------------------------------------------------

proof fn lemma_enc_digest_seq_snoc(s: Seq<Digest>, x: Digest)
    ensures
        enc_digest_seq(s.push(x)) == enc_digest_seq(s) + enc_digest(x),
    decreases s.len(),
{
    if s.len() == 0 {
        assert(s.push(x).drop_first() =~= Seq::<Digest>::empty());
        assert(enc_digest_seq(s.push(x)) == enc_digest(x) + enc_digest_seq(Seq::<Digest>::empty()));
        assert(enc_digest(x) + Seq::<u8>::empty() =~= enc_digest(x));
        assert(Seq::<u8>::empty() + enc_digest(x) =~= enc_digest(x));
    } else {
        let d = s.drop_first();
        assert(s.push(x).drop_first() =~= d.push(x));
        lemma_enc_digest_seq_snoc(d, x);
        assert(enc_digest_seq(s.push(x)) == enc_digest(s[0]) + (enc_digest_seq(d) + enc_digest(x)));
        assert((enc_digest(s[0]) + enc_digest_seq(d)) + enc_digest(x) =~= enc_digest(s[0]) + (enc_digest_seq(d)
            + enc_digest(x)));
    }
}

proof fn lemma_enc_cap_seq_snoc(s: Seq<Seq<Digest>>, x: Seq<Digest>)
    ensures
        enc_cap_seq(s.push(x)) == enc_cap_seq(s) + enc_digest_vec(x),
    decreases s.len(),
{
    if s.len() == 0 {
        assert(s.push(x).drop_first() =~= Seq::<Seq<Digest>>::empty());
        assert(enc_cap_seq(s.push(x)) == enc_digest_vec(x) + enc_cap_seq(Seq::<Seq<Digest>>::empty()));
        assert(enc_digest_vec(x) + Seq::<u8>::empty() =~= enc_digest_vec(x));
        assert(Seq::<u8>::empty() + enc_digest_vec(x) =~= enc_digest_vec(x));
    } else {
        let d = s.drop_first();
        assert(s.push(x).drop_first() =~= d.push(x));
        lemma_enc_cap_seq_snoc(d, x);
        assert(enc_cap_seq(s.push(x)) == enc_digest_vec(s[0]) + (enc_cap_seq(d) + enc_digest_vec(x)));
        assert((enc_digest_vec(s[0]) + enc_cap_seq(d)) + enc_digest_vec(x) =~= enc_digest_vec(s[0]) + (enc_cap_seq(d)
            + enc_digest_vec(x)));
    }
}

proof fn lemma_enc_u64_seq_snoc(s: Seq<u64>, x: u64)
    ensures
        enc_u64_seq(s.push(x)) == enc_u64_seq(s) + enc_u64(x),
    decreases s.len(),
{
    if s.len() == 0 {
        assert(s.push(x).drop_first() =~= Seq::<u64>::empty());
        assert(enc_u64_seq(s.push(x)) == enc_u64(x) + enc_u64_seq(Seq::<u64>::empty()));
        assert(enc_u64(x) + Seq::<u8>::empty() =~= enc_u64(x));
        assert(Seq::<u8>::empty() + enc_u64(x) =~= enc_u64(x));
    } else {
        let d = s.drop_first();
        assert(s.push(x).drop_first() =~= d.push(x));
        lemma_enc_u64_seq_snoc(d, x);
        assert(enc_u64_seq(s.push(x)) == enc_u64(s[0]) + (enc_u64_seq(d) + enc_u64(x)));
        assert((enc_u64(s[0]) + enc_u64_seq(d)) + enc_u64(x) =~= enc_u64(s[0]) + (enc_u64_seq(d)
            + enc_u64(x)));
    }
}

proof fn lemma_enc_row_seq_snoc(s: Seq<Seq<u64>>, x: Seq<u64>)
    ensures
        enc_row_seq(s.push(x)) == enc_row_seq(s) + enc_u64_vec(x),
    decreases s.len(),
{
    if s.len() == 0 {
        assert(s.push(x).drop_first() =~= Seq::<Seq<u64>>::empty());
        assert(enc_row_seq(s.push(x)) == enc_u64_vec(x) + enc_row_seq(Seq::<Seq<u64>>::empty()));
        assert(enc_u64_vec(x) + Seq::<u8>::empty() =~= enc_u64_vec(x));
        assert(Seq::<u8>::empty() + enc_u64_vec(x) =~= enc_u64_vec(x));
    } else {
        let d = s.drop_first();
        assert(s.push(x).drop_first() =~= d.push(x));
        lemma_enc_row_seq_snoc(d, x);
        assert(enc_row_seq(s.push(x)) == enc_u64_vec(s[0]) + (enc_row_seq(d) + enc_u64_vec(x)));
        assert((enc_u64_vec(s[0]) + enc_row_seq(d)) + enc_u64_vec(x) =~= enc_u64_vec(s[0]) + (enc_row_seq(d)
            + enc_u64_vec(x)));
    }
}

proof fn lemma_enc_ext_seq_snoc(s: Seq<ExtElem>, x: ExtElem)
    ensures
        enc_ext_seq(s.push(x)) == enc_ext_seq(s) + enc_ext(x),
    decreases s.len(),
{
    if s.len() == 0 {
        assert(s.push(x).drop_first() =~= Seq::<ExtElem>::empty());
        assert(enc_ext_seq(s.push(x)) == enc_ext(x) + enc_ext_seq(Seq::<ExtElem>::empty()));
        assert(enc_ext(x) + Seq::<u8>::empty() =~= enc_ext(x));
        assert(Seq::<u8>::empty() + enc_ext(x) =~= enc_ext(x));
    } else {
        let d = s.drop_first();
        assert(s.push(x).drop_first() =~= d.push(x));
        lemma_enc_ext_seq_snoc(d, x);
        assert(enc_ext_seq(s.push(x)) == enc_ext(s[0]) + (enc_ext_seq(d) + enc_ext(x)));
        assert((enc_ext(s[0]) + enc_ext_seq(d)) + enc_ext(x) =~= enc_ext(s[0]) + (enc_ext_seq(d)
            + enc_ext(x)));
    }
}

proof fn lemma_enc_step_seq_snoc(s: Seq<StepView>, x: StepView)
    ensures
        enc_step_seq(s.push(x)) == enc_step_seq(s) + enc_step(x),
    decreases s.len(),
{
    if s.len() == 0 {
        assert(s.push(x).drop_first() =~= Seq::<StepView>::empty());
        assert(enc_step_seq(s.push(x)) == enc_step(x) + enc_step_seq(Seq::<StepView>::empty()));
        assert(enc_step(x) + Seq::<u8>::empty() =~= enc_step(x));
        assert(Seq::<u8>::empty() + enc_step(x) =~= enc_step(x));
    } else {
        let d = s.drop_first();
        assert(s.push(x).drop_first() =~= d.push(x));
        lemma_enc_step_seq_snoc(d, x);
        assert(enc_step_seq(s.push(x)) == enc_step(s[0]) + (enc_step_seq(d) + enc_step(x)));
        assert((enc_step(s[0]) + enc_step_seq(d)) + enc_step(x) =~= enc_step(s[0]) + (enc_step_seq(d)
            + enc_step(x)));
    }
}

proof fn lemma_enc_query_seq_snoc(s: Seq<QueryView>, x: QueryView)
    ensures
        enc_query_seq(s.push(x)) == enc_query_seq(s) + enc_query(x),
    decreases s.len(),
{
    if s.len() == 0 {
        assert(s.push(x).drop_first() =~= Seq::<QueryView>::empty());
        assert(enc_query_seq(s.push(x)) == enc_query(x) + enc_query_seq(Seq::<QueryView>::empty()));
        assert(enc_query(x) + Seq::<u8>::empty() =~= enc_query(x));
        assert(Seq::<u8>::empty() + enc_query(x) =~= enc_query(x));
    } else {
        let d = s.drop_first();
        assert(s.push(x).drop_first() =~= d.push(x));
        lemma_enc_query_seq_snoc(d, x);
        assert(enc_query_seq(s.push(x)) == enc_query(s[0]) + (enc_query_seq(d) + enc_query(x)));
        assert((enc_query(s[0]) + enc_query_seq(d)) + enc_query(x) =~= enc_query(s[0]) + (enc_query_seq(d)
            + enc_query(x)));
    }
}

fn write_u64(out: &mut Vec<u8>, x: u64)
    ensures
        final(out)@ == old(out)@ + enc_u64(x),
{
    out.push((x % 256) as u8);
    out.push(((x / 256) % 256) as u8);
    out.push(((x / 65536) % 256) as u8);
    out.push(((x / 16777216) % 256) as u8);
    out.push(((x / 4294967296) % 256) as u8);
    out.push(((x / 1099511627776) % 256) as u8);
    out.push(((x / 281474976710656) % 256) as u8);
    out.push(((x / 72057594037927936) % 256) as u8);
    proof {
        assert(out@ =~= old(out)@ + enc_u64(x));
    }
}

fn write_digest(out: &mut Vec<u8>, d: Digest)
    ensures
        final(out)@ == old(out)@ + enc_digest(d),
{
    write_u64(out, d.e0);
    write_u64(out, d.e1);
    write_u64(out, d.e2);
    write_u64(out, d.e3);
    proof {
        assert(out@ =~= old(out)@ + enc_digest(d));
    }
}

fn write_ext(out: &mut Vec<u8>, e: ExtElem)
    ensures
        final(out)@ == old(out)@ + enc_ext(e),
{
    write_u64(out, e.c0);
    write_u64(out, e.c1);
    proof {
        assert(out@ =~= old(out)@ + enc_ext(e));
    }
}

fn write_digest_vec(out: &mut Vec<u8>, v: &Vec<Digest>)
    ensures
        final(out)@ == old(out)@ + enc_digest_vec(v@),
{
    write_u64(out, v.len() as u64);
    let ghost base = out@;
    let n = v.len();
    let mut i: usize = 0;
    proof {
        assert(v@.take(0) =~= Seq::<Digest>::empty());
        assert(out@ =~= base + enc_digest_seq(v@.take(0)));
    }
    while i < n
        invariant
            0 <= i <= n,
            n == v@.len(),
            out@ == base + enc_digest_seq(v@.take(i as int)),
        decreases n - i,
    {
        proof {
            lemma_enc_digest_seq_snoc(v@.take(i as int), v@[i as int]);
            assert(v@.take(i as int + 1) =~= v@.take(i as int).push(v@[i as int]));
        }
        write_digest(out, v[i]);
        proof {
            assert(out@ =~= base + enc_digest_seq(v@.take(i as int + 1)));
        }
        i = i + 1;
    }
    proof {
        assert(v@.take(n as int) =~= v@);
        assert(out@ =~= old(out)@ + enc_digest_vec(v@));
    }
}

fn write_cap_vec(out: &mut Vec<u8>, v: &Vec<Vec<Digest>>)
    ensures
        final(out)@ == old(out)@ + enc_cap_vec(caps_view(v@)),
{
    write_u64(out, v.len() as u64);
    let ghost base = out@;
    let n = v.len();
    let mut i: usize = 0;
    proof {
        assert(caps_view(v@).take(0) =~= Seq::<Seq<Digest>>::empty());
        assert(out@ =~= base + enc_cap_seq(caps_view(v@).take(0)));
    }
    while i < n
        invariant
            0 <= i <= n,
            n == v@.len(),
            out@ == base + enc_cap_seq(caps_view(v@).take(i as int)),
        decreases n - i,
    {
        proof {
            lemma_enc_cap_seq_snoc(caps_view(v@).take(i as int), v@[i as int]@);
            assert(caps_view(v@).take(i as int + 1) =~= caps_view(v@).take(i as int).push(
                v@[i as int]@,
            ));
        }
        write_digest_vec(out, &v[i]);
        proof {
            assert(out@ =~= base + enc_cap_seq(caps_view(v@).take(i as int + 1)));
        }
        i = i + 1;
    }
    proof {
        assert(caps_view(v@).take(n as int) =~= caps_view(v@));
        assert(caps_view(v@).len() == v@.len());
        assert(out@ =~= old(out)@ + enc_cap_vec(caps_view(v@)));
    }
}

fn write_u64_vec(out: &mut Vec<u8>, v: &Vec<u64>)
    ensures
        final(out)@ == old(out)@ + enc_u64_vec(v@),
{
    write_u64(out, v.len() as u64);
    let ghost base = out@;
    let n = v.len();
    let mut i: usize = 0;
    proof {
        assert(v@.take(0) =~= Seq::<u64>::empty());
        assert(out@ =~= base + enc_u64_seq(v@.take(0)));
    }
    while i < n
        invariant
            0 <= i <= n,
            n == v@.len(),
            out@ == base + enc_u64_seq(v@.take(i as int)),
        decreases n - i,
    {
        proof {
            lemma_enc_u64_seq_snoc(v@.take(i as int), v@[i as int]);
            assert(v@.take(i as int + 1) =~= v@.take(i as int).push(v@[i as int]));
        }
        write_u64(out, v[i]);
        proof {
            assert(out@ =~= base + enc_u64_seq(v@.take(i as int + 1)));
        }
        i = i + 1;
    }
    proof {
        assert(v@.take(n as int) =~= v@);
        assert(out@ =~= old(out)@ + enc_u64_vec(v@));
    }
}

fn write_row_vec(out: &mut Vec<u8>, v: &Vec<Vec<u64>>)
    ensures
        final(out)@ == old(out)@ + enc_row_vec(rows_view(v@)),
{
    write_u64(out, v.len() as u64);
    let ghost base = out@;
    let n = v.len();
    let mut i: usize = 0;
    proof {
        assert(rows_view(v@).take(0) =~= Seq::<Seq<u64>>::empty());
        assert(out@ =~= base + enc_row_seq(rows_view(v@).take(0)));
    }
    while i < n
        invariant
            0 <= i <= n,
            n == v@.len(),
            out@ == base + enc_row_seq(rows_view(v@).take(i as int)),
        decreases n - i,
    {
        proof {
            lemma_enc_row_seq_snoc(rows_view(v@).take(i as int), v@[i as int]@);
            assert(rows_view(v@).take(i as int + 1) =~= rows_view(v@).take(i as int).push(
                v@[i as int]@,
            ));
        }
        write_u64_vec(out, &v[i]);
        proof {
            assert(out@ =~= base + enc_row_seq(rows_view(v@).take(i as int + 1)));
        }
        i = i + 1;
    }
    proof {
        assert(rows_view(v@).take(n as int) =~= rows_view(v@));
        assert(rows_view(v@).len() == v@.len());
        assert(out@ =~= old(out)@ + enc_row_vec(rows_view(v@)));
    }
}

fn write_ext_vec(out: &mut Vec<u8>, v: &Vec<ExtElem>)
    ensures
        final(out)@ == old(out)@ + enc_ext_vec(v@),
{
    write_u64(out, v.len() as u64);
    let ghost base = out@;
    let n = v.len();
    let mut i: usize = 0;
    proof {
        assert(v@.take(0) =~= Seq::<ExtElem>::empty());
        assert(out@ =~= base + enc_ext_seq(v@.take(0)));
    }
    while i < n
        invariant
            0 <= i <= n,
            n == v@.len(),
            out@ == base + enc_ext_seq(v@.take(i as int)),
        decreases n - i,
    {
        proof {
            lemma_enc_ext_seq_snoc(v@.take(i as int), v@[i as int]);
            assert(v@.take(i as int + 1) =~= v@.take(i as int).push(v@[i as int]));
        }
        write_ext(out, v[i]);
        proof {
            assert(out@ =~= base + enc_ext_seq(v@.take(i as int + 1)));
        }
        i = i + 1;
    }
    proof {
        assert(v@.take(n as int) =~= v@);
        assert(out@ =~= old(out)@ + enc_ext_vec(v@));
    }
}

fn write_step(out: &mut Vec<u8>, s: &FRIQueryStep)
    ensures
        final(out)@ == old(out)@ + enc_step(s@),
{
    write_ext(out, s.sibling_value);
    write_digest_vec(out, &s.opening_proof);
    proof {
        assert(out@ =~= old(out)@ + enc_step(s@));
    }
}

fn write_step_vec(out: &mut Vec<u8>, v: &Vec<FRIQueryStep>)
    ensures
        final(out)@ == old(out)@ + enc_step_vec(steps_view(v@)),
{
    write_u64(out, v.len() as u64);
    let ghost base = out@;
    let n = v.len();
    let mut i: usize = 0;
    proof {
        assert(steps_view(v@).take(0) =~= Seq::<StepView>::empty());
        assert(out@ =~= base + enc_step_seq(steps_view(v@).take(0)));
    }
    while i < n
        invariant
            0 <= i <= n,
            n == v@.len(),
            out@ == base + enc_step_seq(steps_view(v@).take(i as int)),
        decreases n - i,
    {
        proof {
            lemma_enc_step_seq_snoc(steps_view(v@).take(i as int), v@[i as int]@);
            assert(steps_view(v@).take(i as int + 1) =~= steps_view(v@).take(i as int).push(
                v@[i as int]@,
            ));
        }
        write_step(out, &v[i]);
        proof {
            assert(out@ =~= base + enc_step_seq(steps_view(v@).take(i as int + 1)));
        }
        i = i + 1;
    }
    proof {
        assert(steps_view(v@).take(n as int) =~= steps_view(v@));
        assert(steps_view(v@).len() == v@.len());
        assert(out@ =~= old(out)@ + enc_step_vec(steps_view(v@)));
    }
}

fn write_query(out: &mut Vec<u8>, q: &QueryProof)
    ensures
        final(out)@ == old(out)@ + enc_query(q@),
{
    write_row_vec(out, &q.initial_trees_proof);
    write_step_vec(out, &q.steps);
    proof {
        assert(out@ =~= old(out)@ + enc_query(q@));
    }
}

fn write_query_vec(out: &mut Vec<u8>, v: &Vec<QueryProof>)
    ensures
        final(out)@ == old(out)@ + enc_query_vec(queries_view(v@)),
{
    write_u64(out, v.len() as u64);
    let ghost base = out@;
    let n = v.len();
    let mut i: usize = 0;
    proof {
        assert(queries_view(v@).take(0) =~= Seq::<QueryView>::empty());
        assert(out@ =~= base + enc_query_seq(queries_view(v@).take(0)));
    }
    while i < n
        invariant
            0 <= i <= n,
            n == v@.len(),
            out@ == base + enc_query_seq(queries_view(v@).take(i as int)),
        decreases n - i,
    {
        proof {
            lemma_enc_query_seq_snoc(queries_view(v@).take(i as int), v@[i as int]@);
            assert(queries_view(v@).take(i as int + 1) =~= queries_view(v@).take(i as int).push(
                v@[i as int]@,
            ));
        }
        write_query(out, &v[i]);
        proof {
            assert(out@ =~= base + enc_query_seq(queries_view(v@).take(i as int + 1)));
        }
        i = i + 1;
    }
    proof {
        assert(queries_view(v@).take(n as int) =~= queries_view(v@));
        assert(queries_view(v@).len() == v@.len());
        assert(out@ =~= old(out)@ + enc_query_vec(queries_view(v@)));
    }
}

/// Encodes a proof in the internal binary format, exactly
/// `spec_encode_proof`.
pub fn encode_proof(p: &STARKProof) -> (r: Vec<u8>)
    ensures
        r@ == spec_encode_proof(p@),
{
    let mut out: Vec<u8> = Vec::new();
    proof {
        assert(out@ =~= Seq::<u8>::empty());
    }
    write_digest_vec(&mut out, &p.trace_cap);
    write_digest_vec(&mut out, &p.quotient_chunks_cap);
    write_cap_vec(&mut out, &p.fri_proof.commit_phase_caps);
    write_query_vec(&mut out, &p.fri_proof.query_proofs);
    write_ext_vec(&mut out, &p.fri_proof.final_poly);
    proof {
        assert(out@ =~= spec_encode_proof(p@));
    }
    out
}


// ---------------------------------------------------------------------
// Executable decoder.
// ---------------------------------------------------------------------

fn read_u64(b: &[u8], pos: usize) -> (r: Option<(u64, usize)>)
    ensures
        (match r {
            Option::Some(xp) => dec_u64(b@, pos as int) == Option::Some((xp.0, xp.1 as int)),
            Option::None => dec_u64(b@, pos as int) is None,
        }),
{
    let n = b.len();
    if n < 8 || pos > n - 8 {
        return Option::None;
    }
    let x: u64 = (b[pos] as u64) + (b[pos + 1] as u64) * 256 + (b[pos + 2] as u64) * 65536 + (b[pos
        + 3] as u64) * 16777216 + (b[pos + 4] as u64) * 4294967296 + (b[pos + 5] as u64)
        * 1099511627776 + (b[pos + 6] as u64) * 281474976710656 + (b[pos + 7] as u64)
        * 72057594037927936;
    Option::Some((x, pos + 8))
}

fn read_digest(b: &[u8], pos: usize) -> (r: Option<(Digest, usize)>)
    ensures
        (match r {
            Option::Some(dp) => dec_digest(b@, pos as int) == Option::Some((dp.0, dp.1 as int)),
            Option::None => dec_digest(b@, pos as int) is None,
        }),
{
    match read_u64(b, pos) {
        Option::None => Option::None,
        Option::Some((e0, p0)) => match read_u64(b, p0) {
            Option::None => Option::None,
            Option::Some((e1, p1)) => match read_u64(b, p1) {
                Option::None => Option::None,
                Option::Some((e2, p2)) => match read_u64(b, p2) {
                    Option::None => Option::None,
                    Option::Some((e3, p3)) => Option::Some((Digest { e0, e1, e2, e3 }, p3)),
                },
            },
        },
    }
}

fn read_ext(b: &[u8], pos: usize) -> (r: Option<(ExtElem, usize)>)
    ensures
        (match r {
            Option::Some(dp) => dec_ext(b@, pos as int) == Option::Some((dp.0, dp.1 as int)),
            Option::None => dec_ext(b@, pos as int) is None,
        }),
{
    match read_u64(b, pos) {
        Option::None => Option::None,
        Option::Some((c0, p0)) => match read_u64(b, p0) {
            Option::None => Option::None,
            Option::Some((c1, p1)) => Option::Some((ExtElem { c0, c1 }, p1)),
        },
    }
}

fn read_digest_seq(b: &[u8], pos: usize, n: usize) -> (r: Option<(Vec<Digest>, usize)>)
    ensures
        (match r {
            Option::Some(vp) => dec_digest_seq(b@, pos as int, n as nat) == Option::Some(
                (vp.0@, vp.1 as int),
            ),
            Option::None => dec_digest_seq(b@, pos as int, n as nat) is None,
        }),
{
    let mut acc: Vec<Digest> = Vec::new();
    let mut p = pos;
    let mut i: usize = 0;
    proof {
        assert(acc@ =~= Seq::<Digest>::empty());
        match dec_digest_seq(b@, p as int, (n - i) as nat) {
            Option::Some(sp) => {
                assert(acc@ + sp.0 =~= sp.0);
            },
            Option::None => {},
        }
    }
    while i < n
        invariant
            0 <= i <= n,
            (match dec_digest_seq(b@, p as int, (n - i) as nat) {
                Option::Some(sp) => dec_digest_seq(b@, pos as int, n as nat) == Option::Some(
                    (acc@ + sp.0, sp.1),
                ),
                Option::None => dec_digest_seq(b@, pos as int, n as nat) is None,
            }),
        decreases n - i,
    {
        match read_digest(b, p) {
            Option::Some(dp) => {
                let (v, np) = dp;
                proof {
                    match dec_digest_seq(b@, np as int, (n - i - 1) as nat) {
                        Option::Some(sp2) => {
                            assert(acc@.push(v) =~= acc@.push(v));
                            assert(acc@ + (seq![v] + sp2.0)
                                =~= acc@.push(v) + sp2.0);
                        },
                        Option::None => {},
                    }
                }
                acc.push(v);
                p = np;
                i = i + 1;
            },
            Option::None => {
                return Option::None;
            },
        }
    }
    proof {
        assert(acc@ + Seq::<Digest>::empty() =~= acc@);
    }
    Option::Some((acc, p))
}

fn read_digest_vec(b: &[u8], pos: usize) -> (r: Option<(Vec<Digest>, usize)>)
    ensures
        (match r {
            Option::Some(vp) => dec_digest_vec(b@, pos as int) == Option::Some(
                (vp.0@, vp.1 as int),
            ),
            Option::None => dec_digest_vec(b@, pos as int) is None,
        }),
{
    match read_u64(b, pos) {
        Option::None => Option::None,
        Option::Some(cp) => {
            if cp.0 > usize::MAX as u64 {
                Option::None
            } else {
                read_digest_seq(b, cp.1, cp.0 as usize)
            }
        },
    }
}

fn read_cap_seq(b: &[u8], pos: usize, n: usize) -> (r: Option<(Vec<Vec<Digest>>, usize)>)
    ensures
        (match r {
            Option::Some(vp) => dec_cap_seq(b@, pos as int, n as nat) == Option::Some(
                (caps_view(vp.0@), vp.1 as int),
            ),
            Option::None => dec_cap_seq(b@, pos as int, n as nat) is None,
        }),
{
    let mut acc: Vec<Vec<Digest>> = Vec::new();
    let mut p = pos;
    let mut i: usize = 0;
    proof {
        assert(caps_view(acc@) =~= Seq::<Seq<Digest>>::empty());
        match dec_cap_seq(b@, p as int, (n - i) as nat) {
            Option::Some(sp) => {
                assert(caps_view(acc@) + sp.0 =~= sp.0);
            },
            Option::None => {},
        }
    }
    while i < n
        invariant
            0 <= i <= n,
            (match dec_cap_seq(b@, p as int, (n - i) as nat) {
                Option::Some(sp) => dec_cap_seq(b@, pos as int, n as nat) == Option::Some(
                    (caps_view(acc@) + sp.0, sp.1),
                ),
                Option::None => dec_cap_seq(b@, pos as int, n as nat) is None,
            }),
        decreases n - i,
    {
        match read_digest_vec(b, p) {
            Option::Some(dp) => {
                let (v, np) = dp;
                proof {
                    match dec_cap_seq(b@, np as int, (n - i - 1) as nat) {
                        Option::Some(sp2) => {
                            assert(caps_view(acc@.push(v)) =~= caps_view(acc@).push(v@));
                            assert(caps_view(acc@) + (seq![v@] + sp2.0)
                                =~= caps_view(acc@.push(v)) + sp2.0);
                        },
                        Option::None => {},
                    }
                }
                acc.push(v);
                p = np;
                i = i + 1;
            },
            Option::None => {
                return Option::None;
            },
        }
    }
    proof {
        assert(caps_view(acc@) + Seq::<Seq<Digest>>::empty() =~= caps_view(acc@));
    }
    Option::Some((acc, p))
}

fn read_cap_vec(b: &[u8], pos: usize) -> (r: Option<(Vec<Vec<Digest>>, usize)>)
    ensures
        (match r {
            Option::Some(vp) => dec_cap_vec(b@, pos as int) == Option::Some(
                (caps_view(vp.0@), vp.1 as int),
            ),
            Option::None => dec_cap_vec(b@, pos as int) is None,
        }),
{
    match read_u64(b, pos) {
        Option::None => Option::None,
        Option::Some(cp) => {
            if cp.0 > usize::MAX as u64 {
                Option::None
            } else {
                read_cap_seq(b, cp.1, cp.0 as usize)
            }
        },
    }
}

fn read_u64_seq(b: &[u8], pos: usize, n: usize) -> (r: Option<(Vec<u64>, usize)>)
    ensures
        (match r {
            Option::Some(vp) => dec_u64_seq(b@, pos as int, n as nat) == Option::Some(
                (vp.0@, vp.1 as int),
            ),
            Option::None => dec_u64_seq(b@, pos as int, n as nat) is None,
        }),
{
    let mut acc: Vec<u64> = Vec::new();
    let mut p = pos;
    let mut i: usize = 0;
    proof {
        assert(acc@ =~= Seq::<u64>::empty());
        match dec_u64_seq(b@, p as int, (n - i) as nat) {
            Option::Some(sp) => {
                assert(acc@ + sp.0 =~= sp.0);
            },
            Option::None => {},
        }
    }
    while i < n
        invariant
            0 <= i <= n,
            (match dec_u64_seq(b@, p as int, (n - i) as nat) {
                Option::Some(sp) => dec_u64_seq(b@, pos as int, n as nat) == Option::Some(
                    (acc@ + sp.0, sp.1),
                ),
                Option::None => dec_u64_seq(b@, pos as int, n as nat) is None,
            }),
        decreases n - i,
    {
        match read_u64(b, p) {
            Option::Some(dp) => {
                let (v, np) = dp;
                proof {
                    match dec_u64_seq(b@, np as int, (n - i - 1) as nat) {
                        Option::Some(sp2) => {
                            assert(acc@.push(v) =~= acc@.push(v));
                            assert(acc@ + (seq![v] + sp2.0)
                                =~= acc@.push(v) + sp2.0);
                        },
                        Option::None => {},
                    }
                }
                acc.push(v);
                p = np;
                i = i + 1;
            },
            Option::None => {
                return Option::None;
            },
        }
    }
    proof {
        assert(acc@ + Seq::<u64>::empty() =~= acc@);
    }
    Option::Some((acc, p))
}

fn read_u64_vec(b: &[u8], pos: usize) -> (r: Option<(Vec<u64>, usize)>)
    ensures
        (match r {
            Option::Some(vp) => dec_u64_vec(b@, pos as int) == Option::Some(
                (vp.0@, vp.1 as int),
            ),
            Option::None => dec_u64_vec(b@, pos as int) is None,
        }),
{
    match read_u64(b, pos) {
        Option::None => Option::None,
        Option::Some(cp) => {
            if cp.0 > usize::MAX as u64 {
                Option::None
            } else {
                read_u64_seq(b, cp.1, cp.0 as usize)
            }
        },
    }
}

fn read_row_seq(b: &[u8], pos: usize, n: usize) -> (r: Option<(Vec<Vec<u64>>, usize)>)
    ensures
        (match r {
            Option::Some(vp) => dec_row_seq(b@, pos as int, n as nat) == Option::Some(
                (rows_view(vp.0@), vp.1 as int),
            ),
            Option::None => dec_row_seq(b@, pos as int, n as nat) is None,
        }),
{
    let mut acc: Vec<Vec<u64>> = Vec::new();
    let mut p = pos;
    let mut i: usize = 0;
    proof {
        assert(rows_view(acc@) =~= Seq::<Seq<u64>>::empty());
        match dec_row_seq(b@, p as int, (n - i) as nat) {
            Option::Some(sp) => {
                assert(rows_view(acc@) + sp.0 =~= sp.0);
            },
            Option::None => {},
        }
    }
    while i < n
        invariant
            0 <= i <= n,
            (match dec_row_seq(b@, p as int, (n - i) as nat) {
                Option::Some(sp) => dec_row_seq(b@, pos as int, n as nat) == Option::Some(
                    (rows_view(acc@) + sp.0, sp.1),
                ),
                Option::None => dec_row_seq(b@, pos as int, n as nat) is None,
            }),
        decreases n - i,
    {
        match read_u64_vec(b, p) {
            Option::Some(dp) => {
                let (v, np) = dp;
                proof {
                    match dec_row_seq(b@, np as int, (n - i - 1) as nat) {
                        Option::Some(sp2) => {
                            assert(rows_view(acc@.push(v)) =~= rows_view(acc@).push(v@));
                            assert(rows_view(acc@) + (seq![v@] + sp2.0)
                                =~= rows_view(acc@.push(v)) + sp2.0);
                        },
                        Option::None => {},
                    }
                }
                acc.push(v);
                p = np;
                i = i + 1;
            },
            Option::None => {
                return Option::None;
            },
        }
    }
    proof {
        assert(rows_view(acc@) + Seq::<Seq<u64>>::empty() =~= rows_view(acc@));
    }
    Option::Some((acc, p))
}

fn read_row_vec(b: &[u8], pos: usize) -> (r: Option<(Vec<Vec<u64>>, usize)>)
    ensures
        (match r {
            Option::Some(vp) => dec_row_vec(b@, pos as int) == Option::Some(
                (rows_view(vp.0@), vp.1 as int),
            ),
            Option::None => dec_row_vec(b@, pos as int) is None,
        }),
{
    match read_u64(b, pos) {
        Option::None => Option::None,
        Option::Some(cp) => {
            if cp.0 > usize::MAX as u64 {
                Option::None
            } else {
                read_row_seq(b, cp.1, cp.0 as usize)
            }
        },
    }
}

fn read_ext_seq(b: &[u8], pos: usize, n: usize) -> (r: Option<(Vec<ExtElem>, usize)>)
    ensures
        (match r {
            Option::Some(vp) => dec_ext_seq(b@, pos as int, n as nat) == Option::Some(
                (vp.0@, vp.1 as int),
            ),
            Option::None => dec_ext_seq(b@, pos as int, n as nat) is None,
        }),
{
    let mut acc: Vec<ExtElem> = Vec::new();
    let mut p = pos;
    let mut i: usize = 0;
    proof {
        assert(acc@ =~= Seq::<ExtElem>::empty());
        match dec_ext_seq(b@, p as int, (n - i) as nat) {
            Option::Some(sp) => {
                assert(acc@ + sp.0 =~= sp.0);
            },
            Option::None => {},
        }
    }
    while i < n
        invariant
            0 <= i <= n,
            (match dec_ext_seq(b@, p as int, (n - i) as nat) {
                Option::Some(sp) => dec_ext_seq(b@, pos as int, n as nat) == Option::Some(
                    (acc@ + sp.0, sp.1),
                ),
                Option::None => dec_ext_seq(b@, pos as int, n as nat) is None,
            }),
        decreases n - i,
    {
        match read_ext(b, p) {
            Option::Some(dp) => {
                let (v, np) = dp;
                proof {
                    match dec_ext_seq(b@, np as int, (n - i - 1) as nat) {
                        Option::Some(sp2) => {
                            assert(acc@.push(v) =~= acc@.push(v));
                            assert(acc@ + (seq![v] + sp2.0)
                                =~= acc@.push(v) + sp2.0);
                        },
                        Option::None => {},
                    }
                }
                acc.push(v);
                p = np;
                i = i + 1;
            },
            Option::None => {
                return Option::None;
            },
        }
    }
    proof {
        assert(acc@ + Seq::<ExtElem>::empty() =~= acc@);
    }
    Option::Some((acc, p))
}

fn read_ext_vec(b: &[u8], pos: usize) -> (r: Option<(Vec<ExtElem>, usize)>)
    ensures
        (match r {
            Option::Some(vp) => dec_ext_vec(b@, pos as int) == Option::Some(
                (vp.0@, vp.1 as int),
            ),
            Option::None => dec_ext_vec(b@, pos as int) is None,
        }),
{
    match read_u64(b, pos) {
        Option::None => Option::None,
        Option::Some(cp) => {
            if cp.0 > usize::MAX as u64 {
                Option::None
            } else {
                read_ext_seq(b, cp.1, cp.0 as usize)
            }
        },
    }
}

fn read_step(b: &[u8], pos: usize) -> (r: Option<(FRIQueryStep, usize)>)
    ensures
        (match r {
            Option::Some(dp) => dec_step(b@, pos as int) == Option::Some((dp.0@, dp.1 as int)),
            Option::None => dec_step(b@, pos as int) is None,
        }),
{
    match read_ext(b, pos) {
        Option::None => Option::None,
        Option::Some((sib, p1)) => match read_digest_vec(b, p1) {
            Option::None => Option::None,
            Option::Some((op, p2)) => Option::Some(
                (FRIQueryStep { sibling_value: sib, opening_proof: op }, p2),
            ),
        },
    }
}

fn read_step_seq(b: &[u8], pos: usize, n: usize) -> (r: Option<(Vec<FRIQueryStep>, usize)>)
    ensures
        (match r {
            Option::Some(vp) => dec_step_seq(b@, pos as int, n as nat) == Option::Some(
                (steps_view(vp.0@), vp.1 as int),
            ),
            Option::None => dec_step_seq(b@, pos as int, n as nat) is None,
        }),
{
    let mut acc: Vec<FRIQueryStep> = Vec::new();
    let mut p = pos;
    let mut i: usize = 0;
    proof {
        assert(steps_view(acc@) =~= Seq::<StepView>::empty());
        match dec_step_seq(b@, p as int, (n - i) as nat) {
            Option::Some(sp) => {
                assert(steps_view(acc@) + sp.0 =~= sp.0);
            },
            Option::None => {},
        }
    }
    while i < n
        invariant
            0 <= i <= n,
            (match dec_step_seq(b@, p as int, (n - i) as nat) {
                Option::Some(sp) => dec_step_seq(b@, pos as int, n as nat) == Option::Some(
                    (steps_view(acc@) + sp.0, sp.1),
                ),
                Option::None => dec_step_seq(b@, pos as int, n as nat) is None,
            }),
        decreases n - i,
    {
        match read_step(b, p) {
            Option::Some(dp) => {
                let (v, np) = dp;
                proof {
                    match dec_step_seq(b@, np as int, (n - i - 1) as nat) {
                        Option::Some(sp2) => {
                            assert(steps_view(acc@.push(v)) =~= steps_view(acc@).push(v@));
                            assert(steps_view(acc@) + (seq![v@] + sp2.0)
                                =~= steps_view(acc@.push(v)) + sp2.0);
                        },
                        Option::None => {},
                    }
                }
                acc.push(v);
                p = np;
                i = i + 1;
            },
            Option::None => {
                return Option::None;
            },
        }
    }
    proof {
        assert(steps_view(acc@) + Seq::<StepView>::empty() =~= steps_view(acc@));
    }
    Option::Some((acc, p))
}

fn read_step_vec(b: &[u8], pos: usize) -> (r: Option<(Vec<FRIQueryStep>, usize)>)
    ensures
        (match r {
            Option::Some(vp) => dec_step_vec(b@, pos as int) == Option::Some(
                (steps_view(vp.0@), vp.1 as int),
            ),
            Option::None => dec_step_vec(b@, pos as int) is None,
        }),
{
    match read_u64(b, pos) {
        Option::None => Option::None,
        Option::Some(cp) => {
            if cp.0 > usize::MAX as u64 {
                Option::None
            } else {
                read_step_seq(b, cp.1, cp.0 as usize)
            }
        },
    }
}

fn read_query(b: &[u8], pos: usize) -> (r: Option<(QueryProof, usize)>)
    ensures
        (match r {
            Option::Some(dp) => dec_query(b@, pos as int) == Option::Some((dp.0@, dp.1 as int)),
            Option::None => dec_query(b@, pos as int) is None,
        }),
{
    match read_row_vec(b, pos) {
        Option::None => Option::None,
        Option::Some((rows, p1)) => match read_step_vec(b, p1) {
            Option::None => Option::None,
            Option::Some((st, p2)) => Option::Some(
                (QueryProof { initial_trees_proof: rows, steps: st }, p2),
            ),
        },
    }
}

fn read_query_seq(b: &[u8], pos: usize, n: usize) -> (r: Option<(Vec<QueryProof>, usize)>)
    ensures
        (match r {
            Option::Some(vp) => dec_query_seq(b@, pos as int, n as nat) == Option::Some(
                (queries_view(vp.0@), vp.1 as int),
            ),
            Option::None => dec_query_seq(b@, pos as int, n as nat) is None,
        }),
{
    let mut acc: Vec<QueryProof> = Vec::new();
    let mut p = pos;
    let mut i: usize = 0;
    proof {
        assert(queries_view(acc@) =~= Seq::<QueryView>::empty());
        match dec_query_seq(b@, p as int, (n - i) as nat) {
            Option::Some(sp) => {
                assert(queries_view(acc@) + sp.0 =~= sp.0);
            },
            Option::None => {},
        }
    }
    while i < n
        invariant
            0 <= i <= n,
            (match dec_query_seq(b@, p as int, (n - i) as nat) {
                Option::Some(sp) => dec_query_seq(b@, pos as int, n as nat) == Option::Some(
                    (queries_view(acc@) + sp.0, sp.1),
                ),
                Option::None => dec_query_seq(b@, pos as int, n as nat) is None,
            }),
        decreases n - i,
    {
        match read_query(b, p) {
            Option::Some(dp) => {
                let (v, np) = dp;
                proof {
                    match dec_query_seq(b@, np as int, (n - i - 1) as nat) {
                        Option::Some(sp2) => {
                            assert(queries_view(acc@.push(v)) =~= queries_view(acc@).push(v@));
                            assert(queries_view(acc@) + (seq![v@] + sp2.0)
                                =~= queries_view(acc@.push(v)) + sp2.0);
                        },
                        Option::None => {},
                    }
                }
                acc.push(v);
                p = np;
                i = i + 1;
            },
            Option::None => {
                return Option::None;
            },
        }
    }
    proof {
        assert(queries_view(acc@) + Seq::<QueryView>::empty() =~= queries_view(acc@));
    }
    Option::Some((acc, p))
}

fn read_query_vec(b: &[u8], pos: usize) -> (r: Option<(Vec<QueryProof>, usize)>)
    ensures
        (match r {
            Option::Some(vp) => dec_query_vec(b@, pos as int) == Option::Some(
                (queries_view(vp.0@), vp.1 as int),
            ),
            Option::None => dec_query_vec(b@, pos as int) is None,
        }),
{
    match read_u64(b, pos) {
        Option::None => Option::None,
        Option::Some(cp) => {
            if cp.0 > usize::MAX as u64 {
                Option::None
            } else {
                read_query_seq(b, cp.1, cp.0 as usize)
            }
        },
    }
}

fn read_fri(b: &[u8], pos: usize) -> (r: Option<(FRIProof, usize)>)
    ensures
        (match r {
            Option::Some(dp) => dec_fri(b@, pos as int) == Option::Some((dp.0@, dp.1 as int)),
            Option::None => dec_fri(b@, pos as int) is None,
        }),
{
    match read_cap_vec(b, pos) {
        Option::None => Option::None,
        Option::Some((caps, p1)) => match read_query_vec(b, p1) {
            Option::None => Option::None,
            Option::Some((qs, p2)) => match read_ext_vec(b, p2) {
                Option::None => Option::None,
                Option::Some((fp, p3)) => Option::Some(
                    (
                        FRIProof {
                            commit_phase_caps: caps,
                            query_proofs: qs,
                            final_poly: fp,
                        },
                        p3,
                    ),
                ),
            },
        },
    }
}

fn read_proof_at(b: &[u8], pos: usize) -> (r: Option<(STARKProof, usize)>)
    ensures
        (match r {
            Option::Some(dp) => dec_proof_at(b@, pos as int) == Option::Some(
                (dp.0@, dp.1 as int),
            ),
            Option::None => dec_proof_at(b@, pos as int) is None,
        }),
{
    match read_digest_vec(b, pos) {
        Option::None => Option::None,
        Option::Some((tc, p1)) => match read_digest_vec(b, p1) {
            Option::None => Option::None,
            Option::Some((qc, p2)) => match read_fri(b, p2) {
                Option::None => Option::None,
                Option::Some((fri, p3)) => Option::Some(
                    (STARKProof { trace_cap: tc, quotient_chunks_cap: qc, fri_proof: fri }, p3),
                ),
            },
        },
    }
}

/// Decodes proof bytes in the internal binary format, exactly
/// `spec_decode_proof`: the proof when the whole buffer is one valid
/// encoding, nothing otherwise.
pub fn decode_proof(b: &[u8]) -> (r: Option<STARKProof>)
    ensures
        (match r {
            Option::Some(p) => spec_decode_proof(b@) == Option::Some(p@),
            Option::None => spec_decode_proof(b@) is None,
        }),
{
    match read_proof_at(b, 0) {
        Option::None => Option::None,
        Option::Some((p, end)) => {
            if end == b.len() {
                Option::Some(p)
            } else {
                Option::None
            }
        },
    }
}


// ---------------------------------------------------------------------
// Verification: three ordered, short-circuiting checks.
// ---------------------------------------------------------------------

/// Why verification could not run or which stage refused the proof.
#[derive(Debug, Clone, Copy, PartialEq, Eq, Structural)]
pub enum VerificationError {
    /// The bytes are not one valid encoding of a proof.
    DeserializationFailed,
    /// A commitment the proof must carry is empty.
    StructuralCheckFailed,
    /// A query disagrees with the per-layer commitments or the final
    /// polynomial exceeds its degree bound.
    FRICheckFailed,
    /// A value in the proof is no canonical field element.
    ConstraintCheckFailed,
}

/// Structural check: the trace and quotient commitments are non-empty.
pub open spec fn spec_structure_ok(p: ProofView) -> bool {
    p.trace_cap.len() > 0 && p.quotient_chunks_cap.len() > 0
}

/// FRI consistency check: every query opens one step per committed layer,
/// and the final polynomial respects the degree bound.
pub open spec fn spec_fri_ok(p: ProofView) -> bool {
    &&& forall|q: int|
        0 <= q < p.fri.query_proofs.len() ==> (#[trigger] p.fri.query_proofs[q]).steps.len()
            == p.fri.commit_phase_caps.len()
    &&& p.fri.final_poly.len() <= FINAL_POLY_MAX_COEFFS
}

/// Whether a base field value is a canonical Goldilocks residue.
pub open spec fn elem_canonical(x: u64) -> bool {
    x < GOLDILOCKS_MODULUS
}

/// Whether both coefficients of an extension element are canonical.
pub open spec fn ext_canonical(e: ExtElem) -> bool {
    e.c0 < GOLDILOCKS_MODULUS && e.c1 < GOLDILOCKS_MODULUS
}

pub open spec fn row_canonical(s: Seq<u64>) -> bool {
    forall|v: int| 0 <= v < s.len() ==> elem_canonical(#[trigger] s[v])
}

pub open spec fn rows_canonical(s: Seq<Seq<u64>>) -> bool {
    forall|t: int| 0 <= t < s.len() ==> row_canonical(#[trigger] s[t])
}

pub open spec fn steps_canonical(s: Seq<StepView>) -> bool {
    forall|t: int| 0 <= t < s.len() ==> ext_canonical((#[trigger] s[t]).sibling_value)
}

pub open spec fn exts_canonical(s: Seq<ExtElem>) -> bool {
    forall|t: int| 0 <= t < s.len() ==> ext_canonical(#[trigger] s[t])
}

/// Constraint check for one query: every opened value is canonical.
pub open spec fn query_constraints_ok(q: QueryView) -> bool {
    rows_canonical(q.initial_trees_proof) && steps_canonical(q.steps)
}

/// Constraint check: every value the proof opens at the queried points is
/// a canonical field element.
pub open spec fn spec_constraints_ok(p: ProofView) -> bool {
    &&& exts_canonical(p.fri.final_poly)
    &&& forall|q: int|
        0 <= q < p.fri.query_proofs.len() ==> query_constraints_ok(
            #[trigger] p.fri.query_proofs[q],
        )
}

/// A proof is accepted exactly when all three checks hold.
pub open spec fn spec_verify_proof(p: ProofView) -> bool {
    spec_structure_ok(p) && spec_fri_ok(p) && spec_constraints_ok(p)
}

fn check_row(v: &Vec<u64>) -> (r: bool)
    ensures
        r == row_canonical(v@),
{
    let n = v.len();
    let mut i: usize = 0;
    while i < n
        invariant
            0 <= i <= n,
            n == v@.len(),
            forall|t: int| 0 <= t < i ==> elem_canonical(#[trigger] v@[t]),
        decreases n - i,
    {
        if v[i] >= GOLDILOCKS_MODULUS {
            assert(!elem_canonical(v@[i as int]));
            return false;
        }
        i = i + 1;
    }
    true
}

fn check_rows(v: &Vec<Vec<u64>>) -> (r: bool)
    ensures
        r == rows_canonical(rows_view(v@)),
{
    let n = v.len();
    let mut i: usize = 0;
    while i < n
        invariant
            0 <= i <= n,
            n == v@.len(),
            forall|t: int| 0 <= t < i ==> row_canonical(#[trigger] rows_view(v@)[t]),
        decreases n - i,
    {
        proof {
            assert(rows_view(v@)[i as int] == v@[i as int]@);
        }
        if !check_row(&v[i]) {
            return false;
        }
        i = i + 1;
    }
    true
}

fn check_steps(v: &Vec<FRIQueryStep>) -> (r: bool)
    ensures
        r == steps_canonical(steps_view(v@)),
{
    let n = v.len();
    let mut i: usize = 0;
    while i < n
        invariant
            0 <= i <= n,
            n == v@.len(),
            forall|t: int|
                0 <= t < i ==> ext_canonical((#[trigger] steps_view(v@)[t]).sibling_value),
        decreases n - i,
    {
        proof {
            assert(steps_view(v@)[i as int] == v@[i as int]@);
        }
        let e = v[i].sibling_value;
        if e.c0 >= GOLDILOCKS_MODULUS || e.c1 >= GOLDILOCKS_MODULUS {
            assert(!ext_canonical(steps_view(v@)[i as int].sibling_value));
            return false;
        }
        i = i + 1;
    }
    true
}

fn check_exts(v: &Vec<ExtElem>) -> (r: bool)
    ensures
        r == exts_canonical(v@),
{
    let n = v.len();
    let mut i: usize = 0;
    while i < n
        invariant
            0 <= i <= n,
            n == v@.len(),
            forall|t: int| 0 <= t < i ==> ext_canonical(#[trigger] v@[t]),
        decreases n - i,
    {
        let e = v[i];
        if e.c0 >= GOLDILOCKS_MODULUS || e.c1 >= GOLDILOCKS_MODULUS {
            assert(!ext_canonical(v@[i as int]));
            return false;
        }
        i = i + 1;
    }
    true
}

fn check_query(q: &QueryProof) -> (r: bool)
    ensures
        r == query_constraints_ok(q@),
{
    if !check_rows(&q.initial_trees_proof) {
        return false;
    }
    check_steps(&q.steps)
}

/// Tuning knobs of the verifier for constrained devices. The time budget
/// is advisory: exceeding it is reported, never failed.
#[derive(Debug, Clone, Copy, PartialEq, Eq, Structural)]
pub struct VerifierConfig {
    pub max_memory_mb: usize,
    pub max_verification_time_ms: u128,
    pub fri_queries: usize,
}

impl VerifierConfig {
    /// The defaults for constrained devices: 400 MB advisory memory,
    /// 500 ms advisory latency, 80 FRI queries.
    pub fn mobile_optimized() -> (r: VerifierConfig)
        ensures
            r.max_memory_mb == 400,
            r.max_verification_time_ms == 500,
            r.fri_queries == 80,
    {
        VerifierConfig { max_memory_mb: 400, max_verification_time_ms: 500, fri_queries: 80 }
    }
}

/// Deserializes and verifies succinct proofs within a constrained-device
/// budget.
pub struct MobileProofVerifier {
    /// The active tuning knobs.
    pub config: VerifierConfig,
}

impl MobileProofVerifier {
    /// A verifier with the constrained-device configuration.
    pub fn new() -> (r: MobileProofVerifier)
        ensures
            r.config.max_memory_mb == 400,
            r.config.max_verification_time_ms == 500,
            r.config.fri_queries == 80,
    {
        MobileProofVerifier { config: VerifierConfig::mobile_optimized() }
    }

    /// Decodes and verifies proof bytes: `DeserializationFailed` exactly
    /// when the bytes are not one valid encoding, and otherwise whether
    /// the decoded proof passes all three checks.
    pub fn verify_proof(&self, proof_bytes: &[u8]) -> (r: Result<bool, VerificationError>)
        ensures
            (match r {
                Result::Ok(ok) => spec_decode_proof(proof_bytes@) matches Option::Some(p) && ok
                    == spec_verify_proof(p),
                Result::Err(e) => e == VerificationError::DeserializationFailed
                    && spec_decode_proof(proof_bytes@) is None,
            }),
    {
        match decode_proof(proof_bytes) {
            Option::None => Result::Err(VerificationError::DeserializationFailed),
            Option::Some(p) => Result::Ok(self.verify_stark_proof(&p)),
        }
    }

    /// The three ordered, short-circuiting checks on a decoded proof.
    pub fn verify_stark_proof(&self, proof: &STARKProof) -> (r: bool)
        ensures
            r == spec_verify_proof(proof@),
    {
        if !self.verify_proof_structure(proof) {
            return false;
        }
        if !self.verify_fri_consistency(proof) {
            return false;
        }
        self.verify_constraints(proof)
    }

    /// The checks with the first failing stage named.
    pub fn verify_stark_proof_detailed(&self, proof: &STARKProof) -> (r: Result<
        (),
        VerificationError,
    >)
        ensures
            r is Ok <==> spec_verify_proof(proof@),
            r == Result::<(), VerificationError>::Err(VerificationError::StructuralCheckFailed)
                <==> !spec_structure_ok(proof@),
            r == Result::<(), VerificationError>::Err(VerificationError::FRICheckFailed)
                <==> spec_structure_ok(proof@) && !spec_fri_ok(proof@),
            r == Result::<(), VerificationError>::Err(VerificationError::ConstraintCheckFailed)
                <==> spec_structure_ok(proof@) && spec_fri_ok(proof@) && !spec_constraints_ok(
                proof@,
            ),
    {
        if !self.verify_proof_structure(proof) {
            return Result::Err(VerificationError::StructuralCheckFailed);
        }
        if !self.verify_fri_consistency(proof) {
            return Result::Err(VerificationError::FRICheckFailed);
        }
        if !self.verify_constraints(proof) {
            return Result::Err(VerificationError::ConstraintCheckFailed);
        }
        Result::Ok(())
    }

    /// Structural check, exactly `spec_structure_ok`.
    pub fn verify_proof_structure(&self, proof: &STARKProof) -> (r: bool)
        ensures
            r == spec_structure_ok(proof@),
    {
        proof.trace_cap.len() > 0 && proof.quotient_chunks_cap.len() > 0
    }

    /// FRI consistency check, exactly `spec_fri_ok`.
    pub fn verify_fri_consistency(&self, proof: &STARKProof) -> (r: bool)
        ensures
            r == spec_fri_ok(proof@),
    {
        let layers = proof.fri_proof.commit_phase_caps.len();
        let nq = proof.fri_proof.query_proofs.len();
        let mut q: usize = 0;
        while q < nq
            invariant
                0 <= q <= nq,
                nq == proof.fri_proof.query_proofs@.len(),
                layers == proof.fri_proof.commit_phase_caps@.len(),
                forall|t: int|
                    0 <= t < q ==> (#[trigger] proof@.fri.query_proofs[t]).steps.len()
                        == proof@.fri.commit_phase_caps.len(),
            decreases nq - q,
        {
            proof {
                assert(proof@.fri.query_proofs[q as int]
                    == proof.fri_proof.query_proofs@[q as int]@);
            }
            if proof.fri_proof.query_proofs[q].steps.len() != layers {
                return false;
            }
            q = q + 1;
        }
        proof.fri_proof.final_poly.len() <= FINAL_POLY_MAX_COEFFS
    }

    /// Constraint check, exactly `spec_constraints_ok`.
    pub fn verify_constraints(&self, proof: &STARKProof) -> (r: bool)
        ensures
            r == spec_constraints_ok(proof@),
    {
        if !check_exts(&proof.fri_proof.final_poly) {
            return false;
        }
        let nq = proof.fri_proof.query_proofs.len();
        let mut q: usize = 0;
        while q < nq
            invariant
                0 <= q <= nq,
                nq == proof.fri_proof.query_proofs@.len(),
                exts_canonical(proof@.fri.final_poly),
                forall|t: int|
                    0 <= t < q ==> query_constraints_ok(#[trigger] proof@.fri.query_proofs[t]),
            decreases nq - q,
        {
            proof {
                assert(proof@.fri.query_proofs[q as int]
                    == proof.fri_proof.query_proofs@[q as int]@);
            }
            if !check_query(&proof.fri_proof.query_proofs[q]) {
                return false;
            }
            q = q + 1;
        }
        true
    }
}


// ---------------------------------------------------------------------
// The codec round trip: decoding the encoding of any representable proof
// yields that proof.
// ---------------------------------------------------------------------

/// Every list in the proof fits a machine length; any proof held in
/// memory satisfies this.
pub open spec fn step_bounded(s: StepView) -> bool {
    s.opening_proof.len() <= usize::MAX
}

pub open spec fn query_bounded(q: QueryView) -> bool {
    &&& q.initial_trees_proof.len() <= usize::MAX
    &&& forall|i: int|
        0 <= i < q.initial_trees_proof.len() ==> (#[trigger] q.initial_trees_proof[i]).len()
            <= usize::MAX
    &&& q.steps.len() <= usize::MAX
    &&& forall|i: int| 0 <= i < q.steps.len() ==> step_bounded(#[trigger] q.steps[i])
}

pub open spec fn proof_bounded(p: ProofView) -> bool {
    &&& p.trace_cap.len() <= usize::MAX
    &&& p.quotient_chunks_cap.len() <= usize::MAX
    &&& p.fri.commit_phase_caps.len() <= usize::MAX
    &&& forall|i: int|
        0 <= i < p.fri.commit_phase_caps.len() ==> (#[trigger] p.fri.commit_phase_caps[i]).len()
            <= usize::MAX
    &&& p.fri.query_proofs.len() <= usize::MAX
    &&& forall|i: int|
        0 <= i < p.fri.query_proofs.len() ==> query_bounded(#[trigger] p.fri.query_proofs[i])
    &&& p.fri.final_poly.len() <= usize::MAX
}

/// The little-endian bytes of an integer reassemble to it.
proof fn lemma_u64_bytes_reassemble(x: u64)
    ensures
        (x % 256) as int + ((x / 256) % 256) as int * 256 + ((x / 65536) % 256) as int * 65536 + ((
        x / 16777216) % 256) as int * 16777216 + ((x / 4294967296) % 256) as int * 4294967296 + ((x
            / 1099511627776) % 256) as int * 1099511627776 + ((x / 281474976710656) % 256) as int
            * 281474976710656 + ((x / 72057594037927936) % 256) as int * 72057594037927936
            == x as int,
{
    let xi = x as int;
    let q1 = xi / 256;
    let q2 = xi / 65536;
    let q3 = xi / 16777216;
    let q4 = xi / 4294967296;
    let q5 = xi / 1099511627776;
    let q6 = xi / 281474976710656;
    let q7 = xi / 72057594037927936;
    vstd::arithmetic::div_mod::lemma_fundamental_div_mod(xi, 256);
    vstd::arithmetic::div_mod::lemma_div_denominator(xi, 256, 256);
    vstd::arithmetic::div_mod::lemma_fundamental_div_mod(q1, 256);
    vstd::arithmetic::div_mod::lemma_div_denominator(xi, 65536, 256);
    vstd::arithmetic::div_mod::lemma_fundamental_div_mod(q2, 256);
    vstd::arithmetic::div_mod::lemma_div_denominator(xi, 16777216, 256);
    vstd::arithmetic::div_mod::lemma_fundamental_div_mod(q3, 256);
    vstd::arithmetic::div_mod::lemma_div_denominator(xi, 4294967296, 256);
    vstd::arithmetic::div_mod::lemma_fundamental_div_mod(q4, 256);
    vstd::arithmetic::div_mod::lemma_div_denominator(xi, 1099511627776, 256);
    vstd::arithmetic::div_mod::lemma_fundamental_div_mod(q5, 256);
    vstd::arithmetic::div_mod::lemma_div_denominator(xi, 281474976710656, 256);
    vstd::arithmetic::div_mod::lemma_fundamental_div_mod(q6, 256);
    assert(q7 % 256 == q7) by (nonlinear_arith)
        requires
            0 <= q7 < 256,
    ;
}

/// A buffer whose window at `pos` is `x + y` holds `x` first and `y` after.
proof fn lemma_split_prefix(b: Seq<u8>, pos: int, x: Seq<u8>, y: Seq<u8>)
    requires
        0 <= pos,
        pos + x.len() + y.len() <= b.len(),
        b.subrange(pos, pos + x.len() + y.len()) == x + y,
    ensures
        b.subrange(pos, pos + x.len() as int) == x,
        b.subrange(pos + x.len() as int, pos + x.len() + y.len()) == y,
{
    assert(b.subrange(pos, pos + x.len() as int) =~= x);
    assert forall|i: int|
        0 <= i < y.len() implies b.subrange(pos + x.len() as int, pos + x.len() + y.len())[i]
        == y[i] by {
        let j = x.len() as int + i;
        assert(b.subrange(pos, pos + x.len() + y.len())[j] == b[pos + j]);
        assert((x + y)[j] == y[i]);
        assert(b.subrange(pos + x.len() as int, pos + x.len() + y.len())[i] == b[pos + x.len()
            + i]);
    }
    assert(b.subrange(pos + x.len() as int, pos + x.len() + y.len()) =~= y);
}

proof fn lemma_dec_u64_of_enc(b: Seq<u8>, pos: int, x: u64)
    requires
        0 <= pos,
        pos + 8 <= b.len(),
        b.subrange(pos, pos + 8) == enc_u64(x),
    ensures
        dec_u64(b, pos) == Option::Some((x, pos + 8)),
{
    assert(b[pos] == enc_u64(x)[0] && b[pos + 1] == enc_u64(x)[1] && b[pos + 2] == enc_u64(x)[2]
        && b[pos + 3] == enc_u64(x)[3] && b[pos + 4] == enc_u64(x)[4] && b[pos + 5] == enc_u64(
        x,
    )[5] && b[pos + 6] == enc_u64(x)[6] && b[pos + 7] == enc_u64(x)[7]) by {
        assert(b.subrange(pos, pos + 8)[0] == b[pos]);
        assert(b.subrange(pos, pos + 8)[1] == b[pos + 1]);
        assert(b.subrange(pos, pos + 8)[2] == b[pos + 2]);
        assert(b.subrange(pos, pos + 8)[3] == b[pos + 3]);
        assert(b.subrange(pos, pos + 8)[4] == b[pos + 4]);
        assert(b.subrange(pos, pos + 8)[5] == b[pos + 5]);
        assert(b.subrange(pos, pos + 8)[6] == b[pos + 6]);
        assert(b.subrange(pos, pos + 8)[7] == b[pos + 7]);
    }
    lemma_u64_bytes_reassemble(x);
    assert(u64_le(b, pos) == x);
}

proof fn lemma_dec_digest_of_enc(b: Seq<u8>, pos: int, d: Digest)
    requires
        0 <= pos,
        pos + 32 <= b.len(),
        b.subrange(pos, pos + 32) == enc_digest(d),
    ensures
        dec_digest(b, pos) == Option::Some((d, pos + 32)),
{
    let e0 = enc_u64(d.e0);
    let e1 = enc_u64(d.e1);
    let e2 = enc_u64(d.e2);
    let e3 = enc_u64(d.e3);
    assert(enc_digest(d) == ((e0 + e1) + e2) + e3);
    assert(((e0 + e1) + e2) + e3 =~= e0 + (e1 + (e2 + e3)));
    lemma_split_prefix(b, pos, e0, e1 + (e2 + e3));
    lemma_split_prefix(b, pos + 8, e1, e2 + e3);
    lemma_split_prefix(b, pos + 16, e2, e3);
    lemma_dec_u64_of_enc(b, pos, d.e0);
    lemma_dec_u64_of_enc(b, pos + 8, d.e1);
    lemma_dec_u64_of_enc(b, pos + 16, d.e2);
    lemma_dec_u64_of_enc(b, pos + 24, d.e3);
}

proof fn lemma_dec_ext_of_enc(b: Seq<u8>, pos: int, e: ExtElem)
    requires
        0 <= pos,
        pos + 16 <= b.len(),
        b.subrange(pos, pos + 16) == enc_ext(e),
    ensures
        dec_ext(b, pos) == Option::Some((e, pos + 16)),
{
    lemma_split_prefix(b, pos, enc_u64(e.c0), enc_u64(e.c1));
    lemma_dec_u64_of_enc(b, pos, e.c0);
    lemma_dec_u64_of_enc(b, pos + 8, e.c1);
}

proof fn lemma_dec_digest_seq_of_enc(b: Seq<u8>, pos: int, s: Seq<Digest>)
    requires
        0 <= pos,
        pos + enc_digest_seq(s).len() <= b.len(),
        b.subrange(pos, pos + enc_digest_seq(s).len() as int) == enc_digest_seq(s),
    ensures
        dec_digest_seq(b, pos, s.len()) == Option::Some((s, pos + enc_digest_seq(s).len())),
    decreases s.len(),
{
    if s.len() == 0 {
        assert(s =~= Seq::<Digest>::empty());
    } else {
        let d = s.drop_first();
        let e0 = enc_digest(s[0]);
        let rest = enc_digest_seq(d);
        assert(enc_digest_seq(s) == e0 + rest);
        lemma_split_prefix(b, pos, e0, rest);
        lemma_dec_digest_of_enc_at(b, pos, s[0]);
        lemma_dec_digest_seq_of_enc(b, pos + e0.len(), d);
        assert(seq![s[0]] + d =~= s);
    }
}

proof fn lemma_dec_digest_vec_of_enc(b: Seq<u8>, pos: int, s: Seq<Digest>)
    requires
        0 <= pos,
        s.len() <= usize::MAX,
        pos + enc_digest_vec(s).len() <= b.len(),
        b.subrange(pos, pos + enc_digest_vec(s).len() as int) == enc_digest_vec(s),
    ensures
        dec_digest_vec(b, pos) == Option::Some((s, pos + enc_digest_vec(s).len())),
{
    lemma_split_prefix(b, pos, enc_u64(s.len() as u64), enc_digest_seq(s));
    lemma_dec_u64_of_enc(b, pos, s.len() as u64);
    lemma_dec_digest_seq_of_enc(b, pos + 8, s);
}

proof fn lemma_dec_cap_seq_of_enc(b: Seq<u8>, pos: int, s: Seq<Seq<Digest>>)
    requires
        0 <= pos,
        pos + enc_cap_seq(s).len() <= b.len(),
        b.subrange(pos, pos + enc_cap_seq(s).len() as int) == enc_cap_seq(s),
        forall|i: int| 0 <= i < s.len() ==> (#[trigger] s[i]).len() <= usize::MAX,
    ensures
        dec_cap_seq(b, pos, s.len()) == Option::Some((s, pos + enc_cap_seq(s).len())),
    decreases s.len(),
{
    if s.len() == 0 {
        assert(s =~= Seq::<Seq<Digest>>::empty());
    } else {
        let d = s.drop_first();
        let e0 = enc_digest_vec(s[0]);
        let rest = enc_cap_seq(d);
        assert(enc_cap_seq(s) == e0 + rest);
        lemma_split_prefix(b, pos, e0, rest);
        lemma_dec_digest_vec_of_enc_at(b, pos, s[0]);
        assert forall|i: int| 0 <= i < d.len() implies (#[trigger] d[i]).len() <= usize::MAX by {
            assert(d[i] == s[i + 1]);
        }
        lemma_dec_cap_seq_of_enc(b, pos + e0.len(), d);
        assert(seq![s[0]] + d =~= s);
    }
}

proof fn lemma_dec_cap_vec_of_enc(b: Seq<u8>, pos: int, s: Seq<Seq<Digest>>)
    requires
        0 <= pos,
        s.len() <= usize::MAX,
        pos + enc_cap_vec(s).len() <= b.len(),
        b.subrange(pos, pos + enc_cap_vec(s).len() as int) == enc_cap_vec(s),
        forall|i: int| 0 <= i < s.len() ==> (#[trigger] s[i]).len() <= usize::MAX,
    ensures
        dec_cap_vec(b, pos) == Option::Some((s, pos + enc_cap_vec(s).len())),
{
    lemma_split_prefix(b, pos, enc_u64(s.len() as u64), enc_cap_seq(s));
    lemma_dec_u64_of_enc(b, pos, s.len() as u64);
    lemma_dec_cap_seq_of_enc(b, pos + 8, s);
}

proof fn lemma_dec_u64_seq_of_enc(b: Seq<u8>, pos: int, s: Seq<u64>)
    requires
        0 <= pos,
        pos + enc_u64_seq(s).len() <= b.len(),
        b.subrange(pos, pos + enc_u64_seq(s).len() as int) == enc_u64_seq(s),
    ensures
        dec_u64_seq(b, pos, s.len()) == Option::Some((s, pos + enc_u64_seq(s).len())),
    decreases s.len(),
{
    if s.len() == 0 {
        assert(s =~= Seq::<u64>::empty());
    } else {
        let d = s.drop_first();
        let e0 = enc_u64(s[0]);
        let rest = enc_u64_seq(d);
        assert(enc_u64_seq(s) == e0 + rest);
        lemma_split_prefix(b, pos, e0, rest);
        lemma_dec_u64_of_enc_at(b, pos, s[0]);
        lemma_dec_u64_seq_of_enc(b, pos + e0.len(), d);
        assert(seq![s[0]] + d =~= s);
    }
}

proof fn lemma_dec_u64_vec_of_enc(b: Seq<u8>, pos: int, s: Seq<u64>)
    requires
        0 <= pos,
        s.len() <= usize::MAX,
        pos + enc_u64_vec(s).len() <= b.len(),
        b.subrange(pos, pos + enc_u64_vec(s).len() as int) == enc_u64_vec(s),
    ensures
        dec_u64_vec(b, pos) == Option::Some((s, pos + enc_u64_vec(s).len())),
{
    lemma_split_prefix(b, pos, enc_u64(s.len() as u64), enc_u64_seq(s));
    lemma_dec_u64_of_enc(b, pos, s.len() as u64);
    lemma_dec_u64_seq_of_enc(b, pos + 8, s);
}

proof fn lemma_dec_row_seq_of_enc(b: Seq<u8>, pos: int, s: Seq<Seq<u64>>)
    requires
        0 <= pos,
        pos + enc_row_seq(s).len() <= b.len(),
        b.subrange(pos, pos + enc_row_seq(s).len() as int) == enc_row_seq(s),
        forall|i: int| 0 <= i < s.len() ==> (#[trigger] s[i]).len() <= usize::MAX,
    ensures
        dec_row_seq(b, pos, s.len()) == Option::Some((s, pos + enc_row_seq(s).len())),
    decreases s.len(),
{
    if s.len() == 0 {
        assert(s =~= Seq::<Seq<u64>>::empty());
    } else {
        let d = s.drop_first();
        let e0 = enc_u64_vec(s[0]);
        let rest = enc_row_seq(d);
        assert(enc_row_seq(s) == e0 + rest);
        lemma_split_prefix(b, pos, e0, rest);
        lemma_dec_u64_vec_of_enc_at(b, pos, s[0]);
        assert forall|i: int| 0 <= i < d.len() implies (#[trigger] d[i]).len() <= usize::MAX by {
            assert(d[i] == s[i + 1]);
        }
        lemma_dec_row_seq_of_enc(b, pos + e0.len(), d);
        assert(seq![s[0]] + d =~= s);
    }
}

proof fn lemma_dec_row_vec_of_enc(b: Seq<u8>, pos: int, s: Seq<Seq<u64>>)
    requires
        0 <= pos,
        s.len() <= usize::MAX,
        pos + enc_row_vec(s).len() <= b.len(),
        b.subrange(pos, pos + enc_row_vec(s).len() as int) == enc_row_vec(s),
        forall|i: int| 0 <= i < s.len() ==> (#[trigger] s[i]).len() <= usize::MAX,
    ensures
        dec_row_vec(b, pos) == Option::Some((s, pos + enc_row_vec(s).len())),
{
    lemma_split_prefix(b, pos, enc_u64(s.len() as u64), enc_row_seq(s));
    lemma_dec_u64_of_enc(b, pos, s.len() as u64);
    lemma_dec_row_seq_of_enc(b, pos + 8, s);
}

proof fn lemma_dec_ext_seq_of_enc(b: Seq<u8>, pos: int, s: Seq<ExtElem>)
    requires
        0 <= pos,
        pos + enc_ext_seq(s).len() <= b.len(),
        b.subrange(pos, pos + enc_ext_seq(s).len() as int) == enc_ext_seq(s),
    ensures
        dec_ext_seq(b, pos, s.len()) == Option::Some((s, pos + enc_ext_seq(s).len())),
    decreases s.len(),
{
    if s.len() == 0 {
        assert(s =~= Seq::<ExtElem>::empty());
    } else {
        let d = s.drop_first();
        let e0 = enc_ext(s[0]);
        let rest = enc_ext_seq(d);
        assert(enc_ext_seq(s) == e0 + rest);
        lemma_split_prefix(b, pos, e0, rest);
        lemma_dec_ext_of_enc_at(b, pos, s[0]);
        lemma_dec_ext_seq_of_enc(b, pos + e0.len(), d);
        assert(seq![s[0]] + d =~= s);
    }
}

proof fn lemma_dec_ext_vec_of_enc(b: Seq<u8>, pos: int, s: Seq<ExtElem>)
    requires
        0 <= pos,
        s.len() <= usize::MAX,
        pos + enc_ext_vec(s).len() <= b.len(),
        b.subrange(pos, pos + enc_ext_vec(s).len() as int) == enc_ext_vec(s),
    ensures
        dec_ext_vec(b, pos) == Option::Some((s, pos + enc_ext_vec(s).len())),
{
    lemma_split_prefix(b, pos, enc_u64(s.len() as u64), enc_ext_seq(s));
    lemma_dec_u64_of_enc(b, pos, s.len() as u64);
    lemma_dec_ext_seq_of_enc(b, pos + 8, s);
}

proof fn lemma_dec_digest_of_enc_at(b: Seq<u8>, pos: int, d: Digest)
    requires
        0 <= pos,
        pos + enc_digest(d).len() <= b.len(),
        b.subrange(pos, pos + enc_digest(d).len() as int) == enc_digest(d),
    ensures
        dec_digest(b, pos) == Option::Some((d, pos + enc_digest(d).len())),
{
    assert(enc_digest(d).len() == 32);
    lemma_dec_digest_of_enc(b, pos, d);
}

proof fn lemma_dec_u64_of_enc_at(b: Seq<u8>, pos: int, x: u64)
    requires
        0 <= pos,
        pos + enc_u64(x).len() <= b.len(),
        b.subrange(pos, pos + enc_u64(x).len() as int) == enc_u64(x),
    ensures
        dec_u64(b, pos) == Option::Some((x, pos + enc_u64(x).len())),
{
    assert(enc_u64(x).len() == 8);
    lemma_dec_u64_of_enc(b, pos, x);
}

proof fn lemma_dec_ext_of_enc_at(b: Seq<u8>, pos: int, e: ExtElem)
    requires
        0 <= pos,
        pos + enc_ext(e).len() <= b.len(),
        b.subrange(pos, pos + enc_ext(e).len() as int) == enc_ext(e),
    ensures
        dec_ext(b, pos) == Option::Some((e, pos + enc_ext(e).len())),
{
    assert(enc_ext(e).len() == 16);
    lemma_dec_ext_of_enc(b, pos, e);
}

proof fn lemma_dec_digest_vec_of_enc_at(b: Seq<u8>, pos: int, s: Seq<Digest>)
    requires
        0 <= pos,
        s.len() <= usize::MAX,
        pos + enc_digest_vec(s).len() <= b.len(),
        b.subrange(pos, pos + enc_digest_vec(s).len() as int) == enc_digest_vec(s),
    ensures
        dec_digest_vec(b, pos) == Option::Some((s, pos + enc_digest_vec(s).len())),
{
    lemma_dec_digest_vec_of_enc(b, pos, s);
}

proof fn lemma_dec_u64_vec_of_enc_at(b: Seq<u8>, pos: int, s: Seq<u64>)
    requires
        0 <= pos,
        s.len() <= usize::MAX,
        pos + enc_u64_vec(s).len() <= b.len(),
        b.subrange(pos, pos + enc_u64_vec(s).len() as int) == enc_u64_vec(s),
    ensures
        dec_u64_vec(b, pos) == Option::Some((s, pos + enc_u64_vec(s).len())),
{
    lemma_dec_u64_vec_of_enc(b, pos, s);
}

proof fn lemma_dec_step_of_enc(b: Seq<u8>, pos: int, s: StepView)
    requires
        0 <= pos,
        step_bounded(s),
        pos + enc_step(s).len() <= b.len(),
        b.subrange(pos, pos + enc_step(s).len() as int) == enc_step(s),
    ensures
        dec_step(b, pos) == Option::Some((s, pos + enc_step(s).len())),
{
    lemma_split_prefix(b, pos, enc_ext(s.sibling_value), enc_digest_vec(s.opening_proof));
    assert(enc_ext(s.sibling_value).len() == 16);
    lemma_dec_ext_of_enc(b, pos, s.sibling_value);
    lemma_dec_digest_vec_of_enc(b, pos + 16, s.opening_proof);
}

proof fn lemma_dec_query_of_enc(b: Seq<u8>, pos: int, q: QueryView)
    requires
        0 <= pos,
        query_bounded(q),
        pos + enc_query(q).len() <= b.len(),
        b.subrange(pos, pos + enc_query(q).len() as int) == enc_query(q),
    ensures
        dec_query(b, pos) == Option::Some((q, pos + enc_query(q).len())),
{
    let a = enc_row_vec(q.initial_trees_proof);
    lemma_split_prefix(b, pos, a, enc_step_vec(q.steps));
    lemma_dec_row_vec_of_enc(b, pos, q.initial_trees_proof);
    lemma_dec_step_vec_of_enc(b, pos + a.len(), q.steps);
}

proof fn lemma_dec_step_seq_of_enc(b: Seq<u8>, pos: int, s: Seq<StepView>)
    requires
        0 <= pos,
        pos + enc_step_seq(s).len() <= b.len(),
        b.subrange(pos, pos + enc_step_seq(s).len() as int) == enc_step_seq(s),
        forall|i: int| 0 <= i < s.len() ==> step_bounded(#[trigger] s[i]),
    ensures
        dec_step_seq(b, pos, s.len()) == Option::Some((s, pos + enc_step_seq(s).len())),
    decreases s.len(),
{
    if s.len() == 0 {
        assert(s =~= Seq::<StepView>::empty());
    } else {
        let d = s.drop_first();
        let e0 = enc_step(s[0]);
        let rest = enc_step_seq(d);
        assert(enc_step_seq(s) == e0 + rest);
        lemma_split_prefix(b, pos, e0, rest);
        lemma_dec_step_of_enc(b, pos, s[0]);
        assert forall|i: int| 0 <= i < d.len() implies step_bounded(#[trigger] d[i]) by {
            assert(d[i] == s[i + 1]);
        }
        lemma_dec_step_seq_of_enc(b, pos + e0.len(), d);
        assert(seq![s[0]] + d =~= s);
    }
}

proof fn lemma_dec_step_vec_of_enc(b: Seq<u8>, pos: int, s: Seq<StepView>)
    requires
        0 <= pos,
        s.len() <= usize::MAX,
        pos + enc_step_vec(s).len() <= b.len(),
        b.subrange(pos, pos + enc_step_vec(s).len() as int) == enc_step_vec(s),
        forall|i: int| 0 <= i < s.len() ==> step_bounded(#[trigger] s[i]),
    ensures
        dec_step_vec(b, pos) == Option::Some((s, pos + enc_step_vec(s).len())),
{
    lemma_split_prefix(b, pos, enc_u64(s.len() as u64), enc_step_seq(s));
    lemma_dec_u64_of_enc(b, pos, s.len() as u64);
    lemma_dec_step_seq_of_enc(b, pos + 8, s);
}

#[verifier::rlimit(100)]
#[verifier::spinoff_prover]
proof fn lemma_dec_query_seq_of_enc(b: Seq<u8>, pos: int, s: Seq<QueryView>)
    requires
        0 <= pos,
        pos + enc_query_seq(s).len() <= b.len(),
        b.subrange(pos, pos + enc_query_seq(s).len() as int) == enc_query_seq(s),
        forall|i: int| 0 <= i < s.len() ==> query_bounded(#[trigger] s[i]),
    ensures
        dec_query_seq(b, pos, s.len()) == Option::Some((s, pos + enc_query_seq(s).len())),
    decreases s.len(),
{
    if s.len() == 0 {
        assert(s =~= Seq::<QueryView>::empty());
    } else {
        let d = s.drop_first();
        let e0 = enc_query(s[0]);
        let rest = enc_query_seq(d);
        assert(enc_query_seq(s) == e0 + rest);
        lemma_split_prefix(b, pos, e0, rest);
        lemma_dec_query_of_enc(b, pos, s[0]);
        assert forall|i: int| 0 <= i < d.len() implies query_bounded(#[trigger] d[i]) by {
            assert(d[i] == s[i + 1]);
        }
        lemma_dec_query_seq_of_enc(b, pos + e0.len(), d);
        assert(seq![s[0]] + d =~= s);
    }
}

proof fn lemma_dec_query_vec_of_enc(b: Seq<u8>, pos: int, s: Seq<QueryView>)
    requires
        0 <= pos,
        s.len() <= usize::MAX,
        pos + enc_query_vec(s).len() <= b.len(),
        b.subrange(pos, pos + enc_query_vec(s).len() as int) == enc_query_vec(s),
        forall|i: int| 0 <= i < s.len() ==> query_bounded(#[trigger] s[i]),
    ensures
        dec_query_vec(b, pos) == Option::Some((s, pos + enc_query_vec(s).len())),
{
    lemma_split_prefix(b, pos, enc_u64(s.len() as u64), enc_query_seq(s));
    lemma_dec_u64_of_enc(b, pos, s.len() as u64);
    lemma_dec_query_seq_of_enc(b, pos + 8, s);
}

#[verifier::rlimit(50)]
proof fn lemma_dec_fri_of_enc(b: Seq<u8>, pos: int, f: FriView)
    requires
        0 <= pos,
        f.commit_phase_caps.len() <= usize::MAX,
        forall|i: int|
            0 <= i < f.commit_phase_caps.len() ==> (#[trigger] f.commit_phase_caps[i]).len()
                <= usize::MAX,
        f.query_proofs.len() <= usize::MAX,
        forall|i: int| 0 <= i < f.query_proofs.len() ==> query_bounded(#[trigger] f.query_proofs[i]),
        f.final_poly.len() <= usize::MAX,
        pos + enc_fri(f).len() <= b.len(),
        b.subrange(pos, pos + enc_fri(f).len() as int) == enc_fri(f),
    ensures
        dec_fri(b, pos) == Option::Some((f, pos + enc_fri(f).len())),
{
    let a = enc_cap_vec(f.commit_phase_caps);
    let c = enc_query_vec(f.query_proofs);
    let d = enc_ext_vec(f.final_poly);
    assert(enc_fri(f) == (a + c) + d);
    assert((a + c) + d =~= a + (c + d));
    lemma_split_prefix(b, pos, a, c + d);
    lemma_split_prefix(b, pos + a.len(), c, d);
    lemma_dec_cap_vec_of_enc(b, pos, f.commit_phase_caps);
    lemma_dec_query_vec_of_enc(b, pos + a.len(), f.query_proofs);
    lemma_dec_ext_vec_of_enc(b, pos + a.len() + c.len() as int, f.final_poly);
}

/// Any proof held in memory has machine-bounded lists, so the round-trip
/// law below applies to every value of `STARKProof`.
pub proof fn lemma_proof_view_bounded(p: &STARKProof)
    ensures
        proof_bounded(p@),
{
    vstd::std_specs::vec::axiom_spec_len(&p.trace_cap);
    vstd::std_specs::vec::axiom_spec_len(&p.quotient_chunks_cap);
    vstd::std_specs::vec::axiom_spec_len(&p.fri_proof.commit_phase_caps);
    vstd::std_specs::vec::axiom_spec_len(&p.fri_proof.query_proofs);
    vstd::std_specs::vec::axiom_spec_len(&p.fri_proof.final_poly);
    assert forall|i: int|
        0 <= i < p@.fri.commit_phase_caps.len() implies (
    #[trigger] p@.fri.commit_phase_caps[i]).len() <= usize::MAX by {
        assert(p@.fri.commit_phase_caps[i] == p.fri_proof.commit_phase_caps@[i]@);
        vstd::std_specs::vec::axiom_spec_len(&p.fri_proof.commit_phase_caps@[i]);
    }
    assert forall|i: int|
        0 <= i < p@.fri.query_proofs.len() implies query_bounded(
        #[trigger] p@.fri.query_proofs[i]) by {
        let q = p.fri_proof.query_proofs@[i];
        assert(p@.fri.query_proofs[i] == q@);
        vstd::std_specs::vec::axiom_spec_len(&q.initial_trees_proof);
        vstd::std_specs::vec::axiom_spec_len(&q.steps);
        assert forall|t: int|
            0 <= t < q@.initial_trees_proof.len() implies (
        #[trigger] q@.initial_trees_proof[t]).len() <= usize::MAX by {
            assert(q@.initial_trees_proof[t] == q.initial_trees_proof@[t]@);
            vstd::std_specs::vec::axiom_spec_len(&q.initial_trees_proof@[t]);
        }
        assert forall|t: int| 0 <= t < q@.steps.len() implies step_bounded(
            #[trigger] q@.steps[t],
        ) by {
            assert(q@.steps[t] == q.steps@[t]@);
            vstd::std_specs::vec::axiom_spec_len(&q.steps@[t].opening_proof);
        }
    }
}

/// Law: the codec round-trips. Decoding the encoding of any proof whose
/// lists fit machine lengths yields exactly that proof.
#[verifier::rlimit(100)]
#[verifier::spinoff_prover]
pub proof fn lemma_codec_round_trip(p: ProofView)
    requires
        proof_bounded(p),
    ensures
        spec_decode_proof(spec_encode_proof(p)) == Option::Some(p),
{
    let b = spec_encode_proof(p);
    let a = enc_digest_vec(p.trace_cap);
    let c = enc_digest_vec(p.quotient_chunks_cap);
    let d = enc_fri(p.fri);
    assert(b == (a + c) + d);
    assert((a + c) + d =~= a + (c + d));
    assert(b.subrange(0, b.len() as int) =~= b);
    lemma_split_prefix(b, 0, a, c + d);
    lemma_split_prefix(b, a.len() as int, c, d);
    lemma_dec_digest_vec_of_enc(b, 0, p.trace_cap);
    lemma_dec_digest_vec_of_enc(b, a.len() as int, p.quotient_chunks_cap);
    lemma_dec_fri_of_enc(b, a.len() + c.len() as int, p.fri);
}

} // verus!
