//! The proof and public-input data model, and the derived sizing
//! parameters of the schema.
//!
//! The proof is an already-verified STARK proof consumed only for its
//! stored values: protocol options, commitments, out-of-domain
//! evaluations, the FRI sub-proof, and the decommitted trace values
//! with their inclusion proofs.  The public input carries the execution
//! metadata and the public memory.  Everything is held as plain values;
//! nothing here is mutated after construction.
use vstd::prelude::*;

verus! {

use crate::digest::MixedDigest;
use crate::merkle::MerkleProof;
use crate::scalar::Felt;
use vstd::arithmetic::div_mod::lemma_div_is_ordered_by_denominator;
use vstd::arithmetic::div_mod::lemma_multiply_divide_lt;
use vstd::arithmetic::power2::lemma2_to64;
use vstd::arithmetic::power2::lemma2_to64_rest;
use vstd::arithmetic::power2::lemma_pow2_adds;
use vstd::arithmetic::power2::pow2;

/// Protocol parameters stored with the proof.
pub struct ProofOptions {
    pub num_queries: u64,
    pub lde_blowup_factor: u64,
    pub grinding_factor: u64,
    pub fri_folding_factor: u64,
    pub fri_max_remainder_coeffs: u64,
}

/// One committed FRI layer: its commitment, the flattened coset rows
/// (each contiguous run of folding-factor values is one coset), and the
/// layer's inclusion proof.
pub struct FriLayer {
    pub commitment: MixedDigest,
    pub flattened_rows: Vec<Felt>,
    pub merkle_proof: MerkleProof,
}

/// The FRI sub-proof: the ordered layers and the remainder coefficients
/// of the terminal layer.
pub struct FriProof {
    pub layers: Vec<FriLayer>,
    pub remainder_coeffs: Vec<Felt>,
}

/// Decommitted trace values and their inclusion proofs, per column
/// group.
pub struct TraceQueries {
    pub base_trace_values: Vec<Felt>,
    pub extension_trace_values: Vec<Felt>,
    pub composition_trace_values: Vec<Felt>,
    pub base_trace_proof: MerkleProof,
    pub extension_trace_proof: Option<MerkleProof>,
    pub composition_trace_proof: MerkleProof,
}

/// The proof object handed in by the upstream verification step.
pub struct StarkProof {
    pub options: ProofOptions,
    pub trace_len: u64,
    pub base_trace_commitment: MixedDigest,
    pub extension_trace_commitment: Option<MixedDigest>,
    pub composition_trace_commitment: MixedDigest,
    pub execution_trace_ood_evals: Vec<Felt>,
    pub composition_trace_ood_evals: Vec<Felt>,
    pub fri_proof: FriProof,
    pub pow_nonce: u64,
    pub trace_queries: TraceQueries,
}

/// One named memory segment's boundaries.
#[derive(Clone, Copy)]
pub struct MemorySegment {
    pub begin_addr: u64,
    pub stop_ptr: u64,
}

/// The named segments of the public input; all but program and
/// execution are optional upstream yet required by the supported
/// layout.
pub struct MemorySegments {
    pub program: MemorySegment,
    pub execution: MemorySegment,
    pub output: Option<MemorySegment>,
    pub pedersen: Option<MemorySegment>,
    pub range_check: Option<MemorySegment>,
    pub bitwise: Option<MemorySegment>,
}

/// One public memory cell.
#[derive(Clone, Copy)]
pub struct MemoryEntry {
    pub address: u64,
    pub value: Felt,
}

/// The execution-trace layout discriminant of the public input.
#[derive(Clone, Copy, PartialEq, Eq, Structural, Debug)]
pub enum Layout {
    Plain,
    Small,
    Dex,
    Recursive,
    Starknet,
    StarknetWithKeccak,
}

/// The public input of the execution whose proof is re-encoded.
pub struct AirPublicInput {
    pub n_steps: u64,
    pub rc_min: u64,
    pub rc_max: u64,
    pub layout: Layout,
    pub memory_segments: MemorySegments,
    pub public_memory_padding: MemoryEntry,
    pub public_memory: Vec<MemoryEntry>,
}

/// Every way an encoding run refuses its input; the schema has no
/// encoding for an absent section, so each is fatal and nothing partial
/// is ever produced.
#[derive(Clone, Copy, PartialEq, Eq, Structural, Debug)]
pub enum EncodeError {
    /// The layout tag is not the supported recursive layout.
    UnsupportedLayout,
    /// A memory segment the supported layout requires is absent.
    MissingMemorySegment,
    /// The extension-trace commitment is absent.
    MissingExtensionCommitment,
    /// The extension-trace inclusion proof is absent.
    MissingExtensionProof,
    /// A size or factor degenerates the derived schema parameters.
    DegenerateParameters,
    /// A commitment uses the unsupported single-column variant.
    SingleColumnCommitment,
    /// A query position leaves no room for coset indexing.
    PositionOutOfRange,
    /// A FRI layer's flattened rows do not match its folded positions.
    FriShapeMismatch,
}

/// Floor base-2 logarithm.
pub open spec fn spec_ilog2(v: nat) -> nat
    decreases v,
{
    if v < 2 {
        0
    } else {
        1 + spec_ilog2(v / 2)
    }
}

/// Floor base-2 logarithm of a positive value.
pub fn ilog2_u64(v: u64) -> (r: u64)
    requires
        v >= 1,
    ensures
        r == spec_ilog2(v as nat),
        r <= 63,
{
    let mut cur = v;
    let mut r: u64 = 0;
    proof {
        lemma2_to64();
        lemma2_to64_rest();
    }
    while cur >= 2
        invariant
            cur >= 1,
            r + spec_ilog2(cur as nat) == spec_ilog2(v as nat),
            (cur as nat) < pow2((64 - r) as nat),
            r <= 63,
        decreases cur,
    {
        proof {
            lemma2_to64();
            lemma2_to64_rest();
            lemma_pow2_adds((63 - r) as nat, 1);
            lemma_multiply_divide_lt(cur as int, 2, pow2((63 - r) as nat) as int);
            if 64 - r == 1 {
                assert(cur < 2);
            }
        }
        cur = cur / 2;
        r = r + 1;
    }
    r
}

/// The number of committed FRI layers: how often the domain folds by
/// the folding factor before it no longer exceeds the remainder cap.
pub open spec fn spec_num_layers(domain: nat, f: nat, cap: nat) -> nat
    decreases domain,
    when f >= 2
    via spec_num_layers_dec
{
    if domain <= cap {
        0
    } else {
        1 + spec_num_layers(domain / f, f, cap)
    }
}

#[via_fn]
proof fn spec_num_layers_dec(domain: nat, f: nat, cap: nat) {
    if domain > cap {
        vstd::arithmetic::div_mod::lemma_div_decreases(domain as int, f as int);
    }
}

/// The evaluation-domain size of the terminal remainder layer.
pub open spec fn spec_remainder_size(domain: nat, f: nat, cap: nat) -> nat
    decreases domain,
    when f >= 2
    via spec_remainder_size_dec
{
    if domain <= cap {
        domain
    } else {
        spec_remainder_size(domain / f, f, cap)
    }
}

#[via_fn]
proof fn spec_remainder_size_dec(domain: nat, f: nat, cap: nat) {
    if domain > cap {
        vstd::arithmetic::div_mod::lemma_div_decreases(domain as int, f as int);
    }
}

/// Fold the domain down to the remainder cap, counting the layers and
/// keeping the final size.
pub fn fri_shape(domain: u64, f: u64, cap: u64) -> (r: (u64, u64))
    requires
        f >= 2,
    ensures
        r.0 == spec_num_layers(domain as nat, f as nat, cap as nat),
        r.1 == spec_remainder_size(domain as nat, f as nat, cap as nat),
        r.0 <= 64,
{
    let mut s = domain;
    let mut n: u64 = 0;
    proof {
        lemma2_to64();
        lemma2_to64_rest();
    }
    while s > cap
        invariant
            f >= 2,
            n + spec_num_layers(s as nat, f as nat, cap as nat) == spec_num_layers(
                domain as nat,
                f as nat,
                cap as nat,
            ),
            spec_remainder_size(s as nat, f as nat, cap as nat) == spec_remainder_size(
                domain as nat,
                f as nat,
                cap as nat,
            ),
            (s as nat) < pow2((64 - n) as nat),
            n <= 64,
        decreases s,
    {
        proof {
            lemma2_to64();
            lemma_pow2_adds((63 - n) as nat, 1);
            lemma_div_is_ordered_by_denominator(s as int, 2, f as int);
            lemma_multiply_divide_lt(s as int, 2, pow2((63 - n) as nat) as int);
            if 64 - n == 0 {
                assert(pow2(0) == 1);
                assert(false);
            }
            if 64 - n == 1 {
                assert(s < 2);
                assert(s / f as u64 == 0) by {
                    vstd::arithmetic::div_mod::lemma_basic_div(s as int, f as int);
                }
            }
        }
        s = s / f;
        n = n + 1;
    }
    (n, s)
}

/// Multiply two sizes, refusing on overflow.
pub fn checked_mul_u64(a: u64, b: u64) -> (r: Option<u64>)
    ensures
        r is Some <==> a * b <= u64::MAX,
        r matches Some(v) ==> v == a * b,
{
    a.checked_mul(b)
}

} // verus!
