//! The schema orchestrator: one depth-first pass over the proof and the
//! public input that populates the output buffer in the exact nested
//! order the on-chain verifier expects — protocol configuration, public
//! input, unsent commitments, then witness data — deriving every size
//! parameter from the proof's stored options along the way.
use vstd::prelude::*;

verus! {

use crate::buffer::ScopeNode;
use crate::buffer::SpecEntry;
use crate::buffer::felt_scalars;
use crate::buffer::mixed_scalar_val;
use crate::buffer::nat_scalars;
use crate::buffer::scalar_of;
use crate::buffer::word_scalars;
use crate::digest::MixedDigest;
use crate::digest::mixed_wf;
use crate::fri::fold_positions;
use crate::fri::fri_layer_witness;
use crate::fri::spec_fold_positions;
use crate::fri::spec_fri_witness;
use crate::merkle::MerkleProof;
use crate::merkle::MultiColProof;
use crate::merkle::get_merkle_witness_values;
use crate::merkle::merkle_proof_wf;
use crate::merkle::spec_merkle_witness;
use crate::merkle::word_vals;
use crate::proof_data::AirPublicInput;
use crate::proof_data::EncodeError;
use crate::proof_data::FriLayer;
use crate::proof_data::Layout;
use crate::proof_data::MemoryEntry;
use crate::proof_data::MemorySegment;
use crate::proof_data::StarkProof;
use crate::proof_data::checked_mul_u64;
use crate::proof_data::fri_shape;
use crate::proof_data::ilog2_u64;
use crate::proof_data::spec_ilog2;
use crate::proof_data::spec_num_layers;
use crate::proof_data::spec_remainder_size;
use crate::scalar::Felt;

/// Base-trace column count of the supported layout.
pub const NUM_BASE_COLUMNS: u64 = 9;

/// Extension-trace column count of the supported layout.
pub const NUM_EXTENSION_COLUMNS: u64 = 1;

/// How many top tree layers use the field-friendly hash.
pub const NUM_FRIENDLY_COMMITMENT_LAYERS: u64 = 16;

/// The layout tag scalar of the supported layout: its name's bytes read
/// big-endian.
pub const RECURSIVE_LAYOUT_CODE: u128 = 0x726563757273697665;

/// The evaluation-domain size: blowup times trace length.
pub open spec fn sp_lde(p: StarkProof) -> nat {
    (p.trace_len * p.options.lde_blowup_factor) as nat
}

pub open spec fn sp_log_lde(p: StarkProof) -> nat {
    spec_ilog2(sp_lde(p))
}

pub open spec fn sp_ff(p: StarkProof) -> nat {
    p.options.fri_folding_factor as nat
}

pub open spec fn sp_log_ff(p: StarkProof) -> nat {
    spec_ilog2(sp_ff(p))
}

/// The remainder cap: the largest domain left uncommitted.
pub open spec fn sp_cap(p: StarkProof) -> nat {
    (p.options.fri_max_remainder_coeffs * p.options.lde_blowup_factor) as nat
}

pub open spec fn sp_nlayers(p: StarkProof) -> nat {
    spec_num_layers(sp_lde(p), sp_ff(p), sp_cap(p))
}

pub open spec fn sp_rem(p: StarkProof) -> nat {
    spec_remainder_size(sp_lde(p), sp_ff(p), sp_cap(p))
}

/// Log of the terminal layer's degree bound.
pub open spec fn sp_last_bound(p: StarkProof) -> nat {
    spec_ilog2(sp_rem(p) / p.options.lde_blowup_factor as nat)
}

/// A vector commitment configuration: height, then the friendly-layer
/// count.
pub open spec fn vector_cfg(height: nat) -> SpecEntry {
    SpecEntry::Node(
        seq![scalar_of(height), scalar_of(NUM_FRIENDLY_COMMITMENT_LAYERS as nat)],
    )
}

/// A table commitment configuration: column count, then its vector
/// configuration.
pub open spec fn table_cfg(cols: nat, height: nat) -> SpecEntry {
    SpecEntry::Node(seq![scalar_of(cols), vector_cfg(height)])
}

/// The first `n` inner FRI layer configurations, heights decreasing by
/// the folding log each layer.
pub open spec fn inner_layer_cfgs(p: StarkProof, n: nat) -> Seq<SpecEntry>
    decreases n,
{
    if n == 0 {
        Seq::empty()
    } else {
        inner_layer_cfgs(p, (n - 1) as nat) + seq![
            scalar_of(sp_ff(p)),
            vector_cfg((sp_log_lde(p) - sp_log_ff(p) * n) as nat),
        ]
    }
}

/// The step-size run: a leading zero, then the folding log once per
/// layer.
pub open spec fn step_size_scalars(p: StarkProof) -> Seq<SpecEntry> {
    seq![scalar_of(0)] + Seq::new(sp_nlayers(p), |i: int| scalar_of(sp_log_ff(p)))
}

/// The protocol-configuration section.
pub open spec fn spec_stark_config(p: StarkProof) -> SpecEntry {
    SpecEntry::Node(
        seq![
            SpecEntry::Node(
                seq![
                    table_cfg(NUM_BASE_COLUMNS as nat, sp_log_lde(p)),
                    table_cfg(NUM_EXTENSION_COLUMNS as nat, sp_log_lde(p)),
                ],
            ),
            table_cfg(2, sp_log_lde(p)),
            SpecEntry::Node(
                seq![
                    scalar_of(sp_log_lde(p)),
                    scalar_of(sp_nlayers(p) + 1),
                    SpecEntry::Node(inner_layer_cfgs(p, sp_nlayers(p))),
                ] + step_size_scalars(p) + seq![scalar_of(sp_last_bound(p))],
            ),
            SpecEntry::Node(seq![scalar_of(p.options.grinding_factor as nat)]),
            scalar_of(spec_ilog2(p.trace_len as nat)),
            scalar_of(p.options.num_queries as nat),
            scalar_of(spec_ilog2(p.options.lde_blowup_factor as nat)),
            scalar_of(NUM_FRIENDLY_COMMITMENT_LAYERS as nat),
        ],
    )
}

/// The two boundary scalars of one memory segment.
pub open spec fn seg_pair(s: MemorySegment) -> Seq<SpecEntry> {
    seq![scalar_of(s.begin_addr as nat), scalar_of(s.stop_ptr as nat)]
}

/// The fixed segment order of the supported layout: program, execution,
/// output, the hash segment, range check, then bitwise.
pub open spec fn spec_segments(ai: AirPublicInput) -> Seq<SpecEntry> {
    seg_pair(ai.memory_segments.program) + seg_pair(ai.memory_segments.execution) + seg_pair(
        ai.memory_segments.output->Some_0,
    ) + seg_pair(ai.memory_segments.pedersen->Some_0) + seg_pair(
        ai.memory_segments.range_check->Some_0,
    ) + seg_pair(ai.memory_segments.bitwise->Some_0)
}

/// Address/value scalar pairs of the public memory, in order.
pub open spec fn mem_pairs(s: Seq<MemoryEntry>) -> Seq<SpecEntry>
    decreases s.len(),
{
    if s.len() == 0 {
        Seq::empty()
    } else {
        mem_pairs(s.drop_last()) + seq![
            scalar_of(s.last().address as nat),
            scalar_of(s.last().value.val()),
        ]
    }
}

/// The public-input section; continuous memory pages are always empty,
/// only the main page is carried.
pub open spec fn spec_public_input(ai: AirPublicInput) -> SpecEntry {
    SpecEntry::Node(
        seq![
            scalar_of(spec_ilog2(ai.n_steps as nat)),
            scalar_of(ai.rc_min as nat),
            scalar_of(ai.rc_max as nat),
            scalar_of(RECURSIVE_LAYOUT_CODE as nat),
            scalar_of(0),
            scalar_of(6),
            SpecEntry::Node(spec_segments(ai)),
            scalar_of(ai.public_memory_padding.address as nat),
            scalar_of(ai.public_memory_padding.value.val()),
            scalar_of(ai.public_memory@.len()),
            SpecEntry::Node(mem_pairs(ai.public_memory@)),
            scalar_of(0),
            scalar_of(0),
        ],
    )
}

/// The layer commitment scalars, in layer order.
pub open spec fn commit_scalars(layers: Seq<FriLayer>) -> Seq<SpecEntry> {
    layers.map_values(|l: FriLayer| scalar_of(mixed_scalar_val(l.commitment)))
}

/// The prover-announced commitment section: trace commitments, the
/// out-of-domain evaluations in execution-then-composition order, the
/// FRI layer commitments with the remainder coefficients, and the
/// proof-of-work nonce.
pub open spec fn spec_unsent_commitment(p: StarkProof) -> SpecEntry {
    SpecEntry::Node(
        seq![
            SpecEntry::Node(
                seq![
                    scalar_of(mixed_scalar_val(p.base_trace_commitment)),
                    scalar_of(mixed_scalar_val(p.extension_trace_commitment->Some_0)),
                ],
            ),
            scalar_of(mixed_scalar_val(p.composition_trace_commitment)),
            SpecEntry::Node(
                felt_scalars(p.execution_trace_ood_evals@) + felt_scalars(
                    p.composition_trace_ood_evals@,
                ),
            ),
            SpecEntry::Node(
                seq![
                    SpecEntry::Node(commit_scalars(p.fri_proof.layers@)),
                    SpecEntry::Node(felt_scalars(p.fri_proof.remainder_coeffs@)),
                ],
            ),
            SpecEntry::Node(seq![scalar_of(p.pow_nonce as nat)]),
        ],
    )
}

/// The multi-column proof a commitment carries; meaningful only when
/// the variant is the supported one.
pub open spec fn proof_multicol(mp: MerkleProof) -> MultiColProof {
    match mp {
        MerkleProof::MultiCol(m) => m,
        MerkleProof::SingleCol(_) => arbitrary(),
    }
}

/// A decommitted-values table: the count, then the values.
pub open spec fn table_decommit(vals: Seq<Felt>) -> SpecEntry {
    SpecEntry::Node(seq![scalar_of(vals.len()), SpecEntry::Node(felt_scalars(vals))])
}

/// A table commitment witness: the authentication count, then the
/// ordered witness values.
pub open spec fn table_witness(m: MultiColProof) -> SpecEntry {
    SpecEntry::Node(
        seq![
            SpecEntry::Node(
                seq![
                    scalar_of(m.sibling_leaves@.len() + m.nodes@.len()),
                    SpecEntry::Node(nat_scalars(spec_merkle_witness(m))),
                ],
            ),
        ],
    )
}

/// The per-layer FRI witness run: for each layer, the deduplicated leaf
/// count, the leaves, and the layer's Merkle witness; the positions
/// thread from one layer to the next by folding.
pub open spec fn fri_layer_entries(layers: Seq<FriLayer>, pos: Seq<u64>, f: u64) -> Seq<SpecEntry>
    decreases layers.len(),
{
    if layers.len() == 0 {
        Seq::empty()
    } else {
        let folded = spec_fold_positions(pos, f);
        let wit = spec_fri_witness(folded, f, layers[0].flattened_rows@, pos);
        seq![
            scalar_of(wit.len()),
            SpecEntry::Node(felt_scalars(wit)),
            table_witness(proof_multicol(layers[0].merkle_proof)),
        ] + fri_layer_entries(layers.drop_first(), folded, f)
    }
}

/// The witness section: decommitted values and Merkle witnesses for the
/// base, extension and composition trace in that order, then the FRI
/// layer witnesses.
pub open spec fn spec_witness(qp: Seq<u64>, p: StarkProof) -> SpecEntry {
    SpecEntry::Node(
        seq![
            SpecEntry::Node(
                seq![
                    table_decommit(p.trace_queries.base_trace_values@),
                    table_decommit(p.trace_queries.extension_trace_values@),
                ],
            ),
            SpecEntry::Node(
                seq![
                    table_witness(proof_multicol(p.trace_queries.base_trace_proof)),
                    table_witness(proof_multicol(p.trace_queries.extension_trace_proof->Some_0)),
                ],
            ),
            table_decommit(p.trace_queries.composition_trace_values@),
            table_witness(proof_multicol(p.trace_queries.composition_trace_proof)),
            SpecEntry::Node(
                seq![
                    SpecEntry::Node(
                        fri_layer_entries(
                            p.fri_proof.layers@,
                            qp,
                            p.options.fri_folding_factor,
                        ),
                    ),
                ],
            ),
        ],
    )
}

/// The whole wire artifact: the four top-level sections in order.
pub open spec fn spec_encode(qp: Seq<u64>, p: StarkProof, ai: AirPublicInput) -> Seq<SpecEntry> {
    seq![
        spec_stark_config(p),
        spec_public_input(ai),
        spec_unsent_commitment(p),
        spec_witness(qp, p),
    ]
}

/// Structural well-formedness of a stored proof: every digest carries
/// its full bytes, every high-level hash is canonical.
pub open spec fn proof_wf(p: StarkProof) -> bool {
    &&& mixed_wf(p.base_trace_commitment)
    &&& (p.extension_trace_commitment matches Some(c) ==> mixed_wf(c))
    &&& mixed_wf(p.composition_trace_commitment)
    &&& merkle_proof_wf(p.trace_queries.base_trace_proof)
    &&& (p.trace_queries.extension_trace_proof matches Some(mp) ==> merkle_proof_wf(mp))
    &&& merkle_proof_wf(p.trace_queries.composition_trace_proof)
    &&& forall|i: int|
        0 <= i < p.fri_proof.layers@.len() ==> mixed_wf(
            #[trigger] p.fri_proof.layers@[i].commitment,
        ) && merkle_proof_wf(p.fri_proof.layers@[i].merkle_proof)
}

/// The layer chain is encodable: each layer is a multi-column
/// commitment whose flattened rows hold one coset per folded position,
/// threading the positions by folding.
pub open spec fn fri_layers_ok(layers: Seq<FriLayer>, pos: Seq<u64>, f: u64) -> bool
    decreases layers.len(),
{
    if layers.len() == 0 {
        true
    } else {
        let folded = spec_fold_positions(pos, f);
        &&& layers[0].merkle_proof is MultiCol
        &&& layers[0].flattened_rows@.len() == folded.len() * f
        &&& fri_layers_ok(layers.drop_first(), folded, f)
    }
}

/// The first refusal the layer chain meets, in check order.
pub open spec fn fri_layers_err(layers: Seq<FriLayer>, pos: Seq<u64>, f: u64) -> EncodeError
    decreases layers.len(),
{
    if layers.len() == 0 {
        arbitrary()
    } else {
        let folded = spec_fold_positions(pos, f);
        if !(layers[0].merkle_proof is MultiCol) {
            EncodeError::SingleColumnCommitment
        } else if layers[0].flattened_rows@.len() != folded.len() * f {
            EncodeError::FriShapeMismatch
        } else {
            fri_layers_err(layers.drop_first(), folded, f)
        }
    }
}

/// Everything an encoding run demands of its input; exactly the inputs
/// on which the run returns the artifact.
pub open spec fn encodable(qp: Seq<u64>, p: StarkProof, ai: AirPublicInput) -> bool {
    &&& ai.layout == Layout::Recursive
    &&& ai.memory_segments.output is Some
    &&& ai.memory_segments.pedersen is Some
    &&& ai.memory_segments.range_check is Some
    &&& ai.memory_segments.bitwise is Some
    &&& p.extension_trace_commitment is Some
    &&& p.trace_queries.extension_trace_proof is Some
    &&& p.trace_len >= 1
    &&& p.options.lde_blowup_factor >= 1
    &&& p.options.fri_folding_factor >= 2
    &&& ai.n_steps >= 1
    &&& p.trace_len * p.options.lde_blowup_factor <= u64::MAX
    &&& p.options.fri_max_remainder_coeffs * p.options.lde_blowup_factor <= u64::MAX
    &&& sp_log_lde(p) >= sp_log_ff(p) * sp_nlayers(p)
    &&& sp_rem(p) >= p.options.lde_blowup_factor
    &&& p.trace_queries.base_trace_proof is MultiCol
    &&& p.trace_queries.extension_trace_proof->Some_0 is MultiCol
    &&& p.trace_queries.composition_trace_proof is MultiCol
    &&& (forall|i: int|
        0 <= i < qp.len() ==> #[trigger] qp[i] + p.options.fri_folding_factor <= u64::MAX)
    &&& fri_layers_ok(p.fri_proof.layers@, qp, p.options.fri_folding_factor)
}

/// The refusal an unencodable input earns, in check order.
pub open spec fn spec_encode_err(qp: Seq<u64>, p: StarkProof, ai: AirPublicInput) -> EncodeError {
    if ai.layout != Layout::Recursive {
        EncodeError::UnsupportedLayout
    } else if !(ai.memory_segments.output is Some) || !(ai.memory_segments.pedersen is Some)
        || !(ai.memory_segments.range_check is Some) || !(ai.memory_segments.bitwise is Some) {
        EncodeError::MissingMemorySegment
    } else if !(p.extension_trace_commitment is Some) {
        EncodeError::MissingExtensionCommitment
    } else if !(p.trace_queries.extension_trace_proof is Some) {
        EncodeError::MissingExtensionProof
    } else if !(p.trace_len >= 1) || !(p.options.lde_blowup_factor >= 1)
        || !(p.options.fri_folding_factor >= 2) || !(ai.n_steps >= 1) || !(p.trace_len
        * p.options.lde_blowup_factor <= u64::MAX) || !(p.options.fri_max_remainder_coeffs
        * p.options.lde_blowup_factor <= u64::MAX) || !(sp_log_lde(p) >= sp_log_ff(p)
        * sp_nlayers(p)) || !(sp_rem(p) >= p.options.lde_blowup_factor) {
        EncodeError::DegenerateParameters
    } else if !(p.trace_queries.base_trace_proof is MultiCol)
        || !(p.trace_queries.extension_trace_proof->Some_0 is MultiCol)
        || !(p.trace_queries.composition_trace_proof is MultiCol) {
        EncodeError::SingleColumnCommitment
    } else if !(forall|i: int|
        0 <= i < qp.len() ==> #[trigger] qp[i] + p.options.fri_folding_factor <= u64::MAX) {
        EncodeError::PositionOutOfRange
    } else {
        fri_layers_err(p.fri_proof.layers@, qp, p.options.fri_folding_factor)
    }
}

/// Each folded position inherits the headroom of its source position:
/// there is room to rebuild any absolute coset index beside it.
proof fn lemma_folded_bound(pos: Seq<u64>, f: u64)
    requires
        f >= 2,
        forall|i: int| 0 <= i < pos.len() ==> #[trigger] pos[i] + f <= u64::MAX,
    ensures
        forall|j: int|
            0 <= j < spec_fold_positions(pos, f).len() ==> #[trigger] spec_fold_positions(
                pos,
                f,
            )[j] as int <= (u64::MAX - f) as int / f as int,
        forall|j: int|
            0 <= j < spec_fold_positions(pos, f).len() ==> #[trigger] spec_fold_positions(
                pos,
                f,
            )[j] + f <= u64::MAX,
{
    let folded = spec_fold_positions(pos, f);
    crate::fri::lemma_fold_positions_arity(pos, f);
    assert forall|j: int| 0 <= j < folded.len() implies #[trigger] folded[j] as int <= (u64::MAX
        - f) as int / f as int && folded[j] + f <= u64::MAX by {
        let i = choose|i: int| 0 <= i < pos.len() && folded[j] == pos[i] / f;
        vstd::arithmetic::div_mod::lemma_div_is_ordered(
            pos[i] as int,
            (u64::MAX - f) as int,
            f as int,
        );
        vstd::arithmetic::div_mod::lemma_div_nonincreasing((u64::MAX - f) as int, f as int);
    }
}

/// Build a vector commitment configuration scope.
fn build_vector_cfg(height: u64) -> (r: ScopeNode)
    ensures
        SpecEntry::Node(r@) == vector_cfg(height as nat),
{
    let mut n = ScopeNode::new();
    n.write_u64(height);
    n.write_u64(NUM_FRIENDLY_COMMITMENT_LAYERS);
    proof {
        assert(n@ =~= seq![
            scalar_of(height as nat),
            scalar_of(NUM_FRIENDLY_COMMITMENT_LAYERS as nat),
        ]);
    }
    n
}

/// Build a table commitment configuration scope.
fn build_table_cfg(cols: u64, height: u64) -> (r: ScopeNode)
    ensures
        SpecEntry::Node(r@) == table_cfg(cols as nat, height as nat),
{
    let mut n = ScopeNode::new();
    n.write_u64(cols);
    n.push_scope(build_vector_cfg(height));
    proof {
        assert(n@ =~= seq![scalar_of(cols as nat), vector_cfg(height as nat)]);
    }
    n
}

/// Build the protocol-configuration section.
fn build_stark_config(p: &StarkProof) -> (r: ScopeNode)
    requires
        p.trace_len >= 1,
        p.options.lde_blowup_factor >= 1,
        p.options.fri_folding_factor >= 2,
        p.trace_len * p.options.lde_blowup_factor <= u64::MAX,
        p.options.fri_max_remainder_coeffs * p.options.lde_blowup_factor <= u64::MAX,
        sp_log_lde(*p) >= sp_log_ff(*p) * sp_nlayers(*p),
        sp_rem(*p) >= p.options.lde_blowup_factor,
    ensures
        SpecEntry::Node(r@) == spec_stark_config(*p),
{
    let lde = p.trace_len * p.options.lde_blowup_factor;
    let log_lde = ilog2_u64(lde);
    let log_ff = ilog2_u64(p.options.fri_folding_factor);
    let cap = p.options.fri_max_remainder_coeffs * p.options.lde_blowup_factor;
    let (nlayers, rem) = fri_shape(lde, p.options.fri_folding_factor, cap);

    let mut traces = ScopeNode::new();
    traces.push_scope(build_table_cfg(NUM_BASE_COLUMNS, log_lde));
    traces.push_scope(build_table_cfg(NUM_EXTENSION_COLUMNS, log_lde));
    proof {
        assert(traces@ =~= seq![
            table_cfg(NUM_BASE_COLUMNS as nat, sp_log_lde(*p)),
            table_cfg(NUM_EXTENSION_COLUMNS as nat, sp_log_lde(*p)),
        ]);
    }

    let mut fri_cfg = ScopeNode::new();
    fri_cfg.write_u64(log_lde);
    fri_cfg.write_u64(nlayers + 1);
    let mut inner = ScopeNode::new();
    let mut k: u64 = 0;
    while k < nlayers
        invariant
            k <= nlayers,
            log_lde == sp_log_lde(*p),
            log_ff == sp_log_ff(*p),
            nlayers == sp_nlayers(*p),
            nlayers <= 64,
            log_ff <= 63,
            sp_log_lde(*p) >= sp_log_ff(*p) * sp_nlayers(*p),
            inner@ == inner_layer_cfgs(*p, k as nat),
        decreases nlayers - k,
    {
        proof {
            vstd::arithmetic::mul::lemma_mul_inequality(
                k as int + 1,
                nlayers as int,
                log_ff as int,
            );
            vstd::arithmetic::mul::lemma_mul_is_commutative(k as int + 1, log_ff as int);
            vstd::arithmetic::mul::lemma_mul_is_commutative(nlayers as int, log_ff as int);
            vstd::arithmetic::mul::lemma_mul_upper_bound(log_ff as int, 63, k as int + 1, 64);
        }
        inner.write_u64(p.options.fri_folding_factor);
        let height = log_lde - log_ff * (k + 1);
        inner.push_scope(build_vector_cfg(height));
        k = k + 1;
        proof {
            assert(inner@ =~= inner_layer_cfgs(*p, (k - 1) as nat) + seq![
                scalar_of(sp_ff(*p)),
                vector_cfg((sp_log_lde(*p) - sp_log_ff(*p) * (k as nat)) as nat),
            ]);
        }
    }
    fri_cfg.push_scope(inner);
    let ghost fri_base = seq![
        scalar_of(sp_log_lde(*p)),
        scalar_of(sp_nlayers(*p) + 1),
        SpecEntry::Node(inner_layer_cfgs(*p, sp_nlayers(*p))),
    ];
    proof {
        assert(fri_cfg@ =~= fri_base);
    }
    fri_cfg.write_u64(0);
    let mut k2: u64 = 0;
    while k2 < nlayers
        invariant
            k2 <= nlayers,
            log_ff == sp_log_ff(*p),
            nlayers == sp_nlayers(*p),
            fri_cfg@ == fri_base + seq![scalar_of(0)] + Seq::new(
                k2 as nat,
                |i: int| scalar_of(sp_log_ff(*p)),
            ),
        decreases nlayers - k2,
    {
        fri_cfg.write_u64(log_ff);
        k2 = k2 + 1;
        proof {
            assert(fri_cfg@ =~= fri_base + seq![scalar_of(0)] + Seq::new(
                k2 as nat,
                |i: int| scalar_of(sp_log_ff(*p)),
            ));
        }
    }
    proof {
        assert(fri_cfg@ =~= fri_base + step_size_scalars(*p));
    }
    proof {
        vstd::arithmetic::div_mod::lemma_div_non_zero(rem as int, p.options.lde_blowup_factor as int);
    }
    fri_cfg.write_u64(ilog2_u64(rem / p.options.lde_blowup_factor));
    proof {
        assert(fri_cfg@ =~= fri_base + step_size_scalars(*p) + seq![
            scalar_of(sp_last_bound(*p)),
        ]);
    }

    let mut pow_cfg = ScopeNode::new();
    pow_cfg.write_u64(p.options.grinding_factor);
    proof {
        assert(pow_cfg@ =~= seq![scalar_of(p.options.grinding_factor as nat)]);
    }

    let mut cfg = ScopeNode::new();
    cfg.push_scope(traces);
    cfg.push_scope(build_table_cfg(2, log_lde));
    cfg.push_scope(fri_cfg);
    cfg.push_scope(pow_cfg);
    cfg.write_u64(ilog2_u64(p.trace_len));
    cfg.write_u64(p.options.num_queries);
    cfg.write_u64(ilog2_u64(p.options.lde_blowup_factor));
    cfg.write_u64(NUM_FRIENDLY_COMMITMENT_LAYERS);
    proof {
        assert(cfg@ =~= spec_stark_config(*p)->Node_0);
        assert(SpecEntry::Node(cfg@) == spec_stark_config(*p));
    }
    cfg
}

/// Build the public-input section.
#[verifier::rlimit(60)]
fn build_public_input(ai: &AirPublicInput) -> (r: ScopeNode)
    requires
        ai.layout == Layout::Recursive,
        ai.memory_segments.output is Some,
        ai.memory_segments.pedersen is Some,
        ai.memory_segments.range_check is Some,
        ai.memory_segments.bitwise is Some,
        ai.n_steps >= 1,
    ensures
        SpecEntry::Node(r@) == spec_public_input(*ai),
{
    let mut n = ScopeNode::new();
    n.write_u64(ilog2_u64(ai.n_steps));
    n.write_u64(ai.rc_min);
    n.write_u64(ai.rc_max);
    n.write_u128(RECURSIVE_LAYOUT_CODE);
    n.write_u64(0);
    n.write_u64(6);

    let mut segs = ScopeNode::new();
    let program = ai.memory_segments.program;
    let execution = ai.memory_segments.execution;
    let output = match &ai.memory_segments.output {
        Some(s) => *s,
        None => { proof { assert(false); } ai.memory_segments.program },
    };
    let pedersen = match &ai.memory_segments.pedersen {
        Some(s) => *s,
        None => { proof { assert(false); } ai.memory_segments.program },
    };
    let range_check = match &ai.memory_segments.range_check {
        Some(s) => *s,
        None => { proof { assert(false); } ai.memory_segments.program },
    };
    let bitwise = match &ai.memory_segments.bitwise {
        Some(s) => *s,
        None => { proof { assert(false); } ai.memory_segments.program },
    };
    segs.write_u64(program.begin_addr);
    segs.write_u64(program.stop_ptr);
    segs.write_u64(execution.begin_addr);
    segs.write_u64(execution.stop_ptr);
    segs.write_u64(output.begin_addr);
    segs.write_u64(output.stop_ptr);
    segs.write_u64(pedersen.begin_addr);
    segs.write_u64(pedersen.stop_ptr);
    segs.write_u64(range_check.begin_addr);
    segs.write_u64(range_check.stop_ptr);
    segs.write_u64(bitwise.begin_addr);
    segs.write_u64(bitwise.stop_ptr);
    proof {
        assert(segs@ =~= spec_segments(*ai));
    }
    n.push_scope(segs);

    n.write_u64(ai.public_memory_padding.address);
    n.write_felt(&ai.public_memory_padding.value);
    n.write_u64(ai.public_memory.len() as u64);

    let mut page = ScopeNode::new();
    let mut i: usize = 0;
    while i < ai.public_memory.len()
        invariant
            i <= ai.public_memory@.len(),
            page@ == mem_pairs(ai.public_memory@.subrange(0, i as int)),
        decreases ai.public_memory@.len() - i,
    {
        page.write_u64(ai.public_memory[i].address);
        page.write_felt(&ai.public_memory[i].value);
        proof {
            assert(ai.public_memory@.subrange(0, i + 1).drop_last() =~= ai.public_memory@.subrange(
                0,
                i as int,
            ));
            assert(page@ =~= mem_pairs(ai.public_memory@.subrange(0, i + 1)));
        }
        i = i + 1;
    }
    proof {
        assert(ai.public_memory@.subrange(0, ai.public_memory@.len() as int)
            =~= ai.public_memory@);
    }
    n.push_scope(page);

    n.write_u64(0);
    n.write_u64(0);
    proof {
        assert(n@ =~= spec_public_input(*ai)->Node_0);
        assert(SpecEntry::Node(n@) == spec_public_input(*ai));
    }
    n
}

/// Build the unsent-commitment section.
#[verifier::rlimit(60)]
fn build_unsent_commitment(p: &StarkProof) -> (r: ScopeNode)
    requires
        proof_wf(*p),
        p.extension_trace_commitment is Some,
    ensures
        SpecEntry::Node(r@) == spec_unsent_commitment(*p),
{
    let mut n = ScopeNode::new();

    let mut traces = ScopeNode::new();
    traces.write_mixed(&p.base_trace_commitment);
    match &p.extension_trace_commitment {
        Some(c) => traces.write_mixed(c),
        None => { proof { assert(false); } },
    }
    proof {
        assert(traces@ =~= seq![
            scalar_of(mixed_scalar_val(p.base_trace_commitment)),
            scalar_of(mixed_scalar_val(p.extension_trace_commitment->Some_0)),
        ]);
    }
    n.push_scope(traces);
    n.write_mixed(&p.composition_trace_commitment);

    let mut oods = ScopeNode::new();
    oods.write_felt_run(&p.execution_trace_ood_evals);
    oods.write_felt_run(&p.composition_trace_ood_evals);
    proof {
        assert(oods@ =~= felt_scalars(p.execution_trace_ood_evals@) + felt_scalars(
            p.composition_trace_ood_evals@,
        ));
    }
    n.push_scope(oods);

    let mut fri_node = ScopeNode::new();
    let mut commits = ScopeNode::new();
    let mut i: usize = 0;
    while i < p.fri_proof.layers.len()
        invariant
            proof_wf(*p),
            i <= p.fri_proof.layers@.len(),
            commits@ == commit_scalars(p.fri_proof.layers@.subrange(0, i as int)),
        decreases p.fri_proof.layers@.len() - i,
    {
        commits.write_mixed(&p.fri_proof.layers[i].commitment);
        proof {
            assert(commits@ =~= commit_scalars(p.fri_proof.layers@.subrange(0, i + 1)));
        }
        i = i + 1;
    }
    proof {
        assert(p.fri_proof.layers@.subrange(0, p.fri_proof.layers@.len() as int) =~= p.fri_proof
            .layers@);
    }
    fri_node.push_scope(commits);
    let mut coeffs = ScopeNode::new();
    coeffs.write_felt_run(&p.fri_proof.remainder_coeffs);
    fri_node.push_scope(coeffs);
    proof {
        assert(fri_node@ =~= seq![
            SpecEntry::Node(commit_scalars(p.fri_proof.layers@)),
            SpecEntry::Node(felt_scalars(p.fri_proof.remainder_coeffs@)),
        ]);
    }
    n.push_scope(fri_node);

    let mut pow_node = ScopeNode::new();
    pow_node.write_u64(p.pow_nonce);
    n.push_scope(pow_node);
    proof {
        assert(pow_node@ =~= seq![scalar_of(p.pow_nonce as nat)]);
        assert(n@ =~= spec_unsent_commitment(*p)->Node_0);
        assert(SpecEntry::Node(n@) == spec_unsent_commitment(*p));
    }
    n
}

/// Build a decommitted-values table scope.
fn build_table_decommit(vals: &Vec<Felt>) -> (r: ScopeNode)
    ensures
        SpecEntry::Node(r@) == table_decommit(vals@),
{
    let mut n = ScopeNode::new();
    n.write_u64(vals.len() as u64);
    let mut inner = ScopeNode::new();
    inner.write_felt_run(vals);
    n.push_scope(inner);
    proof {
        assert(inner@ =~= felt_scalars(vals@));
        assert(n@ =~= table_decommit(vals@)->Node_0);
        assert(SpecEntry::Node(n@) == table_decommit(vals@));
    }
    n
}

/// Build a table commitment witness scope from an inclusion proof.
fn build_table_witness(root: &MixedDigest, mp: &MerkleProof, indices: &Vec<u64>) -> (r: ScopeNode)
    requires
        merkle_proof_wf(*mp),
        mp is MultiCol,
    ensures
        SpecEntry::Node(r@) == table_witness(proof_multicol(*mp)),
{
    let w = match get_merkle_witness_values(root, mp, indices) {
        Some(w) => w,
        None => { proof { assert(false); } Vec::new() },
    };
    let ghost m = proof_multicol(*mp);
    let mut vector = ScopeNode::new();
    proof {
        assert(word_vals(w@).len() == w@.len());
        assert(spec_merkle_witness(m).len() == m.sibling_leaves@.len() + m.nodes@.len());
    }
    vector.write_u64(w.len() as u64);
    let mut auth = ScopeNode::new();
    auth.write_word_run(&w);
    proof {
        assert(word_scalars(w@) =~= nat_scalars(spec_merkle_witness(m)));
        assert(auth@ =~= nat_scalars(spec_merkle_witness(m)));
    }
    vector.push_scope(auth);
    let mut n = ScopeNode::new();
    n.push_scope(vector);
    proof {
        assert(vector@ =~= seq![
            scalar_of(m.sibling_leaves@.len() + m.nodes@.len()),
            SpecEntry::Node(nat_scalars(spec_merkle_witness(m))),
        ]);
        assert(n@ =~= table_witness(m)->Node_0);
        assert(SpecEntry::Node(n@) == table_witness(m));
    }
    n
}

/// Build the witness section, threading the query positions through the
/// FRI layers by folding.
fn build_witness(qp: &Vec<u64>, p: &StarkProof) -> (r: ScopeNode)
    requires
        proof_wf(*p),
        p.options.fri_folding_factor >= 2,
        p.trace_queries.extension_trace_proof is Some,
        p.trace_queries.base_trace_proof is MultiCol,
        p.trace_queries.extension_trace_proof->Some_0 is MultiCol,
        p.trace_queries.composition_trace_proof is MultiCol,
        forall|i: int| 0 <= i < qp@.len() ==> #[trigger] qp@[i] + p.options.fri_folding_factor
            <= u64::MAX,
        fri_layers_ok(p.fri_proof.layers@, qp@, p.options.fri_folding_factor),
    ensures
        SpecEntry::Node(r@) == spec_witness(qp@, *p),
{
    let f = p.options.fri_folding_factor;
    let mut n = ScopeNode::new();

    let mut tds = ScopeNode::new();
    tds.push_scope(build_table_decommit(&p.trace_queries.base_trace_values));
    tds.push_scope(build_table_decommit(&p.trace_queries.extension_trace_values));
    proof {
        assert(tds@ =~= seq![
            table_decommit(p.trace_queries.base_trace_values@),
            table_decommit(p.trace_queries.extension_trace_values@),
        ]);
    }
    n.push_scope(tds);

    let mut tws = ScopeNode::new();
    tws.push_scope(
        build_table_witness(&p.base_trace_commitment, &p.trace_queries.base_trace_proof, qp),
    );
    let ext_proof = match &p.trace_queries.extension_trace_proof {
        Some(mp) => mp,
        None => { proof { assert(false); } &p.trace_queries.base_trace_proof },
    };
    let ext_root = match &p.extension_trace_commitment {
        Some(c) => c,
        None => &p.base_trace_commitment,
    };
    tws.push_scope(build_table_witness(ext_root, ext_proof, qp));
    proof {
        assert(tws@ =~= seq![
            table_witness(proof_multicol(p.trace_queries.base_trace_proof)),
            table_witness(proof_multicol(p.trace_queries.extension_trace_proof->Some_0)),
        ]);
    }
    n.push_scope(tws);

    n.push_scope(build_table_decommit(&p.trace_queries.composition_trace_values));
    n.push_scope(
        build_table_witness(
            &p.composition_trace_commitment,
            &p.trace_queries.composition_trace_proof,
            qp,
        ),
    );

    let mut fw_layer = ScopeNode::new();
    let mut pos: Vec<u64> = qp.clone();
    let nlayers = p.fri_proof.layers.len();
    let ghost all = fri_layer_entries(p.fri_proof.layers@, qp@, f);
    proof {
        assert(pos@ =~= qp@);
        assert(p.fri_proof.layers@.subrange(0, nlayers as int) =~= p.fri_proof.layers@);
        assert(all =~= fw_layer@ + fri_layer_entries(p.fri_proof.layers@, qp@, f));
    }
    let mut k: usize = 0;
    while k < nlayers
        invariant
            proof_wf(*p),
            f == p.options.fri_folding_factor,
            f >= 2,
            k <= nlayers,
            nlayers == p.fri_proof.layers@.len(),
            all == fri_layer_entries(p.fri_proof.layers@, qp@, f),
            forall|i: int| 0 <= i < pos@.len() ==> #[trigger] pos@[i] + f <= u64::MAX,
            fri_layers_ok(
                p.fri_proof.layers@.subrange(k as int, nlayers as int),
                pos@,
                f,
            ),
            all == fw_layer@ + fri_layer_entries(
                p.fri_proof.layers@.subrange(k as int, nlayers as int),
                pos@,
                f,
            ),
        decreases nlayers - k,
    {
        let ghost suffix = p.fri_proof.layers@.subrange(k as int, nlayers as int);
        let ghost pre_fw = fw_layer@;
        let ghost pre_pos = pos@;
        proof {
            assert(suffix[0] == p.fri_proof.layers@[k as int]);
            assert(suffix.drop_first() =~= p.fri_proof.layers@.subrange(
                k as int + 1,
                nlayers as int,
            ));
            lemma_folded_bound(pos@, f);
        }
        let layer = &p.fri_proof.layers[k];
        let folded = fold_positions(&pos, f);
        let wit = fri_layer_witness(&pos, &folded, f, &layer.flattened_rows);
        fw_layer.write_u64(wit.len() as u64);
        let mut leaves = ScopeNode::new();
        leaves.write_felt_run(&wit);
        proof {
            assert(leaves@ =~= felt_scalars(wit@));
        }
        fw_layer.push_scope(leaves);
        proof {
            assert(merkle_proof_wf(p.fri_proof.layers@[k as int].merkle_proof));
        }
        fw_layer.push_scope(build_table_witness(&layer.commitment, &layer.merkle_proof, &folded));
        proof {
            let folded_s = spec_fold_positions(pre_pos, f);
            let wit_s = spec_fri_witness(folded_s, f, suffix[0].flattened_rows@, pre_pos);
            assert(wit@ == wit_s);
            assert(fri_layer_entries(suffix, pre_pos, f) == seq![
                scalar_of(wit_s.len()),
                SpecEntry::Node(felt_scalars(wit_s)),
                table_witness(proof_multicol(suffix[0].merkle_proof)),
            ] + fri_layer_entries(suffix.drop_first(), folded_s, f));
            assert(fw_layer@ =~= pre_fw + seq![
                scalar_of(wit_s.len()),
                SpecEntry::Node(felt_scalars(wit_s)),
                table_witness(proof_multicol(suffix[0].merkle_proof)),
            ]);
            assert(all =~= fw_layer@ + fri_layer_entries(
                p.fri_proof.layers@.subrange(k as int + 1, nlayers as int),
                folded_s,
                f,
            ));
        }
        pos = folded;
        k = k + 1;
    }
    proof {
        assert(p.fri_proof.layers@.subrange(nlayers as int, nlayers as int)
            =~= Seq::<FriLayer>::empty());
        assert(fw_layer@ == all);
    }
    let mut fw = ScopeNode::new();
    fw.push_scope(fw_layer);
    n.push_scope(fw);
    proof {
        assert(n@ =~= spec_witness(qp@, *p)->Node_0);
        assert(SpecEntry::Node(n@) == spec_witness(qp@, *p));
    }
    n
}

/// Walk the layer chain as the encoder will, refusing the first layer
/// that is not encodable.
fn check_fri_layers(layers: &Vec<FriLayer>, qp: &Vec<u64>, f: u64) -> (r: Option<EncodeError>)
    requires
        f >= 2,
    ensures
        r is None <==> fri_layers_ok(layers@, qp@, f),
        !fri_layers_ok(layers@, qp@, f) ==> r == Some(fri_layers_err(layers@, qp@, f)),
{
    let mut pos: Vec<u64> = qp.clone();
    proof {
        assert(pos@ =~= qp@);
        assert(layers@.subrange(0, layers@.len() as int) =~= layers@);
    }
    let n = layers.len();
    let mut k: usize = 0;
    while k < n
        invariant
            f >= 2,
            k <= n,
            n == layers@.len(),
            fri_layers_ok(layers@, qp@, f) <==> fri_layers_ok(
                layers@.subrange(k as int, n as int),
                pos@,
                f,
            ),
            !fri_layers_ok(layers@, qp@, f) ==> fri_layers_err(layers@, qp@, f)
                == fri_layers_err(layers@.subrange(k as int, n as int), pos@, f),
        decreases n - k,
    {
        let ghost suffix = layers@.subrange(k as int, n as int);
        proof {
            assert(suffix[0] == layers@[k as int]);
            assert(suffix.drop_first() =~= layers@.subrange(k as int + 1, n as int));
        }
        let layer = &layers[k];
        match &layer.merkle_proof {
            MerkleProof::MultiCol(_) => {},
            MerkleProof::SingleCol(_) => {
                return Some(EncodeError::SingleColumnCommitment);
            },
        }
        let folded = fold_positions(&pos, f);
        let flen = folded.len() as u64;
        let rl = layer.flattened_rows.len() as u64;
        let shape_ok = match checked_mul_u64(flen, f) {
            Some(prod) => rl == prod,
            None => false,
        };
        proof {
            assert(shape_ok == (suffix[0].flattened_rows@.len() == spec_fold_positions(
                pos@,
                f,
            ).len() * f));
        }
        if !shape_ok {
            return Some(EncodeError::FriShapeMismatch);
        }
        pos = folded;
        k = k + 1;
    }
    proof {
        assert(layers@.subrange(n as int, n as int) =~= Seq::<FriLayer>::empty());
    }
    None
}

/// Encode the proof, the public input and the verifier-reported query
/// positions into the verifier's nested schema.  Exactly the encodable
/// inputs yield the artifact; every other input earns its refusal, and
/// nothing partial is ever returned.
#[verifier::loop_isolation(false)]
pub fn encode_proof(qp: &Vec<u64>, p: &StarkProof, ai: &AirPublicInput) -> (r: Result<
    ScopeNode,
    EncodeError,
>)
    requires
        proof_wf(*p),
    ensures
        r is Ok <==> encodable(qp@, *p, *ai),
        r matches Ok(node) ==> node@ == spec_encode(qp@, *p, *ai),
        r matches Err(e) ==> e == spec_encode_err(qp@, *p, *ai),
{
    if ai.layout != Layout::Recursive {
        return Err(EncodeError::UnsupportedLayout);
    }
    if ai.memory_segments.output.is_none() || ai.memory_segments.pedersen.is_none()
        || ai.memory_segments.range_check.is_none() || ai.memory_segments.bitwise.is_none() {
        return Err(EncodeError::MissingMemorySegment);
    }
    if p.extension_trace_commitment.is_none() {
        return Err(EncodeError::MissingExtensionCommitment);
    }
    if p.trace_queries.extension_trace_proof.is_none() {
        return Err(EncodeError::MissingExtensionProof);
    }
    let blowup = p.options.lde_blowup_factor;
    let ff = p.options.fri_folding_factor;
    if p.trace_len < 1 || blowup < 1 || ff < 2 || ai.n_steps < 1 {
        return Err(EncodeError::DegenerateParameters);
    }
    let lde = match checked_mul_u64(p.trace_len, blowup) {
        Some(v) => v,
        None => {
            return Err(EncodeError::DegenerateParameters);
        },
    };
    let cap = match checked_mul_u64(p.options.fri_max_remainder_coeffs, blowup) {
        Some(v) => v,
        None => {
            return Err(EncodeError::DegenerateParameters);
        },
    };
    proof {
        vstd::arithmetic::mul::lemma_mul_strictly_positive(p.trace_len as int, blowup as int);
    }
    let log_lde = ilog2_u64(lde);
    let log_ff = ilog2_u64(ff);
    let (nlayers, rem) = fri_shape(lde, ff, cap);
    proof {
        vstd::arithmetic::mul::lemma_mul_upper_bound(log_ff as int, 63, nlayers as int, 64);
    }
    if log_lde < log_ff * nlayers {
        return Err(EncodeError::DegenerateParameters);
    }
    if rem < blowup {
        return Err(EncodeError::DegenerateParameters);
    }
    let base_ok = match &p.trace_queries.base_trace_proof {
        MerkleProof::MultiCol(_) => true,
        MerkleProof::SingleCol(_) => false,
    };
    let ext_ok = match &p.trace_queries.extension_trace_proof {
        Some(MerkleProof::MultiCol(_)) => true,
        _ => false,
    };
    let comp_ok = match &p.trace_queries.composition_trace_proof {
        MerkleProof::MultiCol(_) => true,
        MerkleProof::SingleCol(_) => false,
    };
    if !base_ok || !ext_ok || !comp_ok {
        return Err(EncodeError::SingleColumnCommitment);
    }
    let mut i: usize = 0;
    while i < qp.len()
        invariant
            i <= qp@.len(),
            ff == p.options.fri_folding_factor,
            ff >= 2,
            forall|j: int| 0 <= j < i ==> #[trigger] qp@[j] + ff <= u64::MAX,
        decreases qp@.len() - i,
    {
        if qp[i] > u64::MAX - ff {
            proof {
                assert(!(qp@[i as int] + p.options.fri_folding_factor <= u64::MAX));
            }
            return Err(EncodeError::PositionOutOfRange);
        }
        i = i + 1;
    }
    match check_fri_layers(&p.fri_proof.layers, qp, ff) {
        Some(e) => {
            return Err(e);
        },
        None => {},
    }
    let mut root = ScopeNode::new();
    root.push_scope(build_stark_config(p));
    root.push_scope(build_public_input(ai));
    root.push_scope(build_unsent_commitment(p));
    root.push_scope(build_witness(qp, p));
    proof {
        assert(root@ =~= spec_encode(qp@, *p, *ai));
    }
    Ok(root)
}

/// Serialize the proof straight to the wire text: the buffer's
/// depth-first walk as nested arrays of hexadecimal scalars.  The
/// output is a function of the three inputs alone: encoding the same
/// triple twice yields byte-identical text.
pub fn to_cairo_memory(qp: &Vec<u64>, p: &StarkProof, ai: &AirPublicInput) -> (r: Result<
    String,
    EncodeError,
>)
    requires
        proof_wf(*p),
    ensures
        r is Ok <==> encodable(qp@, *p, *ai),
        r matches Ok(s) ==> s@ == crate::buffer::json_of(
            SpecEntry::Node(spec_encode(qp@, *p, *ai)),
        ),
        r matches Err(e) ==> e == spec_encode_err(qp@, *p, *ai),
{
    match encode_proof(qp, p, ai) {
        Ok(node) => Ok(node.to_json()),
        Err(e) => Err(e),
    }
}

/// The determinism law: the wire text is a function of the query
/// positions, the proof and the public input alone, so any two
/// successful encodings of the same triple are byte-identical — which
/// is what the contract of `to_cairo_memory` pins every result to.
pub proof fn lemma_encoding_deterministic(
    qp: Seq<u64>,
    p: StarkProof,
    ai: AirPublicInput,
    s1: Seq<char>,
    s2: Seq<char>,
)
    requires
        s1 == crate::buffer::json_of(SpecEntry::Node(spec_encode(qp, p, ai))),
        s2 == crate::buffer::json_of(SpecEntry::Node(spec_encode(qp, p, ai))),
    ensures
        s1 == s2,
{
}

} // verus!
