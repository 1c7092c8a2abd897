use sandstorm_parser::digest::Digest;
use sandstorm_parser::digest::MixedDigest;
use sandstorm_parser::merkle::MerkleProof;
use sandstorm_parser::merkle::MultiColProof;
use sandstorm_parser::merkle::SingleColProof;
use sandstorm_parser::proof_data::AirPublicInput;
use sandstorm_parser::proof_data::EncodeError;
use sandstorm_parser::proof_data::FriLayer;
use sandstorm_parser::proof_data::FriProof;
use sandstorm_parser::proof_data::Layout;
use sandstorm_parser::proof_data::MemoryEntry;
use sandstorm_parser::proof_data::MemorySegment;
use sandstorm_parser::proof_data::MemorySegments;
use sandstorm_parser::proof_data::ProofOptions;
use sandstorm_parser::proof_data::StarkProof;
use sandstorm_parser::proof_data::TraceQueries;
use sandstorm_parser::scalar::Felt;
use sandstorm_parser::schema::encode_proof;
use sandstorm_parser::schema::to_cairo_memory;

fn digest_of(v: u8) -> Digest {
    let mut bytes = vec![0u8; 32];
    bytes[31] = v;
    Digest { bytes }
}

fn seg(a: u64, b: u64) -> MemorySegment {
    MemorySegment { begin_addr: a, stop_ptr: b }
}

fn multi(siblings: Vec<u8>, nodes: Vec<u8>) -> MerkleProof {
    MerkleProof::MultiCol(MultiColProof {
        sibling_leaves: siblings.into_iter().map(digest_of).collect(),
        nodes: nodes.into_iter().map(digest_of).collect(),
        height: 2,
    })
}

fn sample_proof() -> StarkProof {
    StarkProof {
        options: ProofOptions {
            num_queries: 2,
            lde_blowup_factor: 2,
            grinding_factor: 10,
            fri_folding_factor: 2,
            fri_max_remainder_coeffs: 2,
        },
        trace_len: 2,
        base_trace_commitment: MixedDigest::LowLevel(digest_of(5)),
        extension_trace_commitment: Some(MixedDigest::HighLevel(Felt::from_u64(7))),
        composition_trace_commitment: MixedDigest::LowLevel(digest_of(9)),
        execution_trace_ood_evals: vec![Felt::from_u64(3)],
        composition_trace_ood_evals: vec![Felt::from_u64(4)],
        fri_proof: FriProof { layers: vec![], remainder_coeffs: vec![Felt::from_u64(6)] },
        pow_nonce: 99,
        trace_queries: TraceQueries {
            base_trace_values: vec![Felt::from_u64(1), Felt::from_u64(2)],
            extension_trace_values: vec![Felt::from_u64(3)],
            composition_trace_values: vec![Felt::from_u64(4)],
            base_trace_proof: multi(vec![11], vec![12]),
            extension_trace_proof: Some(multi(vec![13], vec![])),
            composition_trace_proof: multi(vec![], vec![14]),
        },
    }
}

fn sample_input() -> AirPublicInput {
    AirPublicInput {
        n_steps: 4,
        rc_min: 0,
        rc_max: 100,
        layout: Layout::Recursive,
        memory_segments: MemorySegments {
            program: seg(1, 2),
            execution: seg(3, 4),
            output: Some(seg(5, 6)),
            pedersen: Some(seg(7, 8)),
            range_check: Some(seg(9, 10)),
            bitwise: Some(seg(11, 12)),
        },
        public_memory_padding: MemoryEntry { address: 1, value: Felt::from_u64(0) },
        public_memory: vec![
            MemoryEntry { address: 1, value: Felt::from_u64(100) },
            MemoryEntry { address: 2, value: Felt::from_u64(200) },
        ],
    }
}

#[test]
fn encodes_whole_schema() {
    let qp: Vec<u64> = vec![0, 1];
    let out = to_cairo_memory(&qp, &sample_proof(), &sample_input()).unwrap();
    let expected = "[[[[\"0x9\",[\"0x2\",\"0x10\"]],[\"0x1\",[\"0x2\",\"0x10\"]]],[\"0x2\",[\"0x2\",\"0x10\"]],[\"0x2\",\"0x1\",[],\"0x0\",\"0x1\"],[\"0xa\"],\"0x1\",\"0x2\",\"0x1\",\"0x10\"],[\"0x2\",\"0x0\",\"0x64\",\"0x726563757273697665\",\"0x0\",\"0x6\",[\"0x1\",\"0x2\",\"0x3\",\"0x4\",\"0x5\",\"0x6\",\"0x7\",\"0x8\",\"0x9\",\"0xa\",\"0xb\",\"0xc\"],\"0x1\",\"0x0\",\"0x2\",[\"0x1\",\"0x64\",\"0x2\",\"0xc8\"],\"0x0\",\"0x0\"],[[\"0x5\",\"0x7\"],\"0x9\",[\"0x3\",\"0x4\"],[[],[\"0x6\"]],[\"0x63\"]],[[[\"0x2\",[\"0x1\",\"0x2\"]],[\"0x1\",[\"0x3\"]]],[[[\"0x2\",[\"0xb\",\"0xc\"]]],[[\"0x1\",[\"0xd\"]]]],[\"0x1\",[\"0x4\"]],[[\"0x1\",[\"0xe\"]]],[[]]]]";
    assert_eq!(out, expected);
}

#[test]
fn encoding_is_deterministic() {
    let qp: Vec<u64> = vec![0, 1];
    let a = to_cairo_memory(&qp, &sample_proof(), &sample_input()).unwrap();
    let b = to_cairo_memory(&qp, &sample_proof(), &sample_input()).unwrap();
    assert_eq!(a, b);
}

#[test]
fn encodes_fri_layer_witness() {
    // One FRI layer: two queried positions folding to one coset, both
    // slots covered directly, so no leaf is resent.
    let mut p = sample_proof();
    p.fri_proof.layers = vec![FriLayer {
        commitment: MixedDigest::LowLevel(digest_of(21)),
        flattened_rows: vec![Felt::from_u64(31), Felt::from_u64(32)],
        merkle_proof: multi(vec![22], vec![23]),
    }];
    let qp: Vec<u64> = vec![0, 1];
    let node = encode_proof(&qp, &p, &sample_input()).unwrap();
    let out = node.to_json();
    // The layer contributes: leaf count 0, empty leaf list, and its
    // Merkle witness values 0x16 and 0x17, in stored order.
    assert!(out.ends_with("[[\"0x0\",[],[[\"0x2\",[\"0x16\",\"0x17\"]]]]]]]"));
}

#[test]
fn layout_guard_refuses_other_layouts() {
    let qp: Vec<u64> = vec![0, 1];
    let mut ai = sample_input();
    ai.layout = Layout::Starknet;
    assert_eq!(
        to_cairo_memory(&qp, &sample_proof(), &ai),
        Err(EncodeError::UnsupportedLayout)
    );
    ai.layout = Layout::Plain;
    assert_eq!(
        encode_proof(&qp, &sample_proof(), &ai).err(),
        Some(EncodeError::UnsupportedLayout)
    );
}

#[test]
fn missing_required_fields_are_fatal() {
    let qp: Vec<u64> = vec![0, 1];
    let mut ai = sample_input();
    ai.memory_segments.bitwise = None;
    assert_eq!(
        encode_proof(&qp, &sample_proof(), &ai).err(),
        Some(EncodeError::MissingMemorySegment)
    );
    let mut p = sample_proof();
    p.extension_trace_commitment = None;
    assert_eq!(
        encode_proof(&qp, &p, &sample_input()).err(),
        Some(EncodeError::MissingExtensionCommitment)
    );
    let mut p2 = sample_proof();
    p2.trace_queries.extension_trace_proof = None;
    assert_eq!(
        encode_proof(&qp, &p2, &sample_input()).err(),
        Some(EncodeError::MissingExtensionProof)
    );
}

#[test]
fn degenerate_parameters_are_fatal() {
    let qp: Vec<u64> = vec![0, 1];
    let mut p = sample_proof();
    p.trace_len = 0;
    assert_eq!(
        encode_proof(&qp, &p, &sample_input()).err(),
        Some(EncodeError::DegenerateParameters)
    );
    let mut p2 = sample_proof();
    p2.options.fri_folding_factor = 1;
    assert_eq!(
        encode_proof(&qp, &p2, &sample_input()).err(),
        Some(EncodeError::DegenerateParameters)
    );
}

#[test]
fn single_column_commitments_are_fatal() {
    let qp: Vec<u64> = vec![0, 1];
    let mut p = sample_proof();
    p.trace_queries.base_trace_proof =
        MerkleProof::SingleCol(SingleColProof { nodes: vec![digest_of(1)] });
    assert_eq!(
        encode_proof(&qp, &p, &sample_input()).err(),
        Some(EncodeError::SingleColumnCommitment)
    );
    let mut p2 = sample_proof();
    p2.fri_proof.layers = vec![FriLayer {
        commitment: MixedDigest::LowLevel(digest_of(21)),
        flattened_rows: vec![Felt::from_u64(31), Felt::from_u64(32)],
        merkle_proof: MerkleProof::SingleCol(SingleColProof { nodes: vec![] }),
    }];
    assert_eq!(
        encode_proof(&qp, &p2, &sample_input()).err(),
        Some(EncodeError::SingleColumnCommitment)
    );
}

#[test]
fn fri_shape_mismatch_is_fatal() {
    let qp: Vec<u64> = vec![0, 1];
    let mut p = sample_proof();
    p.fri_proof.layers = vec![FriLayer {
        commitment: MixedDigest::LowLevel(digest_of(21)),
        flattened_rows: vec![Felt::from_u64(31)],
        merkle_proof: multi(vec![22], vec![]),
    }];
    assert_eq!(
        encode_proof(&qp, &p, &sample_input()).err(),
        Some(EncodeError::FriShapeMismatch)
    );
}

#[test]
fn position_without_coset_headroom_is_fatal() {
    let qp: Vec<u64> = vec![0, u64::MAX];
    assert_eq!(
        encode_proof(&qp, &sample_proof(), &sample_input()).err(),
        Some(EncodeError::PositionOutOfRange)
    );
}
