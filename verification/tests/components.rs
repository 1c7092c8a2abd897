use sandstorm_parser::digest::Digest;
use sandstorm_parser::digest::MixedDigest;
use sandstorm_parser::digest::digest_to_word;
use sandstorm_parser::fri::fold_positions;
use sandstorm_parser::fri::fri_layer_witness;
use sandstorm_parser::hex::hex_string;
use sandstorm_parser::hex::hex_string_u64;
use sandstorm_parser::hex::hex_string_u128;
use sandstorm_parser::merkle::MerkleProof;
use sandstorm_parser::merkle::MultiColProof;
use sandstorm_parser::merkle::SingleColProof;
use sandstorm_parser::merkle::get_merkle_witness_values;
use sandstorm_parser::scalar::Felt;

fn digest_of(v: u8) -> Digest {
    let mut bytes = vec![0u8; 32];
    bytes[31] = v;
    Digest { bytes }
}

#[test]
fn hex_matches_native_rendering() {
    assert_eq!(hex_string_u64(0), "0x0");
    assert_eq!(hex_string_u64(1), "0x1");
    assert_eq!(hex_string_u64(2147483647), "0x7fffffff");
    assert_eq!(hex_string_u64(u64::MAX), format!("{:#x}", u64::MAX));
    assert_eq!(hex_string_u128(0x726563757273697665), "0x726563757273697665");
}

#[test]
fn digest_scalar_round_trip() {
    // A digest whose big-endian value fits a u128 and lies below the
    // modulus: encoding then decoding the numeral gives the bytes back.
    let mut bytes = vec![0u8; 32];
    for i in 16..32 {
        bytes[i] = (i as u8) * 3 + 1;
    }
    let d = Digest { bytes: bytes.clone() };
    let w = digest_to_word(&d);
    let f = Felt::from_word(&w);
    let s = hex_string(&f.word);
    let decoded = u128::from_str_radix(&s[2..], 16).unwrap();
    let mut expected: u128 = 0;
    for i in 16..32 {
        expected = expected * 256 + bytes[i] as u128;
    }
    assert_eq!(decoded, expected);
    let rebuilt: Vec<u8> = {
        let mut out = vec![0u8; 32];
        let mut v = decoded;
        for i in (0..32).rev() {
            out[i] = (v & 0xff) as u8;
            v >>= 8;
        }
        out
    };
    assert_eq!(rebuilt, bytes);
}

#[test]
fn digest_above_modulus_is_reduced() {
    let d = Digest { bytes: vec![0xffu8; 32] };
    let w = digest_to_word(&d);
    let f = Felt::from_word(&w);
    let s = hex_string(&f.word);
    assert_eq!(
        s,
        "0x7fffffffffffdf0ffffffffffffffffffffffffffffffffffffffffffffffe0"
    );
}

#[test]
fn fold_positions_first_seen_order() {
    let folded = fold_positions(&vec![5, 1, 9, 1], 4);
    assert_eq!(folded, vec![1, 0, 2]);
}

#[test]
fn fold_positions_collapses_cosets() {
    let folded = fold_positions(&vec![0, 1, 2, 3, 4, 5, 6, 7], 4);
    assert_eq!(folded, vec![0, 1]);
}

#[test]
fn fri_witness_fully_covered_round() {
    // Eight query positions spanning exactly two cosets at folding
    // factor four: every coset value is directly queried, so the
    // deduplicated witness is empty and two folded positions remain.
    let positions: Vec<u64> = vec![0, 1, 2, 3, 4, 5, 6, 7];
    let folded = fold_positions(&positions, 4);
    assert_eq!(folded.len(), 2);
    let rows: Vec<Felt> = (0..8).map(Felt::from_u64).collect();
    let wit = fri_layer_witness(&positions, &folded, 4, &rows);
    assert_eq!(wit.len(), 0);
}

#[test]
fn fri_witness_resends_only_unqueried_slots() {
    let positions: Vec<u64> = vec![2, 4];
    let folded = fold_positions(&positions, 2);
    assert_eq!(folded, vec![1, 2]);
    let rows: Vec<Felt> = vec![
        Felt::from_u64(10),
        Felt::from_u64(11),
        Felt::from_u64(12),
        Felt::from_u64(13),
    ];
    // Coset of folded position 1 covers indices 2 and 3; coset of 2
    // covers 4 and 5.  Indices 3 and 5 were not queried.
    let wit = fri_layer_witness(&positions, &folded, 2, &rows);
    let vals: Vec<u64> = wit.iter().map(|f| f.word.d0).collect();
    assert_eq!(vals, vec![11, 13]);
}

#[test]
fn merkle_witness_keeps_stored_order() {
    let proof = MerkleProof::MultiCol(MultiColProof {
        sibling_leaves: vec![digest_of(11), digest_of(12)],
        nodes: vec![digest_of(13)],
        height: 3,
    });
    let root = MixedDigest::LowLevel(digest_of(1));
    let w = get_merkle_witness_values(&root, &proof, &vec![0, 1]).unwrap();
    let vals: Vec<u64> = w.iter().map(|x| x.d0).collect();
    assert_eq!(vals, vec![11, 12, 13]);
}

#[test]
fn merkle_witness_refuses_single_column() {
    let proof = MerkleProof::SingleCol(SingleColProof { nodes: vec![digest_of(2)] });
    let root = MixedDigest::LowLevel(digest_of(1));
    assert!(get_merkle_witness_values(&root, &proof, &vec![0]).is_none());
}
