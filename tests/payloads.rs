use batch_settle::batches::{snark_public_input_for_range, StoredBatchInfo};
use batch_settle::hash::hash_bytes;
use batch_settle::payload::{decode_proof_payload, encode_proof_payload};
use batch_settle::prove::{
    build_prove_payload, create_ohbender_proof_payload, fake_proof_from_hex, ohbender_prev_hash,
    parse_hex_u256, u64_word, ProofData,
};
use std::collections::HashMap;

fn record(n: u64) -> StoredBatchInfo {
    StoredBatchInfo {
        batch_number: n,
        batch_hash: hash_bytes(&[n as u8, 1]),
        index_repeated_storage_changes: 0,
        number_of_layer1_txs: u64_word(n),
        priority_operations_hash: hash_bytes(&[n as u8, 2]),
        l2_logs_tree_root: hash_bytes(&[n as u8, 3]),
        timestamp: [0u8; 32],
        commitment: hash_bytes(&[n as u8, 4]),
    }
}

fn records(upto: u64) -> HashMap<u64, StoredBatchInfo> {
    (0..=upto).map(|n| (n, record(n))).collect()
}

fn word_of(x: u64) -> [u8; 32] {
    let mut w = [0u8; 32];
    w[24..].copy_from_slice(&x.to_be_bytes());
    w
}

#[test]
fn u64_word_is_big_endian_and_left_padded() {
    assert_eq!(u64_word(13), word_of(13));
    assert_eq!(u64_word(0x0102_0304_0506_0708)[24..], [1, 2, 3, 4, 5, 6, 7, 8]);
    assert_eq!(u64_word(u64::MAX), word_of(u64::MAX));
}

#[test]
fn proof_vectors_carry_type_then_fields() {
    let pi = hash_bytes(b"pi");
    let fake = ProofData::Fake { prev_hash: [0u8; 32], public_input: pi };
    assert_eq!(fake.to_proof_vector(), vec![word_of(3), [0u8; 32], word_of(13), pi]);
    let agg = ProofData::OhBender { prev_hash: pi, proof: vec![word_of(7), word_of(8)] };
    assert_eq!(agg.to_proof_vector(), vec![word_of(2), pi, word_of(7), word_of(8)]);
}

#[test]
fn fake_proof_payload_round_trips() {
    let m = records(1);
    let pi = snark_public_input_for_range(&m, 1, 1);
    let proof = ProofData::Fake { prev_hash: [0u8; 32], public_input: pi }.to_proof_vector();
    let bytes = build_prove_payload(&m, 1, 1, &proof);
    assert_eq!(bytes[0], 0);
    assert_eq!(bytes.len(), 1 + 256 + 32 * 3 + 256 + 32 + 32 * 4);
    let (old, new_info, decoded_proof) = decode_proof_payload(&bytes).unwrap();
    assert_eq!(old, record(0));
    assert_eq!(new_info, vec![record(1)]);
    assert_eq!(decoded_proof, proof);
}

#[test]
fn payload_head_holds_offsets_and_lengths() {
    let old = record(4);
    let new_info = vec![record(5), record(6)];
    let proof = vec![word_of(1), word_of(2), word_of(3)];
    let bytes = encode_proof_payload(&old, &new_info, &proof);
    assert_eq!(bytes.len(), 1 + 256 + 96 + 512 + 32 + 96);
    assert_eq!(bytes[1..33], word_of(4));
    assert_eq!(bytes[257..289], word_of(320));
    assert_eq!(bytes[289..321], word_of(352 + 512));
    assert_eq!(bytes[321..353], word_of(2));
    assert_eq!(bytes[353..385], word_of(5));
    assert_eq!(bytes[865..897], word_of(3));
    assert_eq!(bytes[897..929], word_of(1));
    assert_eq!(
        decode_proof_payload(&bytes),
        Some((old, new_info, proof))
    );
}

#[test]
fn decoder_rejects_malformed_payloads() {
    let bytes = encode_proof_payload(&record(0), &vec![record(1)], &vec![word_of(9)]);
    assert!(decode_proof_payload(&bytes[..bytes.len() - 1]).is_none());
    assert!(decode_proof_payload(&[]).is_none());
    let mut bad = bytes.clone();
    bad[0] = 1;
    assert!(decode_proof_payload(&bad).is_none());
    let mut bad = bytes.clone();
    bad[300] = 1;
    assert!(decode_proof_payload(&bad).is_none());
    let mut longer = bytes.clone();
    longer.push(0);
    assert!(decode_proof_payload(&longer).is_none());
}

#[test]
fn prove_payload_encodes_predecessor_and_range() {
    let m = records(3);
    let proof = vec![word_of(1)];
    let bytes = build_prove_payload(&m, 2, 3, &proof);
    assert_eq!(bytes, encode_proof_payload(&record(1), &vec![record(2), record(3)], &proof));
}

#[test]
fn ohbender_payload_parses_decimal_proof_words() {
    let m = records(2);
    let strs = vec!["7".to_string(), "1_000".to_string(), "".to_string()];
    let bytes = create_ohbender_proof_payload(&m, strs, 1, 2).unwrap();
    let expected_proof = vec![word_of(2), [0u8; 32], word_of(7), word_of(1000), word_of(0)];
    assert_eq!(bytes, encode_proof_payload(&record(0), &vec![record(1), record(2)], &expected_proof));
    let big = "115792089237316195423570985008687907853269984665640564039457584007913129639935";
    let bytes = create_ohbender_proof_payload(&m, vec![big.to_string()], 2, 2).unwrap();
    let (_, _, proof) = decode_proof_payload(&bytes).unwrap();
    assert_eq!(proof[2], [0xffu8; 32]);
}

#[test]
fn ohbender_payload_refuses_bad_numbers() {
    let m = records(2);
    assert!(create_ohbender_proof_payload(&m, vec!["12a".to_string()], 1, 2).is_none());
    assert!(create_ohbender_proof_payload(&m, vec!["-1".to_string()], 1, 2).is_none());
    let too_big = "115792089237316195423570985008687907853269984665640564039457584007913129639936";
    assert!(create_ohbender_proof_payload(&m, vec![too_big.to_string()], 1, 2).is_none());
}

#[test]
fn prev_hash_folds_the_batches_before_start() {
    let m = records(5);
    assert_eq!(ohbender_prev_hash(&m, 3, None), [0u8; 32]);
    assert_eq!(ohbender_prev_hash(&m, 3, Some(3)), [0u8; 32]);
    assert_eq!(ohbender_prev_hash(&m, 4, Some(2)), snark_public_input_for_range(&m, 2, 3));
    assert!(ohbender_prev_hash(&m, 4, Some(2)) != [0u8; 32]);
}

#[test]
fn fake_proof_reads_hex_public_input() {
    let expected = ProofData::Fake { prev_hash: [0u8; 32], public_input: word_of(0x1f) };
    assert_eq!(fake_proof_from_hex("0x1f"), expected.clone());
    assert_eq!(fake_proof_from_hex("1F"), expected.clone());
    assert_eq!(fake_proof_from_hex("0x0x1f"), expected);
    let full = "0x00000000aabbccddeeff00112233445566778899aabbccddeeff001122334455";
    match fake_proof_from_hex(full) {
        ProofData::Fake { public_input, .. } => {
            assert_eq!(public_input[..4], [0, 0, 0, 0]);
            assert_eq!(public_input[4], 0xaa);
            assert_eq!(public_input[31], 0x55);
        }
        other => panic!("unexpected {:?}", other),
    }
}

#[test]
fn hex_parse_refuses_malformed_numbers() {
    assert_eq!(parse_hex_u256("0x1f"), Some(word_of(0x1f)));
    assert_eq!(parse_hex_u256("0xzz"), None);
    assert_eq!(parse_hex_u256(&format!("1{}", "0".repeat(64))), None);
    assert_eq!(parse_hex_u256(""), Some([0u8; 32]));
}

#[test]
fn proof_words_parse_each_decimal_string() {
    let strs = vec!["0".to_string(), "256".to_string(), "1_0".to_string()];
    let words = batch_settle::prove::parse_proof_words(&strs).unwrap();
    let mut w256 = [0u8; 32];
    w256[30] = 1;
    assert_eq!(words, vec![[0u8; 32], w256, word_of(10)]);
    assert!(batch_settle::prove::parse_proof_words(&vec!["x".to_string()]).is_none());
}
