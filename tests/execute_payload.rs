use batch_settle::batches::StoredBatchInfo;
use batch_settle::execute::{build_execute_payload, encode_execute_payload, PriorityOpsBatchInfo};
use batch_settle::hash::hash_bytes;
use batch_settle::inclusion::MerkleInfoForExecute;
use batch_settle::prove::u64_word;
use std::collections::HashMap;

fn record(n: u64, txs: u64) -> StoredBatchInfo {
    StoredBatchInfo {
        batch_number: n,
        batch_hash: hash_bytes(&[n as u8, 9]),
        index_repeated_storage_changes: 0,
        number_of_layer1_txs: u64_word(txs),
        priority_operations_hash: hash_bytes(&[n as u8, 8]),
        l2_logs_tree_root: hash_bytes(&[n as u8, 7]),
        timestamp: [0u8; 32],
        commitment: hash_bytes(&[n as u8, 6]),
    }
}

fn tx(i: u8) -> [u8; 32] {
    hash_bytes(&[0x2a, i])
}

fn setup() -> (HashMap<u64, StoredBatchInfo>, HashMap<u64, Vec<[u8; 32]>>, MerkleInfoForExecute) {
    let blocks = vec![(1u64, vec![tx(1)]), (2, vec![tx(2), tx(3)]), (3, vec![])];
    let stored: HashMap<u64, StoredBatchInfo> =
        blocks.iter().map(|(n, t)| (*n, record(*n, t.len() as u64))).collect();
    let l1: HashMap<u64, Vec<[u8; 32]>> = blocks.iter().cloned().collect();
    let info = MerkleInfoForExecute::init(&blocks);
    (stored, l1, info)
}

#[test]
fn execute_payload_layout() {
    let (stored, l1, info) = setup();
    let bytes = build_execute_payload(&stored, &info, &l1, 1, 2).unwrap();
    assert_eq!(bytes[0], 0);
    assert_eq!(bytes[1..33], u64_word(64));
    assert_eq!(bytes[33..65], u64_word(96 + 512));
    assert_eq!(bytes[65..97], u64_word(2));
    let after_records = 97 + 512;
    assert_eq!(bytes[after_records..after_records + 32], u64_word(2));
    let offsets = after_records + 32;
    assert_eq!(bytes[offsets..offsets + 32], u64_word(64));
    // first batch: paths of depth 2 and one item hash.
    let first_len = 96 + (32 + 64) * 2 + (32 + 32);
    assert_eq!(bytes[offsets + 32..offsets + 64], u64_word(64 + first_len as u64));
    let op1 = offsets + 64;
    assert_eq!(bytes[op1..op1 + 32], u64_word(96));
    assert_eq!(bytes[op1 + 32..op1 + 64], u64_word(192));
    assert_eq!(bytes[op1 + 64..op1 + 96], u64_word(288));
    let second_len = 96 + (32 + 64) * 2 + (32 + 64);
    assert_eq!(bytes.len(), op1 + first_len + second_len);
}

#[test]
fn execute_payload_matches_direct_encoding() {
    let (stored, l1, info) = setup();
    let (_, left, right) = info.get_merkle_path_for_l1_tx_in_block(2);
    let ops = vec![
        PriorityOpsBatchInfo { left_path: left, right_path: right, item_hashes: vec![tx(2), tx(3)] },
        PriorityOpsBatchInfo { left_path: vec![], right_path: vec![], item_hashes: vec![] },
    ];
    let expected = encode_execute_payload(&vec![record(2, 2), record(3, 0)], &ops).unwrap();
    assert_eq!(build_execute_payload(&stored, &info, &l1, 2, 3), Some(expected));
}

#[test]
fn batch_without_transactions_gets_empty_paths() {
    let (stored, l1, info) = setup();
    let empty_tree = MerkleInfoForExecute::new();
    let expected = encode_execute_payload(
        &vec![record(3, 0)],
        &vec![PriorityOpsBatchInfo { left_path: vec![], right_path: vec![], item_hashes: vec![] }],
    );
    assert_eq!(build_execute_payload(&stored, &empty_tree, &l1, 3, 3), expected);
    assert_eq!(build_execute_payload(&stored, &info, &l1, 3, 3), expected);
}
