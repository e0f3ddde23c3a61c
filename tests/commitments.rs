use batch_settle::batches::{
    add_commit_data, commit_to_stored, compute_batch_outputs_hash, get_batch_public_input, shift_b256_right,
    snark_public_input_for_range, CommitBoojumOSBatchInfo, StoredBatchInfo,
};
use batch_settle::hash::{hash_bytes, keccak256};
use batch_settle::info::{next_scan_window, select_interop_message, BatchInfo, InteropSelectError};
use std::collections::HashMap;

fn word(b: u8) -> [u8; 32] {
    hash_bytes(&[b, 0x5a])
}

fn u64_word(x: u64) -> [u8; 32] {
    let mut w = [0u8; 32];
    w[24..].copy_from_slice(&x.to_be_bytes());
    w
}

fn record(n: u64) -> StoredBatchInfo {
    StoredBatchInfo {
        batch_number: n,
        batch_hash: word(n as u8),
        index_repeated_storage_changes: 0,
        number_of_layer1_txs: u64_word(n % 3),
        priority_operations_hash: word(100 + n as u8),
        l2_logs_tree_root: word(150 + n as u8),
        timestamp: [0u8; 32],
        commitment: word(200 + n as u8),
    }
}

fn records(upto: u64) -> HashMap<u64, StoredBatchInfo> {
    (0..=upto).map(|n| (n, record(n))).collect()
}

fn commit() -> CommitBoojumOSBatchInfo {
    CommitBoojumOSBatchInfo {
        batch_number: 5,
        new_state_commitment: word(1),
        number_of_layer1_txs: u64_word(2),
        priority_operations_hash: word(3),
        l2_logs_tree_root: word(4),
        l2_da_validator: [7u8; 20],
        da_commitment: word(5),
        first_block_timestamp: 1_700_000_000,
        last_block_timestamp: 1_700_000_042,
        chain_id: u64_word(270),
        operator_da_input: vec![1, 2, 3],
    }
}

fn shift(v: [u8; 32]) -> [u8; 32] {
    let mut r = [0u8; 32];
    r[4..].copy_from_slice(&v[..28]);
    r
}

fn fold_step(acc: [u8; 32], next: [u8; 32]) -> [u8; 32] {
    let mut cat = acc.to_vec();
    cat.extend_from_slice(&next);
    shift(keccak256(&cat))
}

#[test]
fn outputs_hash_is_hash_of_fixed_layout() {
    let c = commit();
    let mut bytes = Vec::new();
    bytes.extend_from_slice(&c.chain_id);
    bytes.extend_from_slice(&c.first_block_timestamp.to_be_bytes());
    bytes.extend_from_slice(&c.last_block_timestamp.to_be_bytes());
    bytes.extend_from_slice(&c.l2_da_validator);
    bytes.extend_from_slice(&c.da_commitment);
    bytes.extend_from_slice(&c.number_of_layer1_txs);
    bytes.extend_from_slice(&c.priority_operations_hash);
    bytes.extend_from_slice(&c.l2_logs_tree_root);
    bytes.extend_from_slice(&[0u8; 32]);
    assert_eq!(bytes.len(), 228);
    assert_eq!(compute_batch_outputs_hash(&c), keccak256(&bytes));
    assert_eq!(compute_batch_outputs_hash(&c), compute_batch_outputs_hash(&commit()));
}

#[test]
fn outputs_hash_changes_with_any_field() {
    let base = compute_batch_outputs_hash(&commit());
    let mut c = commit();
    c.da_commitment[31] ^= 1;
    assert_ne!(compute_batch_outputs_hash(&c), base);
    let mut c = commit();
    c.first_block_timestamp += 1;
    assert_ne!(compute_batch_outputs_hash(&c), base);
    let mut c = commit();
    c.l2_da_validator[0] ^= 0x80;
    assert_ne!(compute_batch_outputs_hash(&c), base);
    let mut c = commit();
    c.chain_id[0] = 1;
    assert_ne!(compute_batch_outputs_hash(&c), base);
    let mut c = commit();
    c.operator_da_input = vec![];
    assert_eq!(compute_batch_outputs_hash(&c), base);
}

#[test]
fn commit_maps_to_stored_record() {
    let c = commit();
    let s = commit_to_stored(c.clone());
    assert_eq!(s.batch_number, 5);
    assert_eq!(s.batch_hash, c.new_state_commitment);
    assert_eq!(s.index_repeated_storage_changes, 0);
    assert_eq!(s.number_of_layer1_txs, c.number_of_layer1_txs);
    assert_eq!(s.priority_operations_hash, c.priority_operations_hash);
    assert_eq!(s.l2_logs_tree_root, c.l2_logs_tree_root);
    assert_eq!(s.timestamp, [0u8; 32]);
    assert_eq!(s.commitment, compute_batch_outputs_hash(&c));
}

#[test]
fn public_input_hashes_two_state_hashes_and_commitment() {
    let prev = record(0);
    let cur = record(1);
    let mut cat = Vec::new();
    cat.extend_from_slice(&prev.batch_hash);
    cat.extend_from_slice(&cur.batch_hash);
    cat.extend_from_slice(&cur.commitment);
    assert_eq!(cat.len(), 96);
    assert_eq!(get_batch_public_input(&prev, &cur), keccak256(&cat));
}

#[test]
fn shift_right_zero_fills_top_four_bytes() {
    let mut v = [0u8; 32];
    for (i, b) in v.iter_mut().enumerate() {
        *b = i as u8 + 1;
    }
    let r = shift_b256_right(&v);
    assert_eq!(&r[..4], &[0, 0, 0, 0]);
    assert_eq!(r[4], 1);
    assert_eq!(r[31], 28);
    assert_eq!(shift_b256_right(&[0xffu8; 32]), shift([0xffu8; 32]));
}

#[test]
fn single_batch_range_is_shifted_public_input() {
    let m = records(3);
    let pi = get_batch_public_input(&m[&1], &m[&2]);
    assert_eq!(snark_public_input_for_range(&m, 2, 2), shift_b256_right(&pi));
}

#[test]
fn range_fold_chains_left_to_right() {
    let m = records(4);
    let item = |i: u64| shift_b256_right(&get_batch_public_input(&m[&(i - 1)], &m[&i]));
    let expected = fold_step(fold_step(item(1), item(2)), item(3));
    assert_eq!(snark_public_input_for_range(&m, 1, 3), expected);
}

#[test]
fn range_fold_splits_at_any_point() {
    let m = records(6);
    let item = |i: u64| shift_b256_right(&get_batch_public_input(&m[&(i - 1)], &m[&i]));
    let whole = snark_public_input_for_range(&m, 2, 6);
    for mid in 2..6u64 {
        let mut acc = snark_public_input_for_range(&m, 2, mid);
        for i in mid + 1..=6 {
            acc = fold_step(acc, item(i));
        }
        assert_eq!(acc, whole);
    }
}

#[test]
fn range_fold_reads_only_its_own_records() {
    let mut gap = records(4);
    gap.remove(&1);
    let full = records(4);
    assert_eq!(snark_public_input_for_range(&gap, 3, 4), snark_public_input_for_range(&full, 3, 4));
}

#[test]
fn pending_ranges_follow_the_counters() {
    let info = BatchInfo {
        total_batches_committed: 9,
        total_batches_verified: 6,
        total_batches_executed: 4,
    };
    assert_eq!(info.pending_prove_range(), Some((7, 9)));
    assert_eq!(info.pending_execute_range(), Some((5, 9)));
    let done = BatchInfo {
        total_batches_committed: 9,
        total_batches_verified: 9,
        total_batches_executed: 9,
    };
    assert_eq!(done.pending_prove_range(), None);
    assert_eq!(done.pending_execute_range(), None);
}

#[test]
fn commit_data_overwrites_records_by_batch_number() {
    let mut m: HashMap<u64, StoredBatchInfo> = HashMap::new();
    m.insert(5, record(5));
    let mut c6 = commit();
    c6.batch_number = 6;
    let c5 = commit();
    add_commit_data(&mut m, record(4), vec![c5.clone(), c6.clone()]);
    assert_eq!(m.len(), 3);
    assert_eq!(m[&4], record(4));
    assert_eq!(m[&5], commit_to_stored(c5));
    assert_eq!(m[&6], commit_to_stored(c6));
}

#[test]
fn scan_windows_walk_back_in_chunks() {
    assert_eq!(next_scan_window(25_000, 0, 10_000), Some((15_001, 25_000)));
    assert_eq!(next_scan_window(15_000, 0, 10_000), Some((5_001, 15_000)));
    assert_eq!(next_scan_window(5_000, 0, 10_000), Some((1, 5_000)));
    assert_eq!(next_scan_window(10_000, 0, 10_000), Some((1, 10_000)));
    assert_eq!(next_scan_window(100, 100, 10), None);
    assert_eq!(next_scan_window(0, 0, 10), None);
}

#[test]
fn interop_message_choice() {
    assert_eq!(select_interop_message(0, None), Err(InteropSelectError::NoMessages));
    assert_eq!(select_interop_message(0, Some(0)), Err(InteropSelectError::NoMessages));
    assert_eq!(select_interop_message(1, None), Ok(0));
    assert_eq!(select_interop_message(3, None), Err(InteropSelectError::AmbiguousMessage));
    assert_eq!(select_interop_message(3, Some(2)), Ok(2));
}
