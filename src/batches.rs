//! Batch records, the per-batch commitment and public input, and the folding
//! of public inputs over a contiguous range of batches.
use crate::hash::{append_bytes, keccak, keccak256};
use std::collections::HashMap;
use vstd::prelude::*;

verus! {

broadcast use vstd::std_specs::hash::group_hash_axioms;

/// A batch as recorded by the settlement contract. 256-bit integers are held
/// as 32 big-endian bytes.
#[derive(Clone, Copy, Debug, PartialEq, Eq)]
pub struct StoredBatchInfo {
    pub batch_number: u64,
    /// Full state commitment of the batch.
    pub batch_hash: [u8; 32],
    pub index_repeated_storage_changes: u64,
    pub number_of_layer1_txs: [u8; 32],
    pub priority_operations_hash: [u8; 32],
    pub l2_logs_tree_root: [u8; 32],
    pub timestamp: [u8; 32],
    /// Hash of the batch outputs.
    pub commitment: [u8; 32],
}

/// A batch as sent in a commit transaction. 256-bit integers are held as 32
/// big-endian bytes.
#[derive(Clone, Debug, PartialEq, Eq)]
pub struct CommitBoojumOSBatchInfo {
    pub batch_number: u64,
    pub new_state_commitment: [u8; 32],
    pub number_of_layer1_txs: [u8; 32],
    pub priority_operations_hash: [u8; 32],
    pub l2_logs_tree_root: [u8; 32],
    pub l2_da_validator: [u8; 20],
    pub da_commitment: [u8; 32],
    pub first_block_timestamp: u64,
    pub last_block_timestamp: u64,
    pub chain_id: [u8; 32],
    pub operator_da_input: Vec<u8>,
}

/// Big-endian bytes of a `u64`.
pub open spec fn u64_be(x: u64) -> Seq<u8> {
    seq![
        (x >> 56u64) as u8,
        (x >> 48u64) as u8,
        (x >> 40u64) as u8,
        (x >> 32u64) as u8,
        (x >> 24u64) as u8,
        (x >> 16u64) as u8,
        (x >> 8u64) as u8,
        x as u8,
    ]
}

/// `n` zero bytes.
pub open spec fn zeros(n: nat) -> Seq<u8> {
    Seq::new(n, |_i: int| 0u8)
}

/// The bytes hashed into a batch's output hash, in their fixed order and widths.
pub open spec fn batch_outputs_preimage(b: CommitBoojumOSBatchInfo) -> Seq<u8> {
    b.chain_id@ + u64_be(b.first_block_timestamp) + u64_be(b.last_block_timestamp)
        + b.l2_da_validator@ + b.da_commitment@ + b.number_of_layer1_txs@
        + b.priority_operations_hash@ + b.l2_logs_tree_root@ + zeros(32)
}

pub open spec fn batch_outputs_hash_spec(b: CommitBoojumOSBatchInfo) -> Seq<u8> {
    keccak(batch_outputs_preimage(b))
}

/// Public input binding a batch to its predecessor.
pub open spec fn public_input_spec(prev: StoredBatchInfo, batch: StoredBatchInfo) -> Seq<u8> {
    keccak(prev.batch_hash@ + batch.batch_hash@ + batch.commitment@)
}

/// A 256-bit value shifted right by 32 bits: four zero bytes, then the first 28 bytes.
pub open spec fn shift_spec(v: Seq<u8>) -> Seq<u8> {
    zeros(4) + v.subrange(0, 28)
}

/// Shifted public input of batch `i` against batch `i - 1`.
pub open spec fn range_item(m: Map<u64, StoredBatchInfo>, i: nat) -> Seq<u8> {
    shift_spec(public_input_spec(m[(i - 1) as u64], m[i as u64]))
}

/// One step of the fold: hash the accumulator with the next value, then shift.
pub open spec fn fold_step(acc: Seq<u8>, next: Seq<u8>) -> Seq<u8> {
    shift_spec(keccak(acc + next))
}

/// Folded public input of batches `start..=end`.
pub open spec fn fold_range(m: Map<u64, StoredBatchInfo>, start: nat, end: nat) -> Seq<u8>
    decreases end - start,
{
    if end <= start {
        range_item(m, start)
    } else {
        fold_step(fold_range(m, start, (end - 1) as nat), range_item(m, end))
    }
}

/// The fold continued from accumulator `acc` over batches `from..=to`.
pub open spec fn fold_continue(acc: Seq<u8>, m: Map<u64, StoredBatchInfo>, from: nat, to: nat) -> Seq<
    u8,
>
    decreases to + 1 - from,
{
    if to < from {
        acc
    } else if to == from {
        fold_step(acc, range_item(m, to))
    } else {
        fold_step(fold_continue(acc, m, from, (to - 1) as nat), range_item(m, to))
    }
}

/// Every batch `start - 1..=end` has a record.
pub open spec fn has_range(m: Map<u64, StoredBatchInfo>, start: u64, end: u64) -> bool {
    forall|i: u64| start - 1 <= i <= end ==> #[trigger] m.contains_key(i)
}

/// Folding a range in one pass equals folding a prefix of it and continuing
/// the fold over the rest.
pub proof fn lemma_fold_split(m: Map<u64, StoredBatchInfo>, a: nat, mid: nat, b: nat)
    requires
        a <= mid < b,
    ensures
        fold_range(m, a, b) == fold_continue(fold_range(m, a, mid), m, mid + 1, b),
    decreases b - mid,
{
    let acc = fold_range(m, a, mid);
    if b > mid + 1 {
        lemma_fold_split(m, a, mid, (b - 1) as nat);
    }
}

/// The output hash preimage determines every field that it carries.
pub proof fn lemma_outputs_preimage_injective(a: CommitBoojumOSBatchInfo, b: CommitBoojumOSBatchInfo)
    requires
        batch_outputs_preimage(a) == batch_outputs_preimage(b),
    ensures
        a.chain_id == b.chain_id,
        a.first_block_timestamp == b.first_block_timestamp,
        a.last_block_timestamp == b.last_block_timestamp,
        a.l2_da_validator == b.l2_da_validator,
        a.da_commitment == b.da_commitment,
        a.number_of_layer1_txs == b.number_of_layer1_txs,
        a.priority_operations_hash == b.priority_operations_hash,
        a.l2_logs_tree_root == b.l2_logs_tree_root,
{
    let pa = batch_outputs_preimage(a);
    let pb = batch_outputs_preimage(b);
    assert(pa.subrange(0, 32) =~= a.chain_id@);
    assert(pb.subrange(0, 32) =~= b.chain_id@);
    assert(pa.subrange(32, 40) =~= u64_be(a.first_block_timestamp));
    assert(pb.subrange(32, 40) =~= u64_be(b.first_block_timestamp));
    assert(pa.subrange(40, 48) =~= u64_be(a.last_block_timestamp));
    assert(pb.subrange(40, 48) =~= u64_be(b.last_block_timestamp));
    assert(pa.subrange(48, 68) =~= a.l2_da_validator@);
    assert(pb.subrange(48, 68) =~= b.l2_da_validator@);
    assert(pa.subrange(68, 100) =~= a.da_commitment@);
    assert(pb.subrange(68, 100) =~= b.da_commitment@);
    assert(pa.subrange(100, 132) =~= a.number_of_layer1_txs@);
    assert(pb.subrange(100, 132) =~= b.number_of_layer1_txs@);
    assert(pa.subrange(132, 164) =~= a.priority_operations_hash@);
    assert(pb.subrange(132, 164) =~= b.priority_operations_hash@);
    assert(pa.subrange(164, 196) =~= a.l2_logs_tree_root@);
    assert(pb.subrange(164, 196) =~= b.l2_logs_tree_root@);
    lemma_u64_be_injective(a.first_block_timestamp, b.first_block_timestamp);
    lemma_u64_be_injective(a.last_block_timestamp, b.last_block_timestamp);
}

pub proof fn lemma_u64_be_injective(x: u64, y: u64)
    requires
        u64_be(x) == u64_be(y),
    ensures
        x == y,
{
    let ex = u64_be(x);
    let ey = u64_be(y);
    assert(ex[0] == ey[0] && ex[1] == ey[1] && ex[2] == ey[2] && ex[3] == ey[3]);
    assert(ex[4] == ey[4] && ex[5] == ey[5] && ex[6] == ey[6] && ex[7] == ey[7]);
    assert(((x >> 56u64) as u8 == (y >> 56u64) as u8 && (x >> 48u64) as u8 == (y >> 48u64) as u8
        && (x >> 40u64) as u8 == (y >> 40u64) as u8 && (x >> 32u64) as u8 == (y >> 32u64) as u8
        && (x >> 24u64) as u8 == (y >> 24u64) as u8 && (x >> 16u64) as u8 == (y >> 16u64) as u8
        && (x >> 8u64) as u8 == (y >> 8u64) as u8 && x as u8 == y as u8) ==> x == y)
        by (bit_vector);
}

/// Appends the eight big-endian bytes of `x`.
pub fn append_u64_be(out: &mut Vec<u8>, x: u64)
    ensures
        final(out)@ == old(out)@ + u64_be(x),
{
    out.push((x >> 56u64) as u8);
    out.push((x >> 48u64) as u8);
    out.push((x >> 40u64) as u8);
    out.push((x >> 32u64) as u8);
    out.push((x >> 24u64) as u8);
    out.push((x >> 16u64) as u8);
    out.push((x >> 8u64) as u8);
    out.push(x as u8);
    assert(final(out)@ =~= old(out)@ + u64_be(x));
}

/// Hash of the batch outputs that the settlement layer checks a commit against.
pub fn compute_batch_outputs_hash(batch: &CommitBoojumOSBatchInfo) -> (r: [u8; 32])
    ensures
        r@ == batch_outputs_hash_spec(*batch),
{
    let mut bytes: Vec<u8> = Vec::with_capacity(228);
    append_bytes(&mut bytes, batch.chain_id.as_slice());
    append_u64_be(&mut bytes, batch.first_block_timestamp);
    append_u64_be(&mut bytes, batch.last_block_timestamp);
    append_bytes(&mut bytes, batch.l2_da_validator.as_slice());
    append_bytes(&mut bytes, batch.da_commitment.as_slice());
    append_bytes(&mut bytes, batch.number_of_layer1_txs.as_slice());
    append_bytes(&mut bytes, batch.priority_operations_hash.as_slice());
    append_bytes(&mut bytes, batch.l2_logs_tree_root.as_slice());
    let zero = [0u8; 32];
    append_bytes(&mut bytes, zero.as_slice());
    assert(zero@ =~= zeros(32));
    assert(bytes@ =~= batch_outputs_preimage(*batch));
    keccak256(bytes.as_slice())
}

/// The stored record of a freshly committed batch.
pub fn commit_to_stored(info: CommitBoojumOSBatchInfo) -> (r: StoredBatchInfo)
    ensures
        r.batch_number == info.batch_number,
        r.batch_hash == info.new_state_commitment,
        r.index_repeated_storage_changes == 0,
        r.number_of_layer1_txs == info.number_of_layer1_txs,
        r.priority_operations_hash == info.priority_operations_hash,
        r.l2_logs_tree_root == info.l2_logs_tree_root,
        r.timestamp@ == zeros(32),
        r.commitment@ == batch_outputs_hash_spec(info),
{
    stored_record(&info)
}

fn stored_record(info: &CommitBoojumOSBatchInfo) -> (r: StoredBatchInfo)
    ensures
        r.batch_number == info.batch_number,
        r.batch_hash == info.new_state_commitment,
        r.index_repeated_storage_changes == 0,
        r.number_of_layer1_txs == info.number_of_layer1_txs,
        r.priority_operations_hash == info.priority_operations_hash,
        r.l2_logs_tree_root == info.l2_logs_tree_root,
        r.timestamp@ == zeros(32),
        r.commitment@ == batch_outputs_hash_spec(*info),
{
    let commitment = compute_batch_outputs_hash(info);
    let timestamp = [0u8; 32];
    assert(timestamp@ =~= zeros(32));
    StoredBatchInfo {
        batch_number: info.batch_number,
        batch_hash: info.new_state_commitment,
        index_repeated_storage_changes: 0,
        number_of_layer1_txs: info.number_of_layer1_txs,
        priority_operations_hash: info.priority_operations_hash,
        l2_logs_tree_root: info.l2_logs_tree_root,
        timestamp,
        commitment,
    }
}

/// Public input of `batch` against its predecessor `prev_batch`.
pub fn get_batch_public_input(prev_batch: &StoredBatchInfo, batch: &StoredBatchInfo) -> (r: [u8;
    32])
    ensures
        r@ == public_input_spec(*prev_batch, *batch),
{
    let mut bytes: Vec<u8> = Vec::with_capacity(96);
    append_bytes(&mut bytes, prev_batch.batch_hash.as_slice());
    append_bytes(&mut bytes, batch.batch_hash.as_slice());
    append_bytes(&mut bytes, batch.commitment.as_slice());
    keccak256(bytes.as_slice())
}

/// Shifts a 256-bit big-endian value right by 32 bits.
pub fn shift_b256_right(input: &[u8; 32]) -> (r: [u8; 32])
    ensures
        r@ == shift_spec(input@),
{
    let mut bytes = [0u8; 32];
    let mut i: usize = 4;
    while i < 32
        invariant
            4 <= i <= 32,
            bytes@.len() == 32,
            forall|k: int| 0 <= k < 4 ==> bytes@[k] == 0,
            forall|k: int| 4 <= k < i ==> bytes@[k] == input@[k - 4],
            forall|k: int| i <= k < 32 ==> bytes@[k] == 0,
        decreases 32 - i,
    {
        bytes[i] = input[i - 4];
        i = i + 1;
    }
    assert(bytes@ =~= shift_spec(input@));
    bytes
}

/// Folded public input of batches `start..=end`. Every batch of
/// `start - 1..=end` must have a record.
pub fn snark_public_input_for_range(
    batches: &HashMap<u64, StoredBatchInfo>,
    start: u64,
    end: u64,
) -> (r: [u8; 32])
    requires
        1 <= start <= end,
        has_range(batches@, start, end),
    ensures
        r@ == fold_range(batches@, start as nat, end as nat),
{
    assert(batches@.contains_key(start) && batches@.contains_key((start - 1) as u64));
    let mut acc = range_item_of(batches, start);
    let mut i: u64 = start;
    while i < end
        invariant
            1 <= start <= i <= end,
            has_range(batches@, start, end),
            acc@ == fold_range(batches@, start as nat, i as nat),
        decreases end - i,
    {
        i = i + 1;
        assert(batches@.contains_key(i) && batches@.contains_key((i - 1) as u64));
        let v = range_item_of(batches, i);
        let mut combined: Vec<u8> = Vec::with_capacity(64);
        append_bytes(&mut combined, acc.as_slice());
        append_bytes(&mut combined, v.as_slice());
        let h = keccak256(combined.as_slice());
        acc = shift_b256_right(&h);
    }
    acc
}

/// Shifted public input of batch `i` against its predecessor.
fn range_item_of(batches: &HashMap<u64, StoredBatchInfo>, i: u64) -> (r: [u8; 32])
    requires
        i >= 1,
        batches@.contains_key(i),
        batches@.contains_key((i - 1) as u64),
    ensures
        r@ == range_item(batches@, i as nat),
{
    let batch = batches.get(&i).unwrap();
    let prev_batch = batches.get(&(i - 1)).unwrap();
    let public_input = get_batch_public_input(prev_batch, batch);
    shift_b256_right(&public_input)
}

/// Records after inserting, in order, the stored form of each commit.
pub open spec fn with_commits(
    m: Map<u64, StoredBatchInfo>,
    commits: Seq<CommitBoojumOSBatchInfo>,
) -> Map<u64, StoredBatchInfo>
    decreases commits.len(),
{
    if commits.len() == 0 {
        m
    } else {
        let c = commits.last();
        with_commits(m, commits.drop_last()).insert(c.batch_number, stored_of_commit(c))
    }
}

/// The stored record of a commit, as `commit_to_stored` builds it.
pub open spec fn stored_of_commit(c: CommitBoojumOSBatchInfo) -> StoredBatchInfo {
    StoredBatchInfo {
        batch_number: c.batch_number,
        batch_hash: c.new_state_commitment,
        index_repeated_storage_changes: 0,
        number_of_layer1_txs: c.number_of_layer1_txs,
        priority_operations_hash: c.priority_operations_hash,
        l2_logs_tree_root: c.l2_logs_tree_root,
        timestamp: spec_zero_word(),
        commitment: spec_word_of(batch_outputs_hash_spec(c)),
    }
}

/// The array whose bytes are `s` (of length 32).
pub open spec fn spec_word_of(s: Seq<u8>) -> [u8; 32] {
    choose|w: [u8; 32]| w@ == s
}

pub open spec fn spec_zero_word() -> [u8; 32] {
    spec_word_of(zeros(32))
}

/// Adds the records of one commit transaction: the stored form of each new
/// batch, in order, then the predecessor record it was committed against.
/// A batch that already has a record gets the new one.
pub fn add_commit_data(
    records: &mut HashMap<u64, StoredBatchInfo>,
    stored: StoredBatchInfo,
    commits: Vec<CommitBoojumOSBatchInfo>,
)
    ensures
        final(records)@ == with_commits(old(records)@, commits@).insert(
            stored.batch_number,
            stored,
        ),
{
    let mut i: usize = 0;
    while i < commits.len()
        invariant
            i <= commits@.len(),
            records@ == with_commits(old(records)@, commits@.take(i as int)),
        decreases commits@.len() - i,
    {
        let n = commits[i].batch_number;
        let rec = stored_record(&commits[i]);
        proof {
            let cs = commits@[i as int];
            assert(commits@.take(i + 1).drop_last() =~= commits@.take(i as int));
            assert(commits@.take(i + 1).last() == cs);
            lemma_word_of(rec.commitment);
            lemma_word_of(rec.timestamp);
            assert(rec == stored_of_commit(cs));
        }
        records.insert(n, rec);
        i = i + 1;
    }
    assert(commits@.take(commits@.len() as int) =~= commits@);
    records.insert(stored.batch_number, stored);
}

proof fn lemma_word_of(w: [u8; 32])
    ensures
        spec_word_of(w@) == w,
{
    let c = spec_word_of(w@);
    assert(c@ == w@);
    assert(c@ =~= w@);
}

} // verus!
