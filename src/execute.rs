//! Calldata of the settlement contract's execute entry point: a zero
//! discriminant byte, then the ABI encoding of the executed records and, per
//! batch, the inclusion data of its L1-originated transactions.
use crate::batches::StoredBatchInfo;
use crate::hash::append_bytes;
use crate::inclusion::{copy_hashes, MerkleInfoForExecute};
use crate::merkle::{full_path, hash_views};
use crate::payload::{
    append_stored, append_u64_word, stored_list, word_list, word_u64,
    MAX_PAYLOAD_ITEMS,
};
use crate::prove::records_spec;
use std::collections::HashMap;
use vstd::prelude::*;

verus! {

broadcast use vstd::std_specs::hash::group_hash_axioms;

/// Inclusion data of one batch's L1-originated transactions.
#[derive(Clone, Debug, PartialEq, Eq)]
pub struct PriorityOpsBatchInfo {
    pub left_path: Vec<[u8; 32]>,
    pub right_path: Vec<[u8; 32]>,
    pub item_hashes: Vec<[u8; 32]>,
}

/// ABI encoding of a `bytes32[]`: its length, then its words.
pub open spec fn words_enc(ws: Seq<[u8; 32]>) -> Seq<u8> {
    word_u64(ws.len() as u64) + word_list(ws)
}

/// ABI encoding of one batch's inclusion data: three offsets, then the three arrays.
pub open spec fn op_enc(op: PriorityOpsBatchInfo) -> Seq<u8> {
    let a = op.left_path@;
    let b = op.right_path@;
    let c = op.item_hashes@;
    word_u64(96) + word_u64((128 + 32 * a.len()) as u64) + word_u64(
        (160 + 32 * a.len() + 32 * b.len()) as u64,
    ) + words_enc(a) + words_enc(b) + words_enc(c)
}

/// Concatenation of byte strings.
pub open spec fn flat(parts: Seq<Seq<u8>>) -> Seq<u8>
    decreases parts.len(),
{
    if parts.len() == 0 {
        Seq::empty()
    } else {
        flat(parts.drop_last()) + parts.last()
    }
}

pub open spec fn ops_encs(ops: Seq<PriorityOpsBatchInfo>) -> Seq<Seq<u8>> {
    ops.map_values(|o: PriorityOpsBatchInfo| op_enc(o))
}

/// Offsets of the encoded elements, counted from `base`.
pub open spec fn offsets_enc(parts: Seq<Seq<u8>>, base: nat) -> Seq<u8>
    decreases parts.len(),
{
    if parts.len() == 0 {
        Seq::empty()
    } else {
        offsets_enc(parts.drop_last(), base) + word_u64(
            (base + flat(parts.drop_last()).len()) as u64,
        )
    }
}

/// Bytes of the execute calldata.
pub open spec fn execute_payload_spec(
    records: Seq<StoredBatchInfo>,
    ops: Seq<PriorityOpsBatchInfo>,
) -> Seq<u8> {
    let n = records.len();
    let k = ops.len();
    seq![0u8] + word_u64(64) + word_u64((96 + 256 * n) as u64) + word_u64(n as u64)
        + stored_list(records) + word_u64(k as u64) + offsets_enc(ops_encs(ops), 32 * k) + flat(
        ops_encs(ops),
    )
}

/// Every count and offset of the execute calldata fits its word.
pub open spec fn execute_fits(records: Seq<StoredBatchInfo>, ops: Seq<PriorityOpsBatchInfo>) -> bool {
    &&& records.len() <= MAX_PAYLOAD_ITEMS
    &&& ops.len() <= MAX_PAYLOAD_ITEMS
    &&& forall|i: int|
        0 <= i < ops.len() ==> (#[trigger] ops[i]).left_path@.len() <= MAX_PAYLOAD_ITEMS
            && ops[i].right_path@.len() <= MAX_PAYLOAD_ITEMS
    &&& 32 * ops.len() + flat(ops_encs(ops)).len() <= u64::MAX
}

fn append_words(out: &mut Vec<u8>, ws: &Vec<[u8; 32]>)
    ensures
        final(out)@ == old(out)@ + words_enc(ws@),
{
    append_u64_word(out, ws.len() as u64);
    let ghost head = out@;
    let mut j: usize = 0;
    while j < ws.len()
        invariant
            j <= ws@.len(),
            out@ == head + word_list(ws@.take(j as int)),
        decreases ws@.len() - j,
    {
        append_bytes(out, ws[j].as_slice());
        proof {
            assert(ws@.take(j + 1).drop_last() =~= ws@.take(j as int));
        }
        j = j + 1;
    }
    assert(ws@.take(ws@.len() as int) =~= ws@);
    assert(final(out)@ =~= old(out)@ + words_enc(ws@));
}

fn encode_op(op: &PriorityOpsBatchInfo) -> (r: Vec<u8>)
    requires
        op.left_path@.len() <= MAX_PAYLOAD_ITEMS,
        op.right_path@.len() <= MAX_PAYLOAD_ITEMS,
    ensures
        r@ == op_enc(*op),
{
    let a = op.left_path.len() as u64;
    let b = op.right_path.len() as u64;
    let mut out: Vec<u8> = Vec::new();
    append_u64_word(&mut out, 96);
    append_u64_word(&mut out, 128 + 32 * a);
    append_u64_word(&mut out, 160 + 32 * a + 32 * b);
    append_words(&mut out, &op.left_path);
    append_words(&mut out, &op.right_path);
    append_words(&mut out, &op.item_hashes);
    assert(out@ =~= op_enc(*op));
    out
}

/// The execute calldata for `records` and their inclusion data `ops`;
/// `None` exactly when a count or offset does not fit its word.
pub fn encode_execute_payload(
    records: &Vec<StoredBatchInfo>,
    ops: &Vec<PriorityOpsBatchInfo>,
) -> (r: Option<Vec<u8>>)
    ensures
        r is Some <==> execute_fits(records@, ops@),
        r matches Some(v) ==> v@ == execute_payload_spec(records@, ops@),
{
    let ghost encs_spec = ops_encs(ops@);
    if records.len() as u64 > MAX_PAYLOAD_ITEMS || ops.len() as u64 > MAX_PAYLOAD_ITEMS {
        return None;
    }
    let k = ops.len();
    let mut encs: Vec<Vec<u8>> = Vec::new();
    let mut i: usize = 0;
    while i < k
        invariant
            k == ops@.len(),
            i <= k,
            encs_spec == ops_encs(ops@),
            encs@.len() == i,
            forall|j: int| 0 <= j < i ==> (#[trigger] encs@[j])@ == encs_spec[j],
            forall|j: int|
                0 <= j < i ==> (#[trigger] ops@[j]).left_path@.len() <= MAX_PAYLOAD_ITEMS
                    && ops@[j].right_path@.len() <= MAX_PAYLOAD_ITEMS,
        decreases k - i,
    {
        let op = &ops[i];
        if op.left_path.len() as u64 > MAX_PAYLOAD_ITEMS || op.right_path.len() as u64
            > MAX_PAYLOAD_ITEMS {
            assert(!execute_fits(records@, ops@)) by {
                assert(ops@[i as int] == *op);
            }
            return None;
        }
        encs.push(encode_op(op));
        i = i + 1;
    }
    let ghost views = encs@.map_values(|e: Vec<u8>| e@);
    assert(views =~= encs_spec);
    let mut out: Vec<u8> = Vec::new();
    out.push(0u8);
    let n = records.len() as u64;
    append_u64_word(&mut out, 64);
    append_u64_word(&mut out, 96 + 256 * n);
    append_u64_word(&mut out, n);
    let ghost head = out@;
    let mut t: usize = 0;
    while t < records.len()
        invariant
            t <= records@.len(),
            out@ == head + stored_list(records@.take(t as int)),
        decreases records@.len() - t,
    {
        append_stored(&mut out, &records[t]);
        proof {
            assert(records@.take(t + 1).drop_last() =~= records@.take(t as int));
        }
        t = t + 1;
    }
    assert(records@.take(records@.len() as int) =~= records@);
    append_u64_word(&mut out, k as u64);
    let ghost mid = out@;
    let base: u64 = 32 * (k as u64);
    let mut acc: u64 = base;
    let mut j: usize = 0;
    while j < k
        invariant
            k == encs@.len(),
            k == ops@.len(),
            base == 32 * k,
            j <= k,
            views == encs_spec,
            encs_spec == ops_encs(ops@),
            views.len() == k,
            forall|q: int| 0 <= q < k ==> (#[trigger] encs@[q])@ == views[q],
            acc == base + flat(views.take(j as int)).len(),
            out@ == mid + offsets_enc(views.take(j as int), base as nat),
        decreases k - j,
    {
        append_u64_word(&mut out, acc);
        let len = encs[j].len() as u64;
        proof {
            assert(views.take(j + 1).drop_last() =~= views.take(j as int));
        }
        if acc > u64::MAX - len {
            proof {
                lemma_flat_prefix_len(views, j as int + 1);
                assert(views.take(j + 1).last() == views[j as int]);
                assert(flat(views.take(j + 1)).len() == flat(views.take(j as int)).len()
                    + views[j as int].len());
                assert(encs@[j as int]@ == views[j as int]);
            }
            assert(!execute_fits(records@, ops@));
            return None;
        }
        acc = acc + len;
        j = j + 1;
    }
    assert(views.take(k as int) =~= views);
    let ghost mid2 = out@;
    let mut q: usize = 0;
    while q < k
        invariant
            k == encs@.len(),
            q <= k,
            views.len() == k,
            forall|p: int| 0 <= p < k ==> (#[trigger] encs@[p])@ == views[p],
            out@ == mid2 + flat(views.take(q as int)),
        decreases k - q,
    {
        append_bytes(&mut out, encs[q].as_slice());
        proof {
            assert(views.take(q + 1).drop_last() =~= views.take(q as int));
        }
        q = q + 1;
    }
    assert(out@ =~= execute_payload_spec(records@, ops@));
    Some(out)
}

proof fn lemma_flat_prefix_len(parts: Seq<Seq<u8>>, j: int)
    requires
        0 <= j <= parts.len(),
    ensures
        flat(parts.take(j)).len() <= flat(parts).len(),
    decreases parts.len() - j,
{
    if j < parts.len() {
        lemma_flat_prefix_len(parts, j + 1);
        assert(parts.take(j + 1).drop_last() =~= parts.take(j));
    } else {
        assert(parts.take(j) =~= parts);
    }
}

/// The record declares as many L1-originated transactions as `count`.
pub open spec fn count_matches(b: StoredBatchInfo, count: nat) -> bool {
    b.number_of_layer1_txs@ == word_u64(count as u64)
}

/// Conditions under which batch `x` can be executed.
pub open spec fn batch_executable(
    stored: Map<u64, StoredBatchInfo>,
    info: MerkleInfoForExecute,
    l1_txs: Map<u64, Vec<[u8; 32]>>,
    x: u64,
) -> bool {
    &&& stored.contains_key(x)
    &&& l1_txs.contains_key(x)
    &&& count_matches(stored[x], l1_txs[x]@.len())
    &&& l1_txs[x]@.len() > 0 ==> (info.ranges().contains_key(x) && info.ranges()[x].0
        < info.ranges()[x].1)
}

/// `op` is the inclusion data of batch `x`: its transaction hashes, and the
/// full paths of its first and last leaf (both empty when it has none).
pub open spec fn op_for_batch(
    info: MerkleInfoForExecute,
    l1_txs: Map<u64, Vec<[u8; 32]>>,
    x: u64,
    op: PriorityOpsBatchInfo,
) -> bool {
    &&& op.item_hashes@ == l1_txs[x]@
    &&& if l1_txs[x]@.len() == 0 {
        op.left_path@.len() == 0 && op.right_path@.len() == 0
    } else {
        let (s, e) = info.ranges()[x];
        &&& hash_views(op.left_path@) == full_path(info.leaves(), s as nat, info.tree_depth())
        &&& hash_views(op.right_path@) == full_path(
            info.leaves(),
            (e - 1) as nat,
            info.tree_depth(),
        )
    }
}

pub open spec fn ops_for_range(
    info: MerkleInfoForExecute,
    l1_txs: Map<u64, Vec<[u8; 32]>>,
    start: u64,
    ops: Seq<PriorityOpsBatchInfo>,
) -> bool {
    forall|i: int| 0 <= i < ops.len() ==> op_for_batch(info, l1_txs, (start + i) as u64, #[trigger] ops[i])
}

/// The execute calldata for batches `start..=end`, every one of which must
/// be executable: a record, a transaction list whose length is the record's
/// count, and a leaf range when it has transactions. `None` only when a
/// count or offset of the calldata does not fit its word.
pub fn build_execute_payload(
    stored: &HashMap<u64, StoredBatchInfo>,
    merkle_info: &MerkleInfoForExecute,
    l1_txs: &HashMap<u64, Vec<[u8; 32]>>,
    start: u64,
    end: u64,
) -> (r: Option<Vec<u8>>)
    requires
        merkle_info.wf(),
        start <= end,
        end - start < MAX_PAYLOAD_ITEMS,
        forall|x: u64|
            start <= x <= end ==> #[trigger] batch_executable(stored@, *merkle_info, l1_txs@, x),
    ensures
        r is None ==> exists|ops: Seq<PriorityOpsBatchInfo>|
            {
                &&& ops.len() == end - start + 1
                &&& ops_for_range(*merkle_info, l1_txs@, start, ops)
                &&& !execute_fits(records_spec(stored@, start, end), ops)
            },
        r matches Some(v) ==> exists|ops: Seq<PriorityOpsBatchInfo>|
            {
                &&& ops.len() == end - start + 1
                &&& ops_for_range(*merkle_info, l1_txs@, start, ops)
                &&& v@ == execute_payload_spec(records_spec(stored@, start, end), ops)
            },
{
    let count: u64 = end - start + 1;
    let mut records: Vec<StoredBatchInfo> = Vec::new();
    let mut ops: Vec<PriorityOpsBatchInfo> = Vec::new();
    let mut k: u64 = 0;
    while k < count
        invariant
            start <= end,
            count == end - start + 1,
            merkle_info.wf(),
            k <= count,
            records@.len() == k,
            ops@.len() == k,
            forall|x: u64|
                start <= x <= end ==> #[trigger] batch_executable(
                    stored@,
                    *merkle_info,
                    l1_txs@,
                    x,
                ),
            forall|t: int| 0 <= t < k ==> #[trigger] records@[t] == stored@[(start + t) as u64],
            forall|t: int|
                0 <= t < k ==> op_for_batch(
                    *merkle_info,
                    l1_txs@,
                    (start + t) as u64,
                    #[trigger] ops@[t],
                ),
        decreases count - k,
    {
        let x = start + k;
        assert(batch_executable(stored@, *merkle_info, l1_txs@, x));
        let batch = *stored.get(&x).unwrap();
        let items = l1_txs.get(&x).unwrap();
        let item_hashes = copy_hashes(items);
        let op = if items.len() == 0 {
            PriorityOpsBatchInfo { left_path: Vec::new(), right_path: Vec::new(), item_hashes }
        } else {
            let (_root, left_path, right_path) = merkle_info.get_merkle_path_for_l1_tx_in_block(x);
            PriorityOpsBatchInfo { left_path, right_path, item_hashes }
        };
        assert(op_for_batch(*merkle_info, l1_txs@, x, op));
        records.push(batch);
        ops.push(op);
        proof {
            assert forall|t: int| 0 <= t < k + 1 implies op_for_batch(
                *merkle_info,
                l1_txs@,
                (start + t) as u64,
                #[trigger] ops@[t],
            ) by {
                if t == k {
                    assert(ops@[t] == op);
                }
            }
        }
        k = k + 1;
    }
    assert(records@ =~= records_spec(stored@, start, end));
    assert(ops_for_range(*merkle_info, l1_txs@, start, ops@));
    let r = encode_execute_payload(&records, &ops);
    proof {
        if r is None {
            assert(!execute_fits(records_spec(stored@, start, end), ops@));
        }
    }
    r
}

} // verus!
