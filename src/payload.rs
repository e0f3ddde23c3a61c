//! Calldata of the settlement contract's prove entry point: a zero
//! discriminant byte, then the ABI encoding of the predecessor record, the
//! new records and the proof vector.
use crate::batches::{append_u64_be, lemma_u64_be_injective, u64_be, zeros, StoredBatchInfo};
use crate::hash::append_bytes;
use vstd::prelude::*;

verus! {

/// A `u64` as a 32-byte ABI word.
pub open spec fn word_u64(x: u64) -> Seq<u8> {
    zeros(24) + u64_be(x)
}

/// ABI encoding of a stored record: eight words.
pub open spec fn stored_words(b: StoredBatchInfo) -> Seq<u8> {
    word_u64(b.batch_number) + b.batch_hash@ + word_u64(b.index_repeated_storage_changes)
        + b.number_of_layer1_txs@ + b.priority_operations_hash@ + b.l2_logs_tree_root@
        + b.timestamp@ + b.commitment@
}

/// Concatenated encodings of records.
pub open spec fn stored_list(bs: Seq<StoredBatchInfo>) -> Seq<u8>
    decreases bs.len(),
{
    if bs.len() == 0 {
        Seq::empty()
    } else {
        stored_list(bs.drop_last()) + stored_words(bs.last())
    }
}

/// Concatenated words.
pub open spec fn word_list(ws: Seq<[u8; 32]>) -> Seq<u8>
    decreases ws.len(),
{
    if ws.len() == 0 {
        Seq::empty()
    } else {
        word_list(ws.drop_last()) + ws.last()@
    }
}

/// Largest number of records or proof words a payload carries.
pub const MAX_PAYLOAD_ITEMS: u64 = 0xffff_ffff;

/// Bytes of the prove calldata for `old`, `new_info` and `proof`.
pub open spec fn prove_payload_spec(
    old: StoredBatchInfo,
    new_info: Seq<StoredBatchInfo>,
    proof: Seq<[u8; 32]>,
) -> Seq<u8> {
    seq![0u8] + stored_words(old) + word_u64(320) + word_u64((352 + 256 * new_info.len()) as u64)
        + word_u64(new_info.len() as u64) + stored_list(new_info) + word_u64(proof.len() as u64)
        + word_list(proof)
}

pub proof fn lemma_stored_list_chunks(bs: Seq<StoredBatchInfo>)
    ensures
        stored_list(bs).len() == 256 * bs.len(),
        forall|k: int|
            0 <= k < bs.len() ==> stored_list(bs).subrange(256 * k, 256 * k + 256)
                == stored_words(#[trigger] bs[k]),
    decreases bs.len(),
{
    if bs.len() > 0 {
        let init = bs.drop_last();
        lemma_stored_list_chunks(init);
        let s = stored_list(bs);
        assert forall|k: int| 0 <= k < bs.len() implies s.subrange(256 * k, 256 * k + 256)
            == stored_words(#[trigger] bs[k]) by {
            if k < bs.len() - 1 {
                assert(s.subrange(256 * k, 256 * k + 256) =~= stored_list(init).subrange(
                    256 * k,
                    256 * k + 256,
                ));
                assert(init[k] == bs[k]);
            } else {
                assert(s.subrange(256 * k, 256 * k + 256) =~= stored_words(bs.last()));
            }
        }
    }
}

pub proof fn lemma_word_list_chunks(ws: Seq<[u8; 32]>)
    ensures
        word_list(ws).len() == 32 * ws.len(),
        forall|k: int|
            0 <= k < ws.len() ==> word_list(ws).subrange(32 * k, 32 * k + 32) == (#[trigger] ws[k])@,
    decreases ws.len(),
{
    if ws.len() > 0 {
        let init = ws.drop_last();
        lemma_word_list_chunks(init);
        let s = word_list(ws);
        assert forall|k: int| 0 <= k < ws.len() implies s.subrange(32 * k, 32 * k + 32) == (
        #[trigger] ws[k])@ by {
            if k < ws.len() - 1 {
                assert(s.subrange(32 * k, 32 * k + 32) =~= word_list(init).subrange(
                    32 * k,
                    32 * k + 32,
                ));
                assert(init[k] == ws[k]);
            } else {
                assert(s.subrange(32 * k, 32 * k + 32) =~= ws.last()@);
            }
        }
    }
}

/// Appends `x` as a 32-byte ABI word.
pub fn append_u64_word(out: &mut Vec<u8>, x: u64)
    ensures
        final(out)@ == old(out)@ + word_u64(x),
{
    let z = [0u8; 24];
    append_bytes(out, z.as_slice());
    append_u64_be(out, x);
    assert(z@ =~= zeros(24));
    assert(final(out)@ =~= old(out)@ + word_u64(x));
}

/// Appends the ABI encoding of a stored record.
pub fn append_stored(out: &mut Vec<u8>, b: &StoredBatchInfo)
    ensures
        final(out)@ == old(out)@ + stored_words(*b),
{
    append_u64_word(out, b.batch_number);
    append_bytes(out, b.batch_hash.as_slice());
    append_u64_word(out, b.index_repeated_storage_changes);
    append_bytes(out, b.number_of_layer1_txs.as_slice());
    append_bytes(out, b.priority_operations_hash.as_slice());
    append_bytes(out, b.l2_logs_tree_root.as_slice());
    append_bytes(out, b.timestamp.as_slice());
    append_bytes(out, b.commitment.as_slice());
    assert(final(out)@ =~= old(out)@ + stored_words(*b));
}

/// The prove calldata: a zero byte, then the ABI encoding of
/// `(old, new_info, proof)`.
pub fn encode_proof_payload(
    old: &StoredBatchInfo,
    new_info: &Vec<StoredBatchInfo>,
    proof: &Vec<[u8; 32]>,
) -> (r: Vec<u8>)
    requires
        new_info@.len() <= MAX_PAYLOAD_ITEMS,
        proof@.len() <= MAX_PAYLOAD_ITEMS,
    ensures
        r@ == prove_payload_spec(*old, new_info@, proof@),
{
    let mut out: Vec<u8> = Vec::new();
    out.push(0u8);
    append_stored(&mut out, old);
    append_u64_word(&mut out, 320);
    let n = new_info.len() as u64;
    append_u64_word(&mut out, 352 + 256 * n);
    append_u64_word(&mut out, n);
    let ghost head = out@;
    let mut k: usize = 0;
    while k < new_info.len()
        invariant
            k <= new_info@.len(),
            out@ == head + stored_list(new_info@.take(k as int)),
        decreases new_info@.len() - k,
    {
        append_stored(&mut out, &new_info[k]);
        proof {
            assert(new_info@.take(k + 1).drop_last() =~= new_info@.take(k as int));
        }
        k = k + 1;
    }
    assert(new_info@.take(new_info@.len() as int) =~= new_info@);
    append_u64_word(&mut out, proof.len() as u64);
    let ghost mid = out@;
    let mut j: usize = 0;
    while j < proof.len()
        invariant
            j <= proof@.len(),
            out@ == mid + word_list(proof@.take(j as int)),
        decreases proof@.len() - j,
    {
        append_bytes(&mut out, proof[j].as_slice());
        proof {
            assert(proof@.take(j + 1).drop_last() =~= proof@.take(j as int));
        }
        j = j + 1;
    }
    assert(proof@.take(proof@.len() as int) =~= proof@);
    assert(out@ =~= prove_payload_spec(*old, new_info@, proof@));
    out
}

/// `bytes` is the prove calldata of `(old, new_info, proof)`.
pub open spec fn is_prove_payload(
    bytes: Seq<u8>,
    old: StoredBatchInfo,
    new_info: Seq<StoredBatchInfo>,
    proof: Seq<[u8; 32]>,
) -> bool {
    &&& new_info.len() <= MAX_PAYLOAD_ITEMS
    &&& proof.len() <= MAX_PAYLOAD_ITEMS
    &&& bytes == prove_payload_spec(old, new_info, proof)
}

proof fn lemma_payload_layout(old: StoredBatchInfo, new_info: Seq<StoredBatchInfo>, proof: Seq<[u8; 32]>)
    requires
        new_info.len() <= MAX_PAYLOAD_ITEMS,
        proof.len() <= MAX_PAYLOAD_ITEMS,
    ensures
        ({
            let s = prove_payload_spec(old, new_info, proof);
            let n = new_info.len() as int;
            let m = proof.len() as int;
            &&& s.len() == 385 + 256 * n + 32 * m
            &&& s[0] == 0
            &&& s.subrange(1, 257) == stored_words(old)
            &&& s.subrange(321, 353) == word_u64(n as u64)
            &&& forall|k: int|
                0 <= k < n ==> s.subrange(353 + 256 * k, 609 + 256 * k) == stored_words(
                    #[trigger] new_info[k],
                )
            &&& s.subrange(353 + 256 * n, 385 + 256 * n) == word_u64(m as u64)
            &&& forall|j: int|
                0 <= j < m ==> s.subrange(385 + 256 * n + 32 * j, 417 + 256 * n + 32 * j) == (
                #[trigger] proof[j])@
        }),
{
    let s = prove_payload_spec(old, new_info, proof);
    let n = new_info.len() as int;
    let m = proof.len() as int;
    lemma_stored_list_chunks(new_info);
    lemma_word_list_chunks(proof);
    let a = seq![0u8] + stored_words(old) + word_u64(320) + word_u64((352 + 256 * n) as u64)
        + word_u64(n as u64);
    let l = stored_list(new_info);
    let b = word_u64(m as u64);
    let w = word_list(proof);
    assert(s =~= a + l + b + w);
    assert(a.len() == 353);
    assert(s.subrange(1, 257) =~= stored_words(old));
    assert(s.subrange(321, 353) =~= word_u64(n as u64));
    assert forall|k: int| 0 <= k < n implies s.subrange(353 + 256 * k, 609 + 256 * k)
        == stored_words(#[trigger] new_info[k]) by {
        assert(s.subrange(353 + 256 * k, 609 + 256 * k) =~= l.subrange(256 * k, 256 * k + 256));
    }
    assert(s.subrange(353 + 256 * n, 385 + 256 * n) =~= b);
    assert forall|j: int| 0 <= j < m implies s.subrange(
        385 + 256 * n + 32 * j,
        417 + 256 * n + 32 * j,
    ) == (#[trigger] proof[j])@ by {
        assert(s.subrange(385 + 256 * n + 32 * j, 417 + 256 * n + 32 * j) =~= w.subrange(
            32 * j,
            32 * j + 32,
        ));
    }
}

/// The 32 bytes at `at`.
fn read_word(bytes: &[u8], at: usize) -> (r: [u8; 32])
    requires
        at + 32 <= bytes@.len(),
    ensures
        r@ == bytes@.subrange(at as int, at + 32),
{
    let _len = bytes.len();
    let mut w = [0u8; 32];
    let mut i: usize = 0;
    while i < 32
        invariant
            i <= 32,
            at + 32 <= bytes@.len(),
            _len == bytes@.len(),
            w@.len() == 32,
            forall|k: int| 0 <= k < i ==> w@[k] == bytes@[at + k],
        decreases 32 - i,
    {
        w[i] = bytes[at + i];
        i = i + 1;
    }
    assert(w@ =~= bytes@.subrange(at as int, at + 32));
    w
}

/// The `u64` in the low eight bytes of the word at `at`.
fn read_u64_low(bytes: &[u8], at: usize) -> (r: u64)
    requires
        at + 32 <= bytes@.len(),
    ensures
        forall|y: u64| bytes@.subrange(at as int, at + 32) == word_u64(y) ==> r == y,
{
    let _len = bytes.len();
    let b0 = bytes[at + 24];
    let b1 = bytes[at + 25];
    let b2 = bytes[at + 26];
    let b3 = bytes[at + 27];
    let b4 = bytes[at + 28];
    let b5 = bytes[at + 29];
    let b6 = bytes[at + 30];
    let b7 = bytes[at + 31];
    let x: u64 = ((b0 as u64) << 56u64) | ((b1 as u64) << 48u64) | ((b2 as u64) << 40u64) | ((
    b3 as u64) << 32u64) | ((b4 as u64) << 24u64) | ((b5 as u64) << 16u64) | ((b6 as u64)
        << 8u64) | (b7 as u64);
    proof {
        assert((x >> 56u64) as u8 == b0 && (x >> 48u64) as u8 == b1 && (x >> 40u64) as u8 == b2
            && (x >> 32u64) as u8 == b3 && (x >> 24u64) as u8 == b4 && (x >> 16u64) as u8 == b5
            && (x >> 8u64) as u8 == b6 && x as u8 == b7) by (bit_vector)
            requires
                x == ((b0 as u64) << 56u64) | ((b1 as u64) << 48u64) | ((b2 as u64) << 40u64) | ((
                b3 as u64) << 32u64) | ((b4 as u64) << 24u64) | ((b5 as u64) << 16u64) | ((
                b6 as u64) << 8u64) | (b7 as u64),
        ;
        assert forall|y: u64| bytes@.subrange(at as int, at + 32) == word_u64(y) implies x == y by {
            let sub = bytes@.subrange(at as int, at + 32);
            assert(u64_be(x) =~= sub.subrange(24, 32));
            assert(u64_be(y) =~= word_u64(y).subrange(24, 32));
            lemma_u64_be_injective(x, y);
        }
    }
    x
}

/// The record encoded in the 256 bytes at `at`, when they encode one.
fn read_stored(bytes: &[u8], at: usize) -> (r: StoredBatchInfo)
    requires
        at + 256 <= bytes@.len(),
    ensures
        forall|b: StoredBatchInfo| bytes@.subrange(at as int, at + 256) == stored_words(b) ==> r == b,
{
    let _len = bytes.len();
    let r = StoredBatchInfo {
        batch_number: read_u64_low(bytes, at),
        batch_hash: read_word(bytes, at + 32),
        index_repeated_storage_changes: read_u64_low(bytes, at + 64),
        number_of_layer1_txs: read_word(bytes, at + 96),
        priority_operations_hash: read_word(bytes, at + 128),
        l2_logs_tree_root: read_word(bytes, at + 160),
        timestamp: read_word(bytes, at + 192),
        commitment: read_word(bytes, at + 224),
    };
    proof {
        assert forall|b: StoredBatchInfo| bytes@.subrange(at as int, at + 256) == stored_words(
            b,
        ) implies r == b by {
            let sub = bytes@.subrange(at as int, at + 256);
            assert(bytes@.subrange(at as int, at + 32) =~= sub.subrange(0, 32));
            assert(sub.subrange(0, 32) =~= word_u64(b.batch_number));
            assert(bytes@.subrange(at + 64, at + 96) =~= sub.subrange(64, 96));
            assert(sub.subrange(64, 96) =~= word_u64(b.index_repeated_storage_changes));
            assert(bytes@.subrange(at + 32, at + 64) =~= sub.subrange(32, 64));
            assert(sub.subrange(32, 64) =~= b.batch_hash@);
            assert(r.batch_hash@ =~= b.batch_hash@);
            assert(bytes@.subrange(at + 96, at + 128) =~= sub.subrange(96, 128));
            assert(sub.subrange(96, 128) =~= b.number_of_layer1_txs@);
            assert(r.number_of_layer1_txs@ =~= b.number_of_layer1_txs@);
            assert(bytes@.subrange(at + 128, at + 160) =~= sub.subrange(128, 160));
            assert(sub.subrange(128, 160) =~= b.priority_operations_hash@);
            assert(r.priority_operations_hash@ =~= b.priority_operations_hash@);
            assert(bytes@.subrange(at + 160, at + 192) =~= sub.subrange(160, 192));
            assert(sub.subrange(160, 192) =~= b.l2_logs_tree_root@);
            assert(r.l2_logs_tree_root@ =~= b.l2_logs_tree_root@);
            assert(bytes@.subrange(at + 192, at + 224) =~= sub.subrange(192, 224));
            assert(sub.subrange(192, 224) =~= b.timestamp@);
            assert(r.timestamp@ =~= b.timestamp@);
            assert(bytes@.subrange(at + 224, at + 256) =~= sub.subrange(224, 256));
            assert(sub.subrange(224, 256) =~= b.commitment@);
            assert(r.commitment@ =~= b.commitment@);
            assert(r.batch_number == b.batch_number);
            assert(r.index_repeated_storage_changes == b.index_repeated_storage_changes);
            assert(r.batch_hash == b.batch_hash);
            assert(r.number_of_layer1_txs == b.number_of_layer1_txs);
            assert(r.priority_operations_hash == b.priority_operations_hash);
            assert(r.l2_logs_tree_root == b.l2_logs_tree_root);
            assert(r.timestamp == b.timestamp);
            assert(r.commitment == b.commitment);
        }
    }
    r
}

/// Byte-wise equality.
pub fn slices_equal(a: &[u8], b: &[u8]) -> (r: bool)
    ensures
        r == (a@ == b@),
{
    if a.len() != b.len() {
        return false;
    }
    let mut i: usize = 0;
    while i < a.len()
        invariant
            i <= a@.len(),
            a@.len() == b@.len(),
            forall|k: int| 0 <= k < i ==> a@[k] == b@[k],
        decreases a@.len() - i,
    {
        if a[i] != b[i] {
            return false;
        }
        i = i + 1;
    }
    assert(a@ =~= b@);
    true
}

/// Decodes prove calldata: `Some` exactly on the encodings that
/// `encode_proof_payload` produces, with the values that were encoded.
#[verifier::rlimit(60)]
pub fn decode_proof_payload(bytes: &[u8]) -> (r: Option<
    (StoredBatchInfo, Vec<StoredBatchInfo>, Vec<[u8; 32]>),
>)
    ensures
        r matches Some((o, n, p)) ==> is_prove_payload(bytes@, o, n@, p@),
        forall|o: StoredBatchInfo, n: Seq<StoredBatchInfo>, p: Seq<[u8; 32]>|
            #[trigger] is_prove_payload(bytes@, o, n, p) ==> (r matches Some((o2, n2, p2)) && o2
                == o && n2@ == n && p2@ == p),
{
    let len = bytes.len();
    proof {
        assert forall|o: StoredBatchInfo, n: Seq<StoredBatchInfo>, p: Seq<[u8; 32]>|
            #[trigger] is_prove_payload(bytes@, o, n, p) implies bytes@.len() == 385 + 256
            * n.len() + 32 * p.len() by {
            lemma_payload_layout(o, n, p);
        }
    }
    if len < 385 {
        return None;
    }
    let old = read_stored(bytes, 1);
    let n = read_u64_low(bytes, 321);
    if n > MAX_PAYLOAD_ITEMS || n > ((len - 385) / 256) as u64 {
        proof {
            assert forall|o: StoredBatchInfo, nn: Seq<StoredBatchInfo>, p: Seq<[u8; 32]>|
                !#[trigger] is_prove_payload(bytes@, o, nn, p) by {
                if is_prove_payload(bytes@, o, nn, p) {
                    lemma_payload_layout(o, nn, p);
                    assert(n == nn.len());
                    assert((len - 385) / 256 >= nn.len()) by (nonlinear_arith)
                        requires
                            len == 385 + 256 * nn.len() + 32 * p.len(),
                    ;
                }
            }
        }
        return None;
    }
    let n_us = n as usize;
    proof {
        assert(256 * n_us <= len - 385) by (nonlinear_arith)
            requires
                n_us <= (len - 385) / 256,
                len >= 385,
        ;
    }
    let mut new_info: Vec<StoredBatchInfo> = Vec::new();
    let mut k: usize = 0;
    proof {
        assert forall|o: StoredBatchInfo, nn: Seq<StoredBatchInfo>, p: Seq<[u8; 32]>|
            #[trigger] is_prove_payload(bytes@, o, nn, p) implies nn.len() == n && new_info@
            =~= nn.take(0) by {
            lemma_payload_layout(o, nn, p);
        }
    }
    while k < n_us
        invariant
            k <= n_us,
            n_us == n,
            len == bytes@.len(),
            len >= 385,
            256 * n_us <= len - 385,
            new_info@.len() == k,
            forall|o: StoredBatchInfo, nn: Seq<StoredBatchInfo>, p: Seq<[u8; 32]>|
                #[trigger] is_prove_payload(bytes@, o, nn, p) ==> nn.len() == n && new_info@
                    =~= nn.take(k as int),
        decreases n_us - k,
    {
        let rec = read_stored(bytes, 353 + 256 * k);
        proof {
            assert forall|o: StoredBatchInfo, nn: Seq<StoredBatchInfo>, p: Seq<[u8; 32]>|
                #[trigger] is_prove_payload(bytes@, o, nn, p) implies rec == nn[k as int] by {
                lemma_payload_layout(o, nn, p);
                assert(bytes@.subrange(353 + 256 * k, 609 + 256 * k) == stored_words(
                    nn[k as int],
                ));
            }
        }
        new_info.push(rec);
        k = k + 1;
    }
    let pos = 353 + 256 * n_us;
    let m = read_u64_low(bytes, pos);
    if m > MAX_PAYLOAD_ITEMS || m > ((len - pos - 32) / 32) as u64 {
        proof {
            assert forall|o: StoredBatchInfo, nn: Seq<StoredBatchInfo>, p: Seq<[u8; 32]>|
                !#[trigger] is_prove_payload(bytes@, o, nn, p) by {
                if is_prove_payload(bytes@, o, nn, p) {
                    lemma_payload_layout(o, nn, p);
                    assert(m == p.len());
                    assert((len - pos - 32) / 32 >= p.len()) by (nonlinear_arith)
                        requires
                            len - pos - 32 == 32 * p.len(),
                    ;
                }
            }
        }
        return None;
    }
    let m_us = m as usize;
    proof {
        assert(32 * m_us <= len - pos - 32) by (nonlinear_arith)
            requires
                m_us <= (len - pos - 32) / 32,
                len >= pos + 32,
        ;
    }
    let mut proof_words: Vec<[u8; 32]> = Vec::new();
    let mut j: usize = 0;
    proof {
        assert forall|o: StoredBatchInfo, nn: Seq<StoredBatchInfo>, p: Seq<[u8; 32]>|
            #[trigger] is_prove_payload(bytes@, o, nn, p) implies nn.len() == n && p.len() == m
            && proof_words@ =~= p.take(0) by {
            lemma_payload_layout(o, nn, p);
        }
    }
    while j < m_us
        invariant
            j <= m_us,
            m_us == m,
            n_us == n,
            pos == 353 + 256 * n_us,
            len == bytes@.len(),
            32 * m_us <= len - pos - 32,
            pos + 32 <= len,
            proof_words@.len() == j,
            forall|o: StoredBatchInfo, nn: Seq<StoredBatchInfo>, p: Seq<[u8; 32]>|
                #[trigger] is_prove_payload(bytes@, o, nn, p) ==> nn.len() == n && p.len() == m
                    && proof_words@ =~= p.take(j as int),
        decreases m_us - j,
    {
        let w = read_word(bytes, pos + 32 + 32 * j);
        proof {
            assert forall|o: StoredBatchInfo, nn: Seq<StoredBatchInfo>, p: Seq<[u8; 32]>|
                #[trigger] is_prove_payload(bytes@, o, nn, p) implies w == p[j as int] by {
                lemma_payload_layout(o, nn, p);
                assert(w@ == p[j as int]@);
            }
        }
        proof_words.push(w);
        j = j + 1;
    }
    let enc = encode_proof_payload(&old, &new_info, &proof_words);
    if slices_equal(enc.as_slice(), bytes) {
        proof {
            assert forall|o: StoredBatchInfo, nn: Seq<StoredBatchInfo>, p: Seq<[u8; 32]>|
                #[trigger] is_prove_payload(bytes@, o, nn, p) implies old == o && new_info@ == nn
                && proof_words@ == p by {
                lemma_payload_layout(o, nn, p);
                assert(bytes@.subrange(1, 257) == stored_words(o));
                assert(nn.take(n as int) =~= nn);
                assert(p.take(m as int) =~= p);
            }
        }
        Some((old, new_info, proof_words))
    } else {
        proof {
            assert forall|o: StoredBatchInfo, nn: Seq<StoredBatchInfo>, p: Seq<[u8; 32]>|
                !#[trigger] is_prove_payload(bytes@, o, nn, p) by {
                if is_prove_payload(bytes@, o, nn, p) {
                    lemma_payload_layout(o, nn, p);
                    assert(bytes@.subrange(1, 257) == stored_words(o));
                    assert(nn.take(n as int) =~= nn);
                    assert(p.take(m as int) =~= p);
                }
            }
        }
        None
    }
}

} // verus!
