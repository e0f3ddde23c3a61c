//! Proof vectors and the prove calldata for a range of batches.
use crate::batches::{fold_range, has_range, snark_public_input_for_range, zeros, StoredBatchInfo};
use crate::merkle::hash_views;
use crate::payload::{
    encode_proof_payload, prove_payload_spec, word_u64, MAX_PAYLOAD_ITEMS,
};
use std::collections::HashMap;
use vstd::prelude::*;
use vstd::string::StrSliceExecFns;

verus! {

broadcast use vstd::std_specs::hash::group_hash_axioms;

pub const OHBENDER_PROOF_TYPE: u64 = 2;

pub const FAKE_PROOF_TYPE: u64 = 3;

pub const FAKE_PROOF_MAGIC_VALUE: u64 = 13;

/// A proof handed to the prove entry point, one variant per proof type.
#[derive(Clone, Debug, PartialEq, Eq)]
pub enum ProofData {
    /// An aggregated proof. `prev_hash` is zero when the proof starts at the
    /// first proved batch, else the folded public input of the batches it
    /// covers before that one.
    OhBender { prev_hash: [u8; 32], proof: Vec<[u8; 32]> },
    /// A stand-in proof for test configurations, checked against `public_input`.
    Fake { prev_hash: [u8; 32], public_input: [u8; 32] },
}

/// Words of the proof vector of `p`.
pub open spec fn proof_vector_spec(p: ProofData) -> Seq<Seq<u8>> {
    match p {
        ProofData::OhBender { prev_hash, proof } => seq![
            word_u64(OHBENDER_PROOF_TYPE),
            prev_hash@,
        ] + hash_views(proof@),
        ProofData::Fake { prev_hash, public_input } => seq![
            word_u64(FAKE_PROOF_TYPE),
            prev_hash@,
            word_u64(FAKE_PROOF_MAGIC_VALUE),
            public_input@,
        ],
    }
}

/// `x` as a 32-byte big-endian word.
pub fn u64_word(x: u64) -> (r: [u8; 32])
    ensures
        r@ == word_u64(x),
{
    let mut w = [0u8; 32];
    w[24] = (x >> 56u64) as u8;
    w[25] = (x >> 48u64) as u8;
    w[26] = (x >> 40u64) as u8;
    w[27] = (x >> 32u64) as u8;
    w[28] = (x >> 24u64) as u8;
    w[29] = (x >> 16u64) as u8;
    w[30] = (x >> 8u64) as u8;
    w[31] = x as u8;
    assert(w@ =~= word_u64(x));
    w
}

impl ProofData {
    /// The numeric proof vector: the proof type first, then its fields.
    pub fn to_proof_vector(&self) -> (r: Vec<[u8; 32]>)
        ensures
            hash_views(r@) == proof_vector_spec(*self),
    {
        match self {
            ProofData::OhBender { prev_hash, proof } => {
                let mut v: Vec<[u8; 32]> = Vec::new();
                v.push(u64_word(OHBENDER_PROOF_TYPE));
                v.push(*prev_hash);
                let ghost w0 = v@[0];
                let mut i: usize = 0;
                while i < proof.len()
                    invariant
                        i <= proof@.len(),
                        v@.len() == 2 + i,
                        v@[0] == w0,
                        w0@ == word_u64(OHBENDER_PROOF_TYPE),
                        v@[1] == *prev_hash,
                        forall|t: int| 0 <= t < i ==> #[trigger] v@[2 + t] == proof@[t],
                    decreases proof@.len() - i,
                {
                    v.push(proof[i]);
                    i = i + 1;
                }
                assert(hash_views(v@) =~= proof_vector_spec(*self)) by {
                    assert forall|t: int| 2 <= t < v@.len() implies #[trigger] v@[t] == proof@[t
                        - 2] by {
                        assert(v@[2 + (t - 2)] == proof@[t - 2]);
                    }
                }
                v
            },
            ProofData::Fake { prev_hash, public_input } => {
                let mut v: Vec<[u8; 32]> = Vec::new();
                v.push(u64_word(FAKE_PROOF_TYPE));
                v.push(*prev_hash);
                v.push(u64_word(FAKE_PROOF_MAGIC_VALUE));
                v.push(*public_input);
                assert(hash_views(v@) =~= proof_vector_spec(*self));
                v
            },
        }
    }
}

/// The records of batches `start..=end`, in order.
pub open spec fn records_spec(m: Map<u64, StoredBatchInfo>, start: u64, end: u64) -> Seq<
    StoredBatchInfo,
> {
    Seq::new((end - start + 1) as nat, |i: int| m[(start + i) as u64])
}

/// The prove calldata for batches `start..=end` with the proof vector
/// `proof`. Every batch of `start - 1..=end` must have a record.
pub fn build_prove_payload(
    stored: &HashMap<u64, StoredBatchInfo>,
    start: u64,
    end: u64,
    proof: &Vec<[u8; 32]>,
) -> (r: Vec<u8>)
    requires
        1 <= start <= end,
        has_range(stored@, start, end),
        end - start < MAX_PAYLOAD_ITEMS,
        proof@.len() <= MAX_PAYLOAD_ITEMS,
    ensures
        r@ == prove_payload_spec(
            stored@[(start - 1) as u64],
            records_spec(stored@, start, end),
            proof@,
        ),
{
    assert(stored@.contains_key((start - 1) as u64));
    let old = *stored.get(&(start - 1)).unwrap();
    let count: u64 = end - start + 1;
    let mut new_info: Vec<StoredBatchInfo> = Vec::new();
    let mut k: u64 = 0;
    while k < count
        invariant
            1 <= start <= end,
            count == end - start + 1,
            end - start < MAX_PAYLOAD_ITEMS,
            k <= count,
            has_range(stored@, start, end),
            new_info@.len() == k,
            forall|t: int| 0 <= t < k ==> #[trigger] new_info@[t] == stored@[(start + t) as u64],
        decreases count - k,
    {
        let i = start + k;
        assert(stored@.contains_key(i));
        new_info.push(*stored.get(&i).unwrap());
        k = k + 1;
    }
    assert(new_info@ =~= records_spec(stored@, start, end));
    encode_proof_payload(&old, &new_info, proof)
}

/// The bytes hold the all-zero word.
pub open spec fn is_zero_word(w: [u8; 32]) -> bool {
    w@ == zeros(32)
}

fn zero_hash() -> (r: [u8; 32])
    ensures
        r@ == zeros(32),
{
    let w = [0u8; 32];
    assert(w@ =~= zeros(32));
    w
}

/// `snark_start` may start an aggregated proof submitted from `start`: it
/// is not after `start`, and every record the fold before `start` reads is there.
pub open spec fn valid_snark_start(
    stored: Map<u64, StoredBatchInfo>,
    start: u64,
    snark_start: Option<u64>,
) -> bool {
    match snark_start {
        None => true,
        Some(s) => s <= start && (s < start ==> 1 <= s && has_range(stored, s, (start - 1) as u64)),
    }
}

/// `prev_hash` of an aggregated proof that starts at batch `snark_start`
/// (at `start` when `None`) and is submitted for batches from `start`: zero
/// when it starts at `start`, else the folded public input of
/// `snark_start..=start - 1`.
pub fn ohbender_prev_hash(
    stored: &HashMap<u64, StoredBatchInfo>,
    start: u64,
    snark_start: Option<u64>,
) -> (r: [u8; 32])
    requires
        valid_snark_start(stored@, start, snark_start),
    ensures
        snark_start is None ==> is_zero_word(r),
        snark_start matches Some(s) ==> {
            &&& s == start ==> is_zero_word(r)
            &&& s < start ==> r@ == fold_range(stored@, s as nat, (start - 1) as nat)
        },
{
    match snark_start {
        None => zero_hash(),
        Some(s) => {
            if s == start {
                zero_hash()
            } else {
                snark_public_input_for_range(stored, s, start - 1)
            }
        },
    }
}

/// Value of an ASCII digit or letter (`a`/`A` is ten), any case.
pub open spec fn digit_value(c: char) -> Option<nat> {
    if '0' <= c && c <= '9' {
        Some((c as nat - '0' as nat) as nat)
    } else if 'a' <= c && c <= 'z' {
        Some((c as nat - 'a' as nat + 10) as nat)
    } else if 'A' <= c && c <= 'Z' {
        Some((c as nat - 'A' as nat + 10) as nat)
    } else {
        None
    }
}

/// Value of a string of digits in `radix`, `_` skipped, zero when empty;
/// `None` when a character is neither `_` nor a digit below `radix`.
pub open spec fn radix_value(s: Seq<char>, radix: nat) -> Option<nat>
    decreases s.len(),
{
    if s.len() == 0 {
        Some(0)
    } else {
        let c = s.last();
        match radix_value(s.drop_last(), radix) {
            None => None,
            Some(v) => if c == '_' {
                Some(v)
            } else {
                match digit_value(c) {
                    Some(d) => if d < radix {
                        Some(v * radix + d)
                    } else {
                        None
                    },
                    None => None,
                }
            },
        }
    }
}

/// Big-endian value of a byte string.
pub open spec fn be_value(b: Seq<u8>) -> nat
    decreases b.len(),
{
    if b.len() == 0 {
        0
    } else {
        be_value(b.drop_last()) * 256 + b.last() as nat
    }
}

/// `256^n`.
pub open spec fn pow256(n: nat) -> nat
    decreases n,
{
    if n == 0 {
        1
    } else {
        256 * pow256((n - 1) as nat)
    }
}

/// The string reads as a 256-bit number in `radix`.
pub open spec fn parses_as_u256(s: Seq<char>, radix: nat) -> bool {
    radix_value(s, radix) matches Some(v) && v < pow256(32)
}

/// Relies on alloy's `U256::from_str_radix` (ruint) and `to_be_bytes`: for
/// radix 10 or 16, ASCII digits and letters of either case with `_`
/// skipped, an empty string reads as zero, and any other character, a digit
/// not below the radix, or a value of `2^256` or more is an error.
#[verifier::external_body]
fn u256_from_str_radix(s: &str, radix: u64) -> (r: Option<[u8; 32]>)
    requires
        radix == 10 || radix == 16,
    ensures
        r is Some <==> parses_as_u256(s@, radix as nat),
        r matches Some(w) ==> radix_value(s@, radix as nat) == Some(be_value(w@)),
{
    alloy::primitives::U256::from_str_radix(s, radix).ok().map(|v| v.to_be_bytes::<32>())
}

/// `s` without its leading `0x` prefixes.
pub open spec fn strip_0x(s: Seq<char>) -> Seq<char>
    decreases s.len(),
{
    if s.len() >= 2 && s[0] == '0' && s[1] == 'x' {
        strip_0x(s.subrange(2, s.len() as int))
    } else {
        s
    }
}

/// A 256-bit value written in hex, with or without `0x` prefixes; `None`
/// when the digits are not a 256-bit hex number.
pub fn parse_hex_u256(text: &str) -> (r: Option<[u8; 32]>)
    ensures
        r is Some <==> parses_as_u256(strip_0x(text@), 16),
        r matches Some(w) ==> radix_value(strip_0x(text@), 16) == Some(be_value(w@)),
{
    let mut t: &str = text;
    while t.unicode_len() >= 2 && t.get_char(0) == '0' && t.get_char(1) == 'x'
        invariant
            strip_0x(t@) == strip_0x(text@),
        decreases t@.len(),
    {
        let n = t.unicode_len();
        t = t.substring_char(2, n);
    }
    u256_from_str_radix(t, 16)
}

/// The stand-in proof for a public input written in hex, with or without
/// `0x`; its `prev_hash` is zero.
pub fn fake_proof_from_hex(public_input: &str) -> (r: ProofData)
    requires
        parses_as_u256(strip_0x(public_input@), 16),
    ensures
        r matches ProofData::Fake { prev_hash, public_input: pi } && is_zero_word(prev_hash)
            && radix_value(strip_0x(public_input@), 16) == Some(be_value(pi@)),
{
    let pi = parse_hex_u256(public_input).unwrap();
    ProofData::Fake { prev_hash: zero_hash(), public_input: pi }
}

/// The proof words parse the decimal strings one for one.
pub open spec fn parsed_words(strs: Seq<String>, words: Seq<[u8; 32]>) -> bool {
    &&& words.len() == strs.len()
    &&& forall|i: int|
        0 <= i < strs.len() ==> radix_value((#[trigger] strs[i])@, 10) == Some(be_value(words[i]@))
}

/// The proof words of an aggregated proof given as decimal strings; `None`
/// when a string is not a 256-bit decimal number.
pub fn parse_proof_words(serialized_proof: &Vec<String>) -> (r: Option<Vec<[u8; 32]>>)
    ensures
        r is Some <==> forall|i: int|
            0 <= i < serialized_proof@.len() ==> parses_as_u256(
                (#[trigger] serialized_proof@[i])@,
                10,
            ),
        r matches Some(w) ==> parsed_words(serialized_proof@, w@),
{
    let mut words: Vec<[u8; 32]> = Vec::new();
    let mut i: usize = 0;
    while i < serialized_proof.len()
        invariant
            i <= serialized_proof@.len(),
            parsed_words(serialized_proof@.take(i as int), words@),
            forall|j: int| 0 <= j < i ==> parses_as_u256((#[trigger] serialized_proof@[j])@, 10),
        decreases serialized_proof@.len() - i,
    {
        match u256_from_str_radix(serialized_proof[i].as_str(), 10) {
            Some(w) => words.push(w),
            None => return None,
        }
        i = i + 1;
        assert forall|j: int| 0 <= j < i implies radix_value(
            (#[trigger] serialized_proof@.take(i as int)[j])@,
            10,
        ) == Some(be_value(words@[j]@)) by {
            if j < i - 1 {
                assert(serialized_proof@.take(i - 1)[j] == serialized_proof@.take(i as int)[j]);
            }
        }
    }
    assert(serialized_proof@.take(serialized_proof@.len() as int) =~= serialized_proof@);
    Some(words)
}

/// Prove calldata for batches `batch_from..=batch_to` with an aggregated
/// proof given as decimal strings that covers exactly that range (its
/// `prev_hash` is zero). Every batch of `batch_from - 1..=batch_to` must
/// have a record. `None` when a string is not a 256-bit decimal number.
pub fn create_ohbender_proof_payload(
    batches: &HashMap<u64, StoredBatchInfo>,
    serialized_proof: Vec<String>,
    batch_from: u64,
    batch_to: u64,
) -> (r: Option<Vec<u8>>)
    requires
        1 <= batch_from <= batch_to,
        has_range(batches@, batch_from, batch_to),
        batch_to - batch_from < MAX_PAYLOAD_ITEMS,
        serialized_proof@.len() + 2 <= MAX_PAYLOAD_ITEMS,
    ensures
        r is Some <==> forall|i: int|
            0 <= i < serialized_proof@.len() ==> parses_as_u256(
                (#[trigger] serialized_proof@[i])@,
                10,
            ),
        r matches Some(v) ==> exists|words: Seq<[u8; 32]>, proof: Seq<[u8; 32]>|
            {
                &&& parsed_words(serialized_proof@, words)
                &&& hash_views(proof) == seq![word_u64(OHBENDER_PROOF_TYPE), zeros(32)]
                    + hash_views(words)
                &&& v@ == prove_payload_spec(
                    batches@[(batch_from - 1) as u64],
                    records_spec(batches@, batch_from, batch_to),
                    proof,
                )
            },
{
    let words = match parse_proof_words(&serialized_proof) {
        Some(w) => w,
        None => return None,
    };
    let ghost ws = words@;
    let prev = zero_hash();
    let data = ProofData::OhBender { prev_hash: prev, proof: words };
    let proof = data.to_proof_vector();
    proof {
        assert(hash_views(proof@) =~= seq![word_u64(OHBENDER_PROOF_TYPE), zeros(32)]
            + hash_views(ws));
    }
    Some(build_prove_payload(batches, batch_from, batch_to, &proof))
}

} // verus!
