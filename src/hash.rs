//! The 256-bit hash primitive and the byte helpers built on it.
use tiny_keccak::Hasher;
use vstd::prelude::*;

verus! {

/// The Keccak-256 digest of a byte string.
pub uninterp spec fn keccak(data: Seq<u8>) -> Seq<u8>;

/// Relies on tiny_keccak's `Keccak::v256` with `update` and `finalize`: the
/// digest depends on the input bytes alone.
#[verifier::external_body]
pub fn keccak256(bytes: &[u8]) -> (r: [u8; 32])
    ensures
        r@ == keccak(bytes@),
{
    let mut output = [0u8; 32];
    let mut hasher = tiny_keccak::Keccak::v256();
    hasher.update(bytes);
    hasher.finalize(&mut output);
    output
}

/// Hash of the concatenation of two node values.
pub open spec fn compress_spec(lhs: Seq<u8>, rhs: Seq<u8>) -> Seq<u8> {
    keccak(lhs + rhs)
}

/// Hash of the empty byte string: the value of a leaf that was never filled.
pub open spec fn empty_leaf_spec() -> Seq<u8> {
    keccak(Seq::empty())
}

/// Root of a subtree of the given depth whose leaves are all empty.
pub open spec fn empty_subtree_spec(depth: nat) -> Seq<u8>
    decreases depth,
{
    if depth == 0 {
        empty_leaf_spec()
    } else {
        let e = empty_subtree_spec((depth - 1) as nat);
        compress_spec(e, e)
    }
}

/// Appends `src` to `out`.
pub fn append_bytes(out: &mut Vec<u8>, src: &[u8])
    ensures
        final(out)@ == old(out)@ + src@,
{
    let mut i: usize = 0;
    while i < src.len()
        invariant
            i <= src@.len(),
            out@ == old(out)@ + src@.subrange(0, i as int),
        decreases src@.len() - i,
    {
        out.push(src[i]);
        i = i + 1;
        assert(src@.subrange(0, i as int) == src@.subrange(0, i - 1) + seq![src@[i - 1]]);
    }
    assert(src@.subrange(0, src@.len() as int) == src@);
}

/// Hash of an arbitrary byte string.
pub fn hash_bytes(value: &[u8]) -> (r: [u8; 32])
    ensures
        r@ == keccak(value@),
{
    keccak256(value)
}

/// Hash of the 64-byte concatenation `lhs || rhs`.
pub fn compress(lhs: &[u8; 32], rhs: &[u8; 32]) -> (r: [u8; 32])
    ensures
        r@ == compress_spec(lhs@, rhs@),
{
    let mut bytes: Vec<u8> = Vec::with_capacity(64);
    append_bytes(&mut bytes, lhs.as_slice());
    append_bytes(&mut bytes, rhs.as_slice());
    keccak256(bytes.as_slice())
}

/// The hash of an empty leaf.
pub fn empty_leaf_hash() -> (r: [u8; 32])
    ensures
        r@ == empty_leaf_spec(),
{
    let empty: Vec<u8> = Vec::new();
    let r = hash_bytes(empty.as_slice());
    assert(empty@ =~= Seq::<u8>::empty());
    r
}

/// Root of an all-empty subtree of the given depth.
pub fn empty_subtree_hash(depth: usize) -> (r: [u8; 32])
    ensures
        r@ == empty_subtree_spec(depth as nat),
{
    let mut h = empty_leaf_hash();
    let mut level: usize = 0;
    while level < depth
        invariant
            level <= depth,
            h@ == empty_subtree_spec(level as nat),
        decreases depth - level,
    {
        h = compress(&h, &h);
        level = level + 1;
    }
    h
}

} // verus!
