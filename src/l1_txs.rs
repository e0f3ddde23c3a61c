//! Selection of the L1-originated transactions of a rollup block.
use vstd::prelude::*;
use vstd::string::StrSliceExecFns;

verus! {

/// Transaction type of L1-originated transactions, as the rollup node writes it.
pub open spec fn l1_tx_type() -> Seq<char> {
    seq!['0', 'x', '2', 'a']
}

/// The hashes whose transaction type is the L1-originated one, in order.
pub open spec fn l1_selected(hashes: Seq<[u8; 32]>, tx_types: Seq<String>) -> Seq<[u8; 32]>
    decreases hashes.len(),
{
    if hashes.len() == 0 || tx_types.len() != hashes.len() {
        Seq::empty()
    } else {
        let rest = l1_selected(hashes.drop_last(), tx_types.drop_last());
        if tx_types.last()@ == l1_tx_type() {
            rest.push(hashes.last())
        } else {
            rest
        }
    }
}

fn is_l1_tx_type(t: &String) -> (r: bool)
    ensures
        r == (t@ == l1_tx_type()),
{
    let s = t.as_str();
    if s.unicode_len() != 4 {
        return false;
    }
    let r = s.get_char(0) == '0' && s.get_char(1) == 'x' && s.get_char(2) == '2' && s.get_char(3)
        == 'a';
    assert(r ==> s@ =~= l1_tx_type());
    r
}

/// The L1-originated transactions of a block: the hashes whose type is
/// `0x2a`, in block order. `None` when the two lists differ in length.
pub fn select_l1_tx_hashes(hashes: &Vec<[u8; 32]>, tx_types: &Vec<String>) -> (r: Option<
    Vec<[u8; 32]>,
>)
    ensures
        r is Some <==> hashes@.len() == tx_types@.len(),
        r matches Some(v) ==> v@ == l1_selected(hashes@, tx_types@),
{
    if hashes.len() != tx_types.len() {
        return None;
    }
    let mut out: Vec<[u8; 32]> = Vec::new();
    let mut i: usize = 0;
    while i < hashes.len()
        invariant
            i <= hashes@.len(),
            hashes@.len() == tx_types@.len(),
            out@ == l1_selected(hashes@.take(i as int), tx_types@.take(i as int)),
        decreases hashes@.len() - i,
    {
        let keep = is_l1_tx_type(&tx_types[i]);
        proof {
            assert(hashes@.take(i + 1).drop_last() =~= hashes@.take(i as int));
            assert(tx_types@.take(i + 1).drop_last() =~= tx_types@.take(i as int));
        }
        if keep {
            out.push(hashes[i]);
        }
        i = i + 1;
    }
    assert(hashes@.take(hashes@.len() as int) =~= hashes@);
    assert(tx_types@.take(tx_types@.len() as int) =~= tx_types@);
    Some(out)
}

} // verus!
