//! Index from block number to the range of tree leaves that the block's
//! L1-originated transactions occupy, and the inclusion paths of those ranges.
use crate::merkle::{
    climb, full_path, full_rebuild_root, min_depth, hash_views, lemma_full_path_recombines_to_root, node, path_entry_ok,
    MiniMerkleTree, PathSide,
};
use std::collections::HashMap;
use vstd::prelude::*;

verus! {

broadcast use vstd::std_specs::hash::group_hash_axioms;

/// Leaves contributed by `blocks`, replayed in order.
pub open spec fn replayed_leaves(blocks: Seq<(u64, Vec<[u8; 32]>)>) -> Seq<Seq<u8>>
    decreases blocks.len(),
{
    if blocks.len() == 0 {
        Seq::empty()
    } else {
        replayed_leaves(blocks.drop_last()) + hash_views(blocks.last().1@)
    }
}

/// Block numbers of `blocks`.
pub open spec fn block_ids(blocks: Seq<(u64, Vec<[u8; 32]>)>) -> Set<u64>
    decreases blocks.len(),
{
    if blocks.len() == 0 {
        Set::empty()
    } else {
        block_ids(blocks.drop_last()).insert(blocks.last().0)
    }
}

/// Block `b` may follow the last recorded block `last`.
pub open spec fn follows(last: Option<u64>, b: u64) -> bool {
    match last {
        None => true,
        Some(l) => b > l,
    }
}

/// Block numbers strictly ascending.
pub open spec fn ascending_blocks(blocks: Seq<(u64, Vec<[u8; 32]>)>) -> bool {
    forall|i: int, j: int| 0 <= i < j < blocks.len() ==> blocks[i].0 < blocks[j].0
}

/// The tree of L1-originated transactions of every block recorded so far,
/// with the leaf range of each block.
pub struct MerkleInfoForExecute {
    last_block_number: Option<u64>,
    current_size: u64,
    block_range: HashMap<u64, (u64, u64)>,
    merkle_tree: MiniMerkleTree,
}

impl MerkleInfoForExecute {
    /// Leaves of the tree, oldest first.
    pub closed spec fn leaves(&self) -> Seq<Seq<u8>> {
        self.merkle_tree.leaves()
    }

    /// Depth of the tree: the smallest that holds every leaf.
    pub open spec fn tree_depth(&self) -> nat {
        min_depth(self.leaves().len())
    }

    /// Half-open leaf range of each recorded block.
    pub closed spec fn ranges(&self) -> Map<u64, (u64, u64)> {
        self.block_range@
    }

    /// Highest block number recorded, `None` when none is.
    pub closed spec fn last_block(&self) -> Option<u64> {
        self.last_block_number
    }

    pub closed spec fn wf(&self) -> bool {
        &&& self.merkle_tree.wf()
        &&& self.current_size as nat == self.merkle_tree.leaves().len()
        &&& forall|b: u64| #[trigger]
            self.block_range@.contains_key(b) ==> {
                &&& self.last_block_number matches Some(l) && b <= l
                &&& self.block_range@[b].0 <= self.block_range@[b].1
                &&& self.block_range@[b].1 <= self.current_size
            }
    }

    /// An index with no block recorded.
    pub fn new() -> (r: Self)
        ensures
            r.wf(),
            r.leaves() == Seq::<Seq<u8>>::empty(),
            r.ranges() == Map::<u64, (u64, u64)>::empty(),
            r.last_block() == None::<u64>,
    {
        let r = MerkleInfoForExecute {
            last_block_number: None,
            current_size: 0,
            block_range: HashMap::new(),
            merkle_tree: MiniMerkleTree::new(),
        };
        r
    }

    /// Replays `blocks` in order: each block's transactions become leaves,
    /// and the block's leaf range is recorded.
    pub fn init(blocks: &Vec<(u64, Vec<[u8; 32]>)>) -> (r: Self)
        requires
            ascending_blocks(blocks@),
            replayed_leaves(blocks@).len() < usize::MAX / 2,
        ensures
            r.wf(),
            r.last_block() == (if blocks@.len() == 0 {
                None
            } else {
                Some(blocks@.last().0)
            }),
            r.leaves() == replayed_leaves(blocks@),
            r.ranges().dom() == block_ids(blocks@),
            forall|k: int|
                0 <= k < blocks@.len() ==> r.ranges()[#[trigger] blocks@[k].0] == (
                    replayed_leaves(blocks@.take(k)).len() as u64,
                    replayed_leaves(blocks@.take(k + 1)).len() as u64,
                ),
    {
        let mut info = MerkleInfoForExecute::new();
        let mut k: usize = 0;
        proof {
            assert(blocks@.take(0) =~= Seq::<(u64, Vec<[u8; 32]>)>::empty());
            assert(info.ranges().dom() =~= Set::<u64>::empty());
        }
        while k < blocks.len()
            invariant
                k <= blocks@.len(),
                ascending_blocks(blocks@),
                replayed_leaves(blocks@).len() < usize::MAX / 2,
                info.wf(),
                info.leaves() == replayed_leaves(blocks@.take(k as int)),
                k > 0 ==> info.last_block() == Some(blocks@[k - 1].0),
                k == 0 ==> info.last_block() == None::<u64>,
                info.ranges().dom() == block_ids(blocks@.take(k as int)),
                forall|j: int|
                    0 <= j < k ==> info.ranges()[#[trigger] blocks@[j].0] == (
                        replayed_leaves(blocks@.take(j)).len() as u64,
                        replayed_leaves(blocks@.take(j + 1)).len() as u64,
                    ),
            decreases blocks@.len() - k,
        {
            let ghost before = info;
            let txs = copy_hashes(&blocks[k].1);
            proof {
                lemma_replay_step(blocks@, k as int);
            }
            info.add_block_l1_txs(blocks[k].0, txs);
            proof {
                assert forall|j: int| 0 <= j < k + 1 implies info.ranges()[#[trigger] blocks@[j].0]
                    == (
                    replayed_leaves(blocks@.take(j)).len() as u64,
                    replayed_leaves(blocks@.take(j + 1)).len() as u64,
                ) by {
                    if j < k {
                        assert(blocks@[j].0 < blocks@[k as int].0);
                    }
                }
            }
            k = k + 1;
        }
        assert(blocks@.take(blocks@.len() as int) == blocks@);
        info
    }

    /// Records the transactions of `block_number`, which must be above every
    /// block recorded so far (any number when none is).
    pub fn add_block_l1_txs(&mut self, block_number: u64, l1_txs: Vec<[u8; 32]>)
        requires
            old(self).wf(),
            follows(old(self).last_block(), block_number),
            old(self).leaves().len() + l1_txs@.len() < usize::MAX / 2,
        ensures
            final(self).wf(),
            final(self).last_block() == Some(block_number),
            final(self).leaves() == old(self).leaves() + hash_views(l1_txs@),
            final(self).ranges() == old(self).ranges().insert(
                block_number,
                (old(self).leaves().len() as u64, final(self).leaves().len() as u64),
            ),
    {
        self.last_block_number = Some(block_number);
        let size_before = self.current_size;
        let mut i: usize = 0;
        while i < l1_txs.len()
            invariant
                i <= l1_txs@.len(),
                self.merkle_tree.wf(),
                self.last_block_number == Some(block_number),
                self.current_size == old(self).current_size,
                self.block_range@ == old(self).block_range@,
                old(self).wf(),
                old(self).leaves().len() + l1_txs@.len() < usize::MAX / 2,
                self.merkle_tree.leaves() == old(self).leaves() + hash_views(
                    l1_txs@.subrange(0, i as int),
                ),
            decreases l1_txs@.len() - i,
        {
            self.merkle_tree.push_hash(l1_txs[i]);
            i = i + 1;
            assert(hash_views(l1_txs@.subrange(0, i as int)) =~= hash_views(
                l1_txs@.subrange(0, i - 1),
            ).push(l1_txs@[i - 1]@));
        }
        assert(l1_txs@.subrange(0, l1_txs@.len() as int) == l1_txs@);
        self.current_size = size_before + l1_txs.len() as u64;
        self.block_range.insert(block_number, (size_before, self.current_size));
    }

    /// Tree root, and the full paths of the first and of the last leaf of
    /// `block_number`'s range. The block must be recorded with at least one
    /// transaction.
    pub fn get_merkle_path_for_l1_tx_in_block(&self, block_number: u64) -> (r: (
        [u8; 32],
        Vec<[u8; 32]>,
        Vec<[u8; 32]>,
    ))
        requires
            self.wf(),
            self.ranges().contains_key(block_number),
            self.ranges()[block_number].0 < self.ranges()[block_number].1,
        ensures
            ({
                let (start, end) = self.ranges()[block_number];
                &&& r.0@ == full_rebuild_root(self.leaves())
                &&& hash_views(r.1@) == full_path(self.leaves(), start as nat, self.tree_depth())
                &&& hash_views(r.2@) == full_path(
                    self.leaves(),
                    (end - 1) as nat,
                    self.tree_depth(),
                )
                &&& r.1@.len() == self.tree_depth()
                &&& r.2@.len() == self.tree_depth()
            }),
    {
        proof {
            self.merkle_tree.lemma_depth_is_minimal();
        }
        let range = self.block_range.get(&block_number).unwrap();
        let (start, end) = *range;
        let leaf_count = self.merkle_tree.len();
        assert(start < end <= leaf_count);
        let (root, left_opt) = self.merkle_tree.compute_merkle_root_and_path(
            start as usize,
            PathSide::FullPath,
        );
        let (_root, right_opt) = self.merkle_tree.compute_merkle_root_and_path(
            (end - 1) as usize,
            PathSide::FullPath,
        );
        let left = unwrap_full_path(&left_opt);
        let right = unwrap_full_path(&right_opt);
        proof {
            let lv = self.leaves();
            let d = self.tree_depth();
            assert forall|l: int| 0 <= l < left@.len() implies #[trigger] hash_views(
                left@,
            )[l] == full_path(lv, start as nat, d)[l] by {
                assert(path_entry_ok(
                    lv,
                    start as nat,
                    PathSide::FullPath,
                    l as nat,
                    left_opt@[l],
                ));
                assert(left@[l] == left_opt@[l]->0);
            }
            assert forall|l: int| 0 <= l < right@.len() implies #[trigger] hash_views(
                right@,
            )[l] == full_path(lv, (end - 1) as nat, d)[l] by {
                assert(path_entry_ok(
                    lv,
                    (end - 1) as nat,
                    PathSide::FullPath,
                    l as nat,
                    right_opt@[l],
                ));
                assert(right@[l] == right_opt@[l]->0);
            }
            assert(hash_views(left@) =~= full_path(
                self.leaves(),
                start as nat,
                self.tree_depth(),
            ));
            assert(hash_views(right@) =~= full_path(
                self.leaves(),
                (end - 1) as nat,
                self.tree_depth(),
            ));
        }
        (root, left, right)
    }
}

/// The left and the right path of a block with transactions both recombine,
/// with the block's first and last leaf, to the tree's root.
pub proof fn lemma_block_paths_recombine(info: &MerkleInfoForExecute, block_number: u64)
    requires
        info.wf(),
        info.ranges().contains_key(block_number),
        info.ranges()[block_number].0 < info.ranges()[block_number].1,
    ensures
        ({
            let (start, end) = info.ranges()[block_number];
            let leaves = info.leaves();
            let d = info.tree_depth();
            &&& climb(leaves[start as int], start as nat, full_path(leaves, start as nat, d)) == node(
                leaves,
                d,
                0,
            )
            &&& climb(
                leaves[end - 1],
                (end - 1) as nat,
                full_path(leaves, (end - 1) as nat, d),
            ) == node(leaves, d, 0)
        }),
{
    let (start, end) = info.ranges()[block_number];
    info.merkle_tree.lemma_depth_is_minimal();
    lemma_full_path_recombines_to_root(info.leaves(), start as nat, info.tree_depth());
    lemma_full_path_recombines_to_root(info.leaves(), (end - 1) as nat, info.tree_depth());
}

/// A copy of a list of hashes.
pub fn copy_hashes(v: &Vec<[u8; 32]>) -> (r: Vec<[u8; 32]>)
    ensures
        r@ == v@,
{
    let mut r: Vec<[u8; 32]> = Vec::new();
    let mut i: usize = 0;
    while i < v.len()
        invariant
            i <= v@.len(),
            r@ == v@.subrange(0, i as int),
        decreases v@.len() - i,
    {
        r.push(v[i]);
        i = i + 1;
        assert(r@ =~= v@.subrange(0, i as int));
    }
    assert(v@.subrange(0, v@.len() as int) == v@);
    r
}

fn unwrap_full_path(path: &Vec<Option<[u8; 32]>>) -> (r: Vec<[u8; 32]>)
    requires
        forall|l: int| 0 <= l < path@.len() ==> #[trigger] path@[l] is Some,
    ensures
        r@.len() == path@.len(),
        forall|l: int| 0 <= l < path@.len() ==> #[trigger] r@[l] == path@[l]->0,
{
    let mut r: Vec<[u8; 32]> = Vec::new();
    let mut i: usize = 0;
    while i < path.len()
        invariant
            i <= path@.len(),
            forall|l: int| 0 <= l < path@.len() ==> #[trigger] path@[l] is Some,
            r@.len() == i,
            forall|l: int| 0 <= l < i ==> #[trigger] r@[l] == path@[l]->0,
        decreases path@.len() - i,
    {
        match path[i] {
            Some(h) => r.push(h),
            None => r.push([0u8; 32]),
        }
        i = i + 1;
    }
    r
}

proof fn lemma_replay_step(blocks: Seq<(u64, Vec<[u8; 32]>)>, k: int)
    requires
        0 <= k < blocks.len(),
    ensures
        replayed_leaves(blocks.take(k + 1)) == replayed_leaves(blocks.take(k)) + hash_views(
            blocks[k].1@,
        ),
        block_ids(blocks.take(k + 1)) == block_ids(blocks.take(k)).insert(blocks[k].0),
        replayed_leaves(blocks.take(k + 1)).len() <= replayed_leaves(blocks).len(),
{
    assert(blocks.take(k + 1).drop_last() == blocks.take(k));
    lemma_replayed_monotone(blocks, k + 1, blocks.len() as int);
    assert(blocks.take(blocks.len() as int) == blocks);
}

proof fn lemma_replayed_prefix(blocks: Seq<(u64, Vec<[u8; 32]>)>, k: int)
    requires
        0 < k <= blocks.len(),
    ensures
        replayed_leaves(blocks.take(k)) == replayed_leaves(blocks.take(k - 1)) + hash_views(
            blocks[k - 1].1@,
        ),
{
    assert(blocks.take(k).drop_last() == blocks.take(k - 1));
}

proof fn lemma_replayed_monotone(blocks: Seq<(u64, Vec<[u8; 32]>)>, k: int, m: int)
    requires
        0 <= k <= m <= blocks.len(),
    ensures
        replayed_leaves(blocks.take(k)).len() <= replayed_leaves(blocks.take(m)).len(),
    decreases m - k,
{
    if k < m {
        lemma_replayed_prefix(blocks, m);
        lemma_replayed_monotone(blocks, k, m - 1);
    }
    if m == blocks.len() {
        assert(blocks.take(m) == blocks);
    }
}

} // verus!
