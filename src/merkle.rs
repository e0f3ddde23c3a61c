//! Append-only Merkle tree over 256-bit leaves, with root and inclusion-path
//! queries for any appended leaf.
use crate::hash::{
    compress, compress_spec, empty_leaf_hash, empty_leaf_spec, empty_subtree_hash, empty_subtree_spec,
};
use vstd::prelude::*;

verus! {

/// `2^n`.
pub open spec fn pow2(n: nat) -> nat
    decreases n,
{
    if n == 0 {
        1
    } else {
        2 * pow2((n - 1) as nat)
    }
}

/// Smallest depth whose tree holds `n` leaves.
pub open spec fn min_depth(n: nat) -> nat
    decreases n,
{
    if n <= 1 {
        0
    } else {
        min_depth(((n + 1) / 2) as nat) + 1
    }
}

/// Index of the ancestor, `k` levels up, of position `i`.
pub open spec fn shr(i: nat, k: nat) -> nat
    decreases k,
{
    if k == 0 {
        i
    } else {
        shr(i, (k - 1) as nat) / 2
    }
}

/// The other child of the parent of position `i`.
pub open spec fn sibling(i: nat) -> nat {
    if i % 2 == 0 {
        i + 1
    } else {
        (i - 1) as nat
    }
}

/// Node at position `i` of `level` in the full binary tree over `leaves`,
/// where every position past the last leaf holds the empty-leaf hash.
pub open spec fn node(leaves: Seq<Seq<u8>>, level: nat, i: nat) -> Seq<u8>
    decreases level,
{
    if level == 0 {
        if i < leaves.len() {
            leaves[i as int]
        } else {
            empty_leaf_spec()
        }
    } else {
        compress_spec(
            node(leaves, (level - 1) as nat, 2 * i),
            node(leaves, (level - 1) as nat, 2 * i + 1),
        )
    }
}

/// Root of the naive rebuild: the leaves padded with empty leaves to the next
/// power of two, then compressed pairwise level by level.
pub open spec fn full_rebuild_root(leaves: Seq<Seq<u8>>) -> Seq<u8> {
    node(leaves, min_depth(leaves.len()), 0)
}

/// Siblings, from the leaf level up, on the path of the leaf at `index` in a
/// tree of the given depth.
pub open spec fn full_path(leaves: Seq<Seq<u8>>, index: nat, depth: nat) -> Seq<Seq<u8>> {
    Seq::new(depth, |k: int| node(leaves, k as nat, sibling(shr(index, k as nat))))
}

/// Recombines a value at position `idx` with its siblings `path`, from the
/// bottom up, by pairwise compression.
pub open spec fn climb(cur: Seq<u8>, idx: nat, path: Seq<Seq<u8>>) -> Seq<u8>
    decreases path.len(),
{
    if path.len() == 0 {
        cur
    } else {
        let next = if idx % 2 == 0 {
            compress_spec(cur, path[0])
        } else {
            compress_spec(path[0], cur)
        };
        climb(next, idx / 2, path.drop_first())
    }
}

/// Which siblings an inclusion path leaves out.
#[derive(Clone, Copy, Debug, PartialEq, Eq, Structural)]
pub enum PathSide {
    /// Path to the first leaf of a range: no sibling where the node is a left child.
    LeftBoundary,
    /// Path to the last leaf of a range: no sibling where the node is a right child.
    RightBoundary,
    /// Every sibling.
    FullPath,
}

/// Whether the sibling at a node of index `idx` is left out of a path of the given side.
pub open spec fn omits_sibling(side: PathSide, idx: nat) -> bool {
    (side == PathSide::LeftBoundary && idx % 2 == 0) || (side == PathSide::RightBoundary && idx % 2
        == 1)
}

/// The path entry at `level` for the leaf at `index`.
pub open spec fn path_entry_ok(
    leaves: Seq<Seq<u8>>,
    index: nat,
    side: PathSide,
    level: nat,
    entry: Option<[u8; 32]>,
) -> bool {
    if omits_sibling(side, shr(index, level)) {
        entry is None
    } else {
        entry is Some && entry->0@ == node(leaves, level, sibling(shr(index, level)))
    }
}

pub open spec fn hash_views(hs: Seq<[u8; 32]>) -> Seq<Seq<u8>> {
    hs.map_values(|h: [u8; 32]| h@)
}

/// An append-only Merkle tree. All leaves are kept; the tree size is the
/// smallest power of two that holds them (at least one).
pub struct MiniMerkleTree {
    hashes: Vec<[u8; 32]>,
    binary_tree_size: usize,
    depth: usize,
}

pub proof fn lemma_pow2_positive(n: nat)
    ensures
        pow2(n) >= 1,
        pow2(n) > n,
    decreases n,
{
    if n > 0 {
        lemma_pow2_positive((n - 1) as nat);
    }
}

proof fn lemma_node_past_leaves(leaves: Seq<Seq<u8>>, level: nat, i: nat)
    requires
        i * pow2(level) >= leaves.len(),
    ensures
        node(leaves, level, i) == empty_subtree_spec(level),
    decreases level,
{
    if level == 0 {
        assert(pow2(0) == 1);
        assert(i * 1 == i);
    } else {
        let p = pow2((level - 1) as nat);
        assert(i * pow2(level) == (2 * i) * p) by (nonlinear_arith)
            requires
                pow2(level) == 2 * p,
        ;
        assert((2 * i + 1) * p >= (2 * i) * p) by (nonlinear_arith);
        lemma_node_past_leaves(leaves, (level - 1) as nat, 2 * i);
        lemma_node_past_leaves(leaves, (level - 1) as nat, 2 * i + 1);
    }
}

proof fn lemma_shr_step(i: nat, k: nat)
    ensures
        shr(i, k + 1) == shr(i / 2, k),
    decreases k,
{
    assert(shr(i, k + 1) == shr(i, k) / 2);
    if k > 0 {
        lemma_shr_step(i, (k - 1) as nat);
        assert(shr(i / 2, k) == shr(i / 2, (k - 1) as nat) / 2);
    } else {
        assert(shr(i, 0) == i);
        assert(shr(i / 2, 0) == i / 2);
    }
}

proof fn lemma_shr_small(i: nat, k: nat)
    requires
        i < pow2(k),
    ensures
        shr(i, k) == 0,
    decreases k,
{
    if k > 0 {
        lemma_shr_step(i, (k - 1) as nat);
        lemma_shr_small(i / 2, (k - 1) as nat);
    }
}

proof fn lemma_parent(leaves: Seq<Seq<u8>>, level: nat, i: nat)
    ensures
        node(leaves, level + 1, i / 2) == (if i % 2 == 0 {
            compress_spec(node(leaves, level, i), node(leaves, level, sibling(i)))
        } else {
            compress_spec(node(leaves, level, sibling(i)), node(leaves, level, i))
        }),
{
    assert(node(leaves, level + 1, i / 2) == compress_spec(
        node(leaves, level, 2 * (i / 2)),
        node(leaves, level, 2 * (i / 2) + 1),
    ));
}

proof fn lemma_climb(leaves: Seq<Seq<u8>>, level: nat, i: nat, path: Seq<Seq<u8>>)
    requires
        forall|k: int|
            0 <= k < path.len() ==> #[trigger] path[k] == node(
                leaves,
                level + k as nat,
                sibling(shr(i, k as nat)),
            ),
    ensures
        climb(node(leaves, level, i), i, path) == node(
            leaves,
            level + path.len(),
            shr(i, path.len()),
        ),
    decreases path.len(),
{
    if path.len() > 0 {
        lemma_parent(leaves, level, i);
        let rest = path.drop_first();
        assert forall|k: int| 0 <= k < rest.len() implies #[trigger] rest[k] == node(
            leaves,
            (level + 1) + k as nat,
            sibling(shr(i / 2, k as nat)),
        ) by {
            assert(rest[k] == path[k + 1]);
            lemma_shr_step(i, k as nat);
        }
        lemma_climb(leaves, level + 1, i / 2, rest);
        lemma_shr_step(i, (path.len() - 1) as nat);
    }
}

/// Recombining the leaf at `index` with its full sibling path, by repeated
/// pairwise compression, gives the root of any tree deep enough to hold it.
pub proof fn lemma_full_path_recombines_to_root(leaves: Seq<Seq<u8>>, index: nat, depth: nat)
    requires
        index < leaves.len(),
        leaves.len() <= pow2(depth),
    ensures
        climb(leaves[index as int], index, full_path(leaves, index, depth)) == node(
            leaves,
            depth,
            0,
        ),
{
    let path = full_path(leaves, index, depth);
    assert(node(leaves, 0, index) == leaves[index as int]);
    lemma_climb(leaves, 0, index, path);
    lemma_shr_small(index, depth);
}

impl MiniMerkleTree {
    /// The appended leaves, oldest first.
    pub closed spec fn leaves(&self) -> Seq<Seq<u8>> {
        hash_views(self.hashes@)
    }

    /// Depth of the tree: `2^tree_depth()` is its number of leaf slots.
    pub closed spec fn tree_depth(&self) -> nat {
        self.depth as nat
    }

    pub closed spec fn wf(&self) -> bool {
        &&& self.binary_tree_size as nat == pow2(self.depth as nat)
        &&& self.hashes@.len() <= self.binary_tree_size
        &&& (self.depth == 0 || self.hashes@.len() > pow2((self.depth - 1) as nat))
    }

    /// The tree depth is the smallest that holds every leaf.
    pub proof fn lemma_depth_is_minimal(&self)
        requires
            self.wf(),
        ensures
            self.tree_depth() == min_depth(self.leaves().len()),
            self.leaves().len() <= pow2(self.tree_depth()),
    {
        lemma_min_depth(self.hashes@.len() as nat, self.depth as nat);
    }

    pub fn new() -> (r: Self)
        ensures
            r.wf(),
            r.leaves() == Seq::<Seq<u8>>::empty(),
            r.tree_depth() == 0,
    {
        let r = MiniMerkleTree { hashes: Vec::new(), binary_tree_size: 1, depth: 0 };
        assert(r.leaves() =~= Seq::<Seq<u8>>::empty());
        r
    }

    /// Number of appended leaves.
    pub fn len(&self) -> (r: usize)
        ensures
            r == self.leaves().len(),
    {
        self.hashes.len()
    }

    /// Root of the tree: the naive rebuild over the leaves padded to the next
    /// power of two, after any sequence of appends.
    pub fn root(&self) -> (r: [u8; 32])
        requires
            self.wf(),
        ensures
            r@ == full_rebuild_root(self.leaves()),
            r@ == node(self.leaves(), self.tree_depth(), 0),
    {
        proof {
            self.lemma_depth_is_minimal();
        }
        if self.hashes.len() == 0 {
            assert(min_depth(0) == 0);
            empty_leaf_hash()
        } else {
            let (root, _path) = self.compute_merkle_root_and_path(0, PathSide::FullPath);
            root
        }
    }

    /// Appends a leaf, doubling the tree size when it is full.
    pub fn push_hash(&mut self, leaf_hash: [u8; 32])
        requires
            old(self).wf(),
            old(self).leaves().len() < usize::MAX / 2,
        ensures
            final(self).wf(),
            final(self).leaves() == old(self).leaves().push(leaf_hash@),
    {
        self.hashes.push(leaf_hash);
        if self.hashes.len() > self.binary_tree_size {
            proof {
                lemma_pow2_positive(self.depth as nat);
            }
            self.binary_tree_size = self.binary_tree_size * 2;
            self.depth = self.depth + 1;
        }
        assert(self.leaves() =~= old(self).leaves().push(leaf_hash@));
    }

    /// Root of the tree and the inclusion path of the leaf at `index`, from
    /// the leaf level up, with the siblings that `side` leaves out as `None`.
    pub fn compute_merkle_root_and_path(&self, index: usize, side: PathSide) -> (r: (
        [u8; 32],
        Vec<Option<[u8; 32]>>,
    ))
        requires
            self.wf(),
            index < self.leaves().len(),
        ensures
            r.0@ == node(self.leaves(), self.tree_depth(), 0),
            r.1@.len() == self.tree_depth(),
            forall|l: int|
                0 <= l < r.1@.len() ==> path_entry_ok(
                    self.leaves(),
                    index as nat,
                    side,
                    l as nat,
                    #[trigger] r.1@[l],
                ),
    {
        let ghost leaves = self.leaves();
        let ghost n = leaves.len();
        let depth = self.depth;
        let mut hashes: Vec<[u8; 32]> = Vec::new();
        let mut j: usize = 0;
        while j < self.hashes.len()
            invariant
                j <= self.hashes@.len(),
                leaves == hash_views(self.hashes@),
                hashes@.len() == j,
                forall|k: int| 0 <= k < j ==> #[trigger] hashes@[k] == self.hashes@[k],
            decreases self.hashes@.len() - j,
        {
            hashes.push(self.hashes[j]);
            j = j + 1;
        }
        let mut path: Vec<Option<[u8; 32]>> = Vec::new();
        let mut idx: usize = index;
        proof {
            assert(pow2(0) == 1);
            assert(hashes@.len() * 1 == hashes@.len());
            assert(path@.len() == 0);
        }
        let mut level: usize = 0;
        while level < depth
            invariant
                self.wf(),
                depth == self.depth,
                leaves == self.leaves(),
                n == leaves.len(),
                level <= depth,
                1 <= hashes@.len(),
                idx < hashes@.len(),
                hashes@.len() * pow2(level as nat) >= n,
                hashes@.len() <= pow2((depth - level) as nat),
                forall|k: int|
                    0 <= k < hashes@.len() ==> (#[trigger] hashes@[k])@ == node(
                        leaves,
                        level as nat,
                        k as nat,
                    ),
                idx == shr(index as nat, level as nat),
                path@.len() == level,
                forall|l: int|
                    0 <= l < level ==> path_entry_ok(
                        leaves,
                        index as nat,
                        side,
                        l as nat,
                        #[trigger] path@[l],
                    ),
            decreases depth - level,
        {
            let w = hashes.len();
            if w % 2 == 1 {
                let e = empty_subtree_hash(level);
                proof {
                    lemma_node_past_leaves(leaves, level as nat, w as nat);
                }
                hashes.push(e);
            }
            let sib: usize = if idx % 2 == 0 {
                idx + 1
            } else {
                idx - 1
            };
            let omit = match side {
                PathSide::LeftBoundary => idx % 2 == 0,
                PathSide::RightBoundary => idx % 2 == 1,
                PathSide::FullPath => false,
            };
            let entry = if omit {
                None
            } else {
                Some(hashes[sib])
            };
            path.push(entry);
            let half = hashes.len() / 2;
            let mut next: Vec<[u8; 32]> = Vec::new();
            let mut i: usize = 0;
            while i < half
                invariant
                    half * 2 == hashes@.len(),
                    hashes@.len() <= usize::MAX,
                    i <= half,
                    next@.len() == i,
                    forall|k: int|
                        0 <= k < hashes@.len() ==> (#[trigger] hashes@[k])@ == node(
                            leaves,
                            level as nat,
                            k as nat,
                        ),
                    forall|k: int|
                        0 <= k < i ==> (#[trigger] next@[k])@ == node(
                            leaves,
                            (level + 1) as nat,
                            k as nat,
                        ),
                decreases half - i,
            {
                let h = compress(&hashes[2 * i], &hashes[2 * i + 1]);
                assert(node(leaves, (level + 1) as nat, i as nat) == compress_spec(
                    node(leaves, level as nat, 2 * i as nat),
                    node(leaves, level as nat, 2 * i as nat + 1),
                ));
                next.push(h);
                i = i + 1;
            }
            proof {
                let p = pow2((depth - level - 1) as nat);
                assert(pow2((depth - level) as nat) == 2 * p);
                assert(half * pow2((level + 1) as nat) >= n) by (nonlinear_arith)
                    requires
                        half * 2 >= w,
                        w * pow2(level as nat) >= n,
                        pow2((level + 1) as nat) == 2 * pow2(level as nat),
                ;
            }
            hashes = next;
            idx = idx / 2;
            level = level + 1;
        }
        proof {
            assert(hashes@.len() == 1);
        }
        (hashes[0], path)
    }
}

proof fn lemma_min_depth(n: nat, d: nat)
    requires
        n <= pow2(d),
        d == 0 || n > pow2((d - 1) as nat),
    ensures
        d == min_depth(n),
    decreases d,
{
    lemma_pow2_positive(d);
    if d > 0 {
        lemma_pow2_positive((d - 1) as nat);
        let m = ((n + 1) / 2) as nat;
        assert(pow2(d) == 2 * pow2((d - 1) as nat));
        assert(min_depth(n) == min_depth(m) + 1);
        if d == 1 {
            assert(pow2(0) == 1);
            assert(n == 2);
            assert(min_depth(1) == 0);
        } else {
            assert(pow2((d - 1) as nat) == 2 * pow2((d - 2) as nat));
            lemma_min_depth(m, (d - 1) as nat);
        }
    } else {
        assert(pow2(0) == 1);
        assert(n <= 1);
    }
}

} // verus!
