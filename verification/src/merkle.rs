//! Merkle trees over words, hashed with the 2-to-1 merge of the hasher
//! chiplet. A tree stores its leaves; every node is the merge of its two
//! children. A sibling path authenticates a leaf against the root: folding
//! the leaf with the path's entries, left or right according to the bits
//! of the leaf index, recomputes the root. The lemmas here state that an
//! honestly extracted path folds back to the root, and how the root moves
//! when one leaf is replaced.
use vstd::prelude::*;
use vstd::arithmetic::power2::{lemma_pow2_adds, lemma_pow2_pos, lemma_pow2_strictly_increases, pow2};
use vstd::arithmetic::div_mod::{
    lemma_div_denominator, lemma_fundamental_div_mod_converse, lemma_mod_multiples_vanish,
    lemma_small_mod,
};
use crate::errors::AdviceSetError;
use crate::field::{all_valid, vals};
use crate::hasher::{merge, rp_merged, Word};

verus! {

/// The deepest tree the Merkle operations support.
pub const MAX_TREE_DEPTH: u32 = 63;

/// The canonical values of a sequence of words.
pub open spec fn words_vals(ws: Seq<Word>) -> Seq<Seq<int>> {
    ws.map_values(|w: Word| vals(w@))
}

/// The root of the subtree of the given depth whose leftmost leaf is at
/// `start`: a leaf for depth zero, else the merge of the two half-depth
/// subtree roots.
pub open spec fn subtree_root(leaves: Seq<Seq<int>>, start: int, depth: nat) -> Seq<int>
    decreases depth,
{
    if depth == 0 {
        leaves[start]
    } else {
        rp_merged(
            subtree_root(leaves, start, (depth - 1) as nat),
            subtree_root(leaves, start + pow2((depth - 1) as nat), (depth - 1) as nat),
        )
    }
}

/// The root computed by folding a node up a sibling path: at each step the
/// node is merged with the next path entry, standing left when the running
/// index is even and right when it is odd, and the index loses its lowest
/// bit.
pub open spec fn path_root(node: Seq<int>, index: int, path: Seq<Seq<int>>) -> Seq<int>
    decreases path.len(),
{
    if path.len() == 0 {
        node
    } else {
        let parent = if index % 2 == 0 {
            rp_merged(node, path[0])
        } else {
            rp_merged(path[0], node)
        };
        path_root(parent, index / 2, path.skip(1))
    }
}

/// The sibling path of the leaf at `index` inside the subtree of the given
/// depth at `start`: the path through the half containing the leaf,
/// followed by the root of the other half.
pub open spec fn sibling_path(leaves: Seq<Seq<int>>, start: int, depth: nat, index: int) -> Seq<
    Seq<int>,
>
    decreases depth,
{
    if depth == 0 {
        Seq::empty()
    } else {
        let half = pow2((depth - 1) as nat) as int;
        if index < half {
            sibling_path(leaves, start, (depth - 1) as nat, index).push(
                subtree_root(leaves, start + half, (depth - 1) as nat),
            )
        } else {
            sibling_path(leaves, start + half, (depth - 1) as nat, index - half).push(
                subtree_root(leaves, start, (depth - 1) as nat),
            )
        }
    }
}

/// A sibling path of a subtree of depth `d` has exactly `d` entries.
pub proof fn lemma_sibling_path_len(leaves: Seq<Seq<int>>, start: int, depth: nat, index: int)
    ensures
        sibling_path(leaves, start, depth, index).len() == depth,
    decreases depth,
{
    if depth > 0 {
        let half = pow2((depth - 1) as nat) as int;
        if index < half {
            lemma_sibling_path_len(leaves, start, (depth - 1) as nat, index);
        } else {
            lemma_sibling_path_len(leaves, start + half, (depth - 1) as nat, index - half);
        }
    }
}

/// Folding one more entry onto a path merges the folded value with that
/// entry, on the side given by the next bit of the index.
proof fn lemma_path_root_push(node: Seq<int>, index: int, path: Seq<Seq<int>>, entry: Seq<int>)
    requires
        index >= 0,
    ensures
        path_root(node, index, path.push(entry)) == if (index / pow2(path.len()) as int) % 2
            == 0 {
            rp_merged(path_root(node, index, path), entry)
        } else {
            rp_merged(entry, path_root(node, index, path))
        },
    decreases path.len(),
{
    if path.len() == 0 {
        assert(path.push(entry) =~= seq![entry]);
        assert(seq![entry].skip(1) =~= Seq::<Seq<int>>::empty());
        assert(pow2(0) == 1) by {
            vstd::arithmetic::power2::lemma2_to64();
        }
        vstd::arithmetic::div_mod::lemma_div_basics(index);
        assert(path_root(node, index, path) == node);
        assert((index / pow2(path.len()) as int) % 2 == index % 2);
        let parent = if index % 2 == 0 {
            rp_merged(node, entry)
        } else {
            rp_merged(entry, node)
        };
        assert(path_root(parent, index / 2, Seq::<Seq<int>>::empty()) == parent);
        assert(path.push(entry)[0] == entry);
        assert(path_root(node, index, path.push(entry)) == path_root(
            parent,
            index / 2,
            path.push(entry).skip(1),
        ));
    } else {
        let parent = if index % 2 == 0 {
            rp_merged(node, path[0])
        } else {
            rp_merged(path[0], node)
        };
        assert(path.push(entry).skip(1) =~= path.skip(1).push(entry));
        assert(path.push(entry)[0] == path[0]);
        assert(path_root(node, index, path.push(entry)) == path_root(
            parent,
            index / 2,
            path.skip(1).push(entry),
        ));
        lemma_path_root_push(parent, index / 2, path.skip(1), entry);
        // index / 2 / 2^(len-1) == index / 2^len
        let rest = pow2((path.len() - 1) as nat) as int;
        lemma_pow2_pos((path.len() - 1) as nat);
        lemma_div_denominator(index, 2, rest);
        lemma_pow2_adds(1, (path.len() - 1) as nat);
        assert(pow2(1) == 2) by {
            vstd::arithmetic::power2::lemma2_to64();
        }
        assert(index / 2 / rest == index / (2 * rest));
        assert(path_root(node, index, path) == path_root(parent, index / 2, path.skip(1)));
        assert(pow2(path.len()) as int == 2 * rest);
        assert(index / pow2(path.len()) as int == index / 2 / rest);
        assert((index / pow2(path.len()) as int) % 2 == ((index / 2) / pow2(
            path.skip(1).len(),
        ) as int) % 2);
        assert(path_root(node, index, path.push(entry)) == if (index / pow2(
            path.len(),
        ) as int) % 2 == 0 {
            rp_merged(path_root(node, index, path), entry)
        } else {
            rp_merged(entry, path_root(node, index, path))
        });
    }
}

/// Folding a node up a path looks only at the lowest `path.len()` bits of
/// the index.
proof fn lemma_path_root_mod(node: Seq<int>, i1: int, i2: int, path: Seq<Seq<int>>)
    requires
        i1 >= 0,
        i2 >= 0,
        i1 % pow2(path.len()) as int == i2 % pow2(path.len()) as int,
    ensures
        path_root(node, i1, path) == path_root(node, i2, path),
    decreases path.len(),
{
    if path.len() > 0 {
        let m = pow2((path.len() - 1) as nat) as int;
        lemma_pow2_pos((path.len() - 1) as nat);
        lemma_pow2_adds(1, (path.len() - 1) as nat);
        assert(pow2(1) == 2) by {
            vstd::arithmetic::power2::lemma2_to64();
        }
        // Break each index into its low bit and the rest, modulo 2^(len-1).
        assert forall|i: int| i >= 0 implies #[trigger] (i % (2 * m)) == 2 * ((i / 2) % m) + i
            % 2 by {
            lemma_mod_breakdown_local(i, m);
        }
        assert(i1 % 2 == i2 % 2);
        assert((i1 / 2) % m == (i2 / 2) % m);
        let parent = if i1 % 2 == 0 {
            rp_merged(node, path[0])
        } else {
            rp_merged(path[0], node)
        };
        lemma_path_root_mod(parent, i1 / 2, i2 / 2, path.skip(1));
    }
}

/// For a non-negative `i` and positive `m`: `i % 2m == 2 * ((i/2) % m) + i % 2`.
proof fn lemma_mod_breakdown_local(i: int, m: int)
    requires
        i >= 0,
        m > 0,
    ensures
        i % (2 * m) == 2 * ((i / 2) % m) + i % 2,
{
    let q = (i / 2) / m;
    let r = (i / 2) % m;
    vstd::arithmetic::div_mod::lemma_fundamental_div_mod(i, 2);
    vstd::arithmetic::div_mod::lemma_fundamental_div_mod(i / 2, m);
    vstd::arithmetic::div_mod::lemma_mod_bound(i / 2, m);
    vstd::arithmetic::div_mod::lemma_mod_bound(i, 2);
    vstd::arithmetic::div_mod::lemma_div_pos_is_pos(i, 2);
    // i == (2m)q + (2r + i%2), with the remainder in range.
    assert(i == 2 * (m * q + r) + i % 2);
    assert(i == (2 * m) * q + (2 * r + i % 2)) by (nonlinear_arith)
        requires
            i == 2 * (m * q + r) + i % 2,
    ;
    lemma_fundamental_div_mod_converse(i, 2 * m, q, 2 * r + i % 2);
}

/// A subtree root reads only the leaves under the subtree: two leaf
/// sequences that agree on that range give the same root.
proof fn lemma_subtree_root_frame(
    l1: Seq<Seq<int>>,
    l2: Seq<Seq<int>>,
    start: int,
    depth: nat,
)
    requires
        0 <= start,
        start + pow2(depth) <= l1.len(),
        start + pow2(depth) <= l2.len(),
        l1.subrange(start, start + pow2(depth)) == l2.subrange(start, start + pow2(depth)),
    ensures
        subtree_root(l1, start, depth) == subtree_root(l2, start, depth),
    decreases depth,
{
    lemma_pow2_pos(depth);
    if depth == 0 {
        assert(pow2(0) == 1) by {
            vstd::arithmetic::power2::lemma2_to64();
        }
        assert(l1[start] == l1.subrange(start, start + 1)[0]);
    } else {
        lemma_pow2_adds(1, (depth - 1) as nat);
        assert(pow2(1) == 2) by {
            vstd::arithmetic::power2::lemma2_to64();
        }
        let half = pow2((depth - 1) as nat) as int;
        let whole = pow2(depth) as int;
        assert(l1.subrange(start, start + half) =~= l2.subrange(start, start + half)) by {
            assert forall|j: int| 0 <= j < half implies #[trigger] l1.subrange(
                start,
                start + half,
            )[j] == l2.subrange(start, start + half)[j] by {
                assert(l1.subrange(start, start + half)[j] == l1.subrange(start, start + whole)[j]);
                assert(l2.subrange(start, start + half)[j] == l2.subrange(start, start + whole)[j]);
            }
        }
        assert(l1.subrange(start + half, start + half + half) =~= l2.subrange(
            start + half,
            start + half + half,
        )) by {
            assert forall|j: int| 0 <= j < half implies #[trigger] l1.subrange(
                start + half,
                start + half + half,
            )[j] == l2.subrange(start + half, start + half + half)[j] by {
                assert(l1.subrange(start + half, start + half + half)[j] == l1.subrange(
                    start,
                    start + whole,
                )[half + j]);
                assert(l2.subrange(start + half, start + half + half)[j] == l2.subrange(
                    start,
                    start + whole,
                )[half + j]);
            }
        }
        lemma_subtree_root_frame(l1, l2, start, (depth - 1) as nat);
        lemma_subtree_root_frame(l1, l2, start + half, (depth - 1) as nat);
    }
}

/// Replacing the leaf at `index` moves the subtree root to exactly the
/// fold of the new value up the old sibling path; the sibling path itself
/// does not see the replaced leaf, so it is unchanged.
pub proof fn lemma_update_subtree_root(
    leaves: Seq<Seq<int>>,
    start: int,
    depth: nat,
    index: int,
    value: Seq<int>,
)
    requires
        0 <= index < pow2(depth),
        0 <= start,
        start + pow2(depth) <= leaves.len(),
    ensures
        sibling_path(leaves.update(start + index, value), start, depth, index) == sibling_path(
            leaves,
            start,
            depth,
            index,
        ),
        subtree_root(leaves.update(start + index, value), start, depth) == path_root(
            value,
            index,
            sibling_path(leaves, start, depth, index),
        ),
    decreases depth,
{
    let updated = leaves.update(start + index, value);
    lemma_pow2_pos(depth);
    if depth == 0 {
        assert(pow2(0) == 1) by {
            vstd::arithmetic::power2::lemma2_to64();
        }
        assert(index == 0);
        assert(subtree_root(updated, start, 0) == updated[start]);
    } else {
        let half = pow2((depth - 1) as nat) as int;
        lemma_pow2_pos((depth - 1) as nat);
        lemma_pow2_adds(1, (depth - 1) as nat);
        assert(pow2(1) == 2) by {
            vstd::arithmetic::power2::lemma2_to64();
        }
        lemma_sibling_path_len(leaves, start, depth, index);
        if index < half {
            lemma_update_subtree_root(leaves, start, (depth - 1) as nat, index, value);
            let sub = sibling_path(leaves, start, (depth - 1) as nat, index);
            lemma_sibling_path_len(leaves, start, (depth - 1) as nat, index);
            // The right half does not hold the replaced leaf.
            assert(updated.subrange(start + half, start + half + half) =~= leaves.subrange(
                start + half,
                start + half + half,
            ));
            lemma_subtree_root_frame(updated, leaves, start + half, (depth - 1) as nat);
            let entry = subtree_root(leaves, start + half, (depth - 1) as nat);
            lemma_path_root_push(value, index, sub, entry);
            assert(index / half == 0) by {
                lemma_small_div_local(index, half);
            }
            assert(sibling_path(leaves, start, depth, index) == sub.push(entry));
            assert(sibling_path(updated, start, depth, index) == sibling_path(
                updated,
                start,
                (depth - 1) as nat,
                index,
            ).push(subtree_root(updated, start + half, (depth - 1) as nat)));
            assert(subtree_root(updated, start, depth) == rp_merged(
                subtree_root(updated, start, (depth - 1) as nat),
                subtree_root(updated, start + half, (depth - 1) as nat),
            ));
            assert(subtree_root(updated, start, (depth - 1) as nat) == path_root(
                value,
                index,
                sub,
            ));
            assert(subtree_root(updated, start + half, (depth - 1) as nat) == entry);
            assert((index / pow2(sub.len()) as int) % 2 == 0);
            assert(path_root(value, index, sub.push(entry)) == rp_merged(
                path_root(value, index, sub),
                entry,
            ));
        } else {
            let sub_index = index - half;
            lemma_update_subtree_root(
                leaves,
                start + half,
                (depth - 1) as nat,
                sub_index,
                value,
            );
            let sub = sibling_path(leaves, start + half, (depth - 1) as nat, sub_index);
            lemma_sibling_path_len(leaves, start + half, (depth - 1) as nat, sub_index);
            assert(updated.subrange(start, start + half) =~= leaves.subrange(
                start,
                start + half,
            ));
            lemma_subtree_root_frame(updated, leaves, start, (depth - 1) as nat);
            let entry = subtree_root(leaves, start, (depth - 1) as nat);
            // Folding uses only the low bits, so the in-subtree index works.
            lemma_mod_multiples_vanish(1, sub_index, half);
            lemma_small_mod(sub_index as nat, half as nat);
            lemma_path_root_mod(value, index, sub_index, sub);
            lemma_path_root_push(value, index, sub, entry);
            assert(index / half == 1) by {
                lemma_div_one_local(index, half);
            }
            assert(updated == leaves.update(start + half + sub_index, value));
            assert(sibling_path(leaves, start, depth, index) == sub.push(entry));
            assert(sibling_path(updated, start, depth, index) == sibling_path(
                updated,
                start + half,
                (depth - 1) as nat,
                sub_index,
            ).push(subtree_root(updated, start, (depth - 1) as nat)));
            assert(subtree_root(updated, start, depth) == rp_merged(
                subtree_root(updated, start, (depth - 1) as nat),
                subtree_root(updated, start + half, (depth - 1) as nat),
            ));
            assert(subtree_root(updated, start + half, (depth - 1) as nat) == path_root(
                value,
                sub_index,
                sub,
            ));
            assert(subtree_root(updated, start, (depth - 1) as nat) == entry);
            assert(path_root(value, index, sub) == path_root(value, sub_index, sub));
            assert((index / pow2(sub.len()) as int) % 2 == 1);
            assert(path_root(value, index, sub.push(entry)) == rp_merged(
                entry,
                path_root(value, index, sub),
            ));
        }
    }
}

proof fn lemma_small_div_local(i: int, d: int)
    requires
        0 <= i < d,
    ensures
        i / d == 0,
{
    vstd::arithmetic::div_mod::lemma_basic_div(i, d);
}

proof fn lemma_div_one_local(i: int, d: int)
    requires
        0 < d,
        d <= i < 2 * d,
    ensures
        i / d == 1,
{
    lemma_fundamental_div_mod_converse(i, d, 1, i - d);
}

/// The honest sibling path of a leaf folds back to the root of its
/// subtree: extracting the path and recomputing the root from the leaf
/// authenticates exactly the committed root.
pub proof fn lemma_sibling_path_folds(
    leaves: Seq<Seq<int>>,
    start: int,
    depth: nat,
    index: int,
)
    requires
        0 <= index < pow2(depth),
        0 <= start,
        start + pow2(depth) <= leaves.len(),
    ensures
        path_root(leaves[start + index], index, sibling_path(leaves, start, depth, index))
            == subtree_root(leaves, start, depth),
{
    let value = leaves[start + index];
    lemma_update_subtree_root(leaves, start, depth, index, value);
    assert(leaves.update(start + index, value) =~= leaves);
}

/// The boundary case of the authentication protocol: at depth zero the
/// tree is a single leaf, the sibling path is empty, and folding any node
/// up the empty path returns the node itself, so the root is the leaf.
pub proof fn lemma_depth_zero_root(leaves: Seq<Seq<int>>, start: int, node: Seq<int>, index: int)
    requires
        0 <= start < leaves.len(),
    ensures
        subtree_root(leaves, start, 0) == leaves[start],
        sibling_path(leaves, start, 0, index) == Seq::<Seq<int>>::empty(),
        path_root(node, index, Seq::<Seq<int>>::empty()) == node,
{
}

// MERKLE TREE
// ================================================================================================

/// A fully materialized Merkle tree: a power-of-two number of word leaves,
/// with every inner node the merge of its children.
#[derive(Clone, Debug)]
pub struct MerkleTree {
    leaves: Vec<Word>,
    depth: u32,
}

impl MerkleTree {
    /// A well-formed tree: the leaf count is two to the depth, and every
    /// leaf is made of canonical field elements.
    pub closed spec fn wf(&self) -> bool {
        &&& self.leaves@.len() == pow2(self.depth as nat)
        &&& self.depth <= MAX_TREE_DEPTH
        &&& forall|i: int| 0 <= i < self.leaves@.len() ==> all_valid(#[trigger] self.leaves@[i]@)
    }

    /// The values of the tree's leaves.
    pub closed spec fn leaves_vals(&self) -> Seq<Seq<int>> {
        words_vals(self.leaves@)
    }

    /// The value of the tree's root.
    pub closed spec fn root_val(&self) -> Seq<int> {
        subtree_root(self.leaves_vals(), 0, self.depth as nat)
    }

    /// The tree's depth as a specification value.
    pub closed spec fn depth_val(&self) -> nat {
        self.depth as nat
    }

    /// Builds a tree from the given leaves. Returns `DepthTooSmall` when no
    /// leaves are given, and `NumLeavesNotPowerOfTwo` when the leaf count
    /// is not a power of two; succeeds on every other input.
    pub fn new(leaves: Vec<Word>) -> (r: Result<MerkleTree, AdviceSetError>)
        requires
            forall|i: int| 0 <= i < leaves@.len() ==> all_valid(#[trigger] leaves@[i]@),
        ensures
            match r {
                Ok(t) => t.wf() && t.leaves_vals() == words_vals(leaves@) && leaves@.len() == pow2(
                    t.depth_val(),
                ),
                Err(e) => match e {
                    AdviceSetError::DepthTooSmall => leaves@.len() == 0,
                    AdviceSetError::NumLeavesNotPowerOfTwo(n) => n == leaves@.len() && leaves@.len()
                        > 0 && !vstd::arithmetic::power2::is_pow2_exists(leaves@.len() as int),
                    _ => false,
                },
            },
            r is Ok <==> leaves@.len() > 0 && vstd::arithmetic::power2::is_pow2_exists(
                leaves@.len() as int,
            ),
    {
        if leaves.len() == 0 {
            return Err(AdviceSetError::DepthTooSmall);
        }
        let total = leaves.len();
        let mut n = total;
        let mut depth: u32 = 0;
        proof {
            assert(pow2(0) == 1) by {
                vstd::arithmetic::power2::lemma2_to64();
            }
        }
        while n > 1
            invariant
                1 <= n <= total,
                total == leaves@.len(),
                total as int == n as int * pow2(depth as nat),
                depth <= MAX_TREE_DEPTH,
            decreases n,
        {
            if n % 2 != 0 {
                proof {
                    lemma_odd_factor_not_pow2(total as int, n as int, depth as nat);
                }
                return Err(AdviceSetError::NumLeavesNotPowerOfTwo(total));
            }
            proof {
                lemma_pow2_adds(1, depth as nat);
                assert(pow2(1) == 2) by {
                    vstd::arithmetic::power2::lemma2_to64();
                }
                assert(total as int == (n as int / 2) * pow2((depth + 1) as nat)) by (nonlinear_arith)
                    requires
                        total as int == n as int * pow2(depth as nat),
                        n % 2 == 0,
                        n > 0,
                        pow2((depth + 1) as nat) == 2 * pow2(depth as nat),
                ;
                // The depth stays below 64 because 2^(depth+1) <= total.
                lemma_pow2_pos((depth + 1) as nat);
                assert(pow2((depth + 1) as nat) <= total as int) by (nonlinear_arith)
                    requires
                        total as int == (n as int / 2) * pow2((depth + 1) as nat),
                        n as int / 2 >= 1,
                        pow2((depth + 1) as nat) > 0,
                ;
                if depth + 1 > MAX_TREE_DEPTH {
                    lemma_pow2_strictly_increases(63, (depth + 1) as nat);
                    assert(pow2(63) == 0x8000000000000000) by {
                        vstd::arithmetic::power2::lemma2_to64_rest();
                    }
                }
            }
            n = n / 2;
            depth = depth + 1;
        }
        proof {
            assert(total as int == pow2(depth as nat));
            assert(vstd::arithmetic::power2::is_pow2_exists(total as int)) by {
                vstd::arithmetic::power2::lemma_pow2(depth as nat);
                assert(vstd::arithmetic::power::pow(2, depth as nat) == total as int);
            }
        }
        Ok(MerkleTree { leaves, depth })
    }

    /// The depth of the tree.
    pub fn depth(&self) -> (r: u32)
        ensures
            r as nat == self.depth_val(),
    {
        self.depth
    }

    /// The root of the tree.
    pub fn root(&self) -> (r: Word)
        requires
            self.wf(),
        ensures
            all_valid(r@),
            vals(r@) == self.root_val(),
    {
        root_range(&self.leaves, 0, self.depth)
    }

    /// The value of the node at the given depth and index: the root of the
    /// subtree it commits. Fails when the depth exceeds the tree's depth or
    /// the index is out of range for the depth.
    pub fn get_node(&self, depth: u32, index: u64) -> (r: Result<Word, AdviceSetError>)
        requires
            self.wf(),
        ensures
            match r {
                Ok(w) => all_valid(w@) && depth <= self.depth_val() && index < pow2(depth as nat)
                    && vals(w@) == subtree_root(
                    self.leaves_vals(),
                    index as int * pow2((self.depth_val() - depth as nat) as nat) as int,
                    (self.depth_val() - depth as nat) as nat,
                ),
                Err(AdviceSetError::InvalidDepth(td, d)) => td as nat == self.depth_val() && d
                    == depth && depth > self.depth_val(),
                Err(AdviceSetError::InvalidIndex(d, i)) => d == depth && i == index && depth
                    <= self.depth_val() && index >= pow2(depth as nat),
                Err(_) => false,
            },
            r is Ok <==> depth <= self.depth_val() && index < pow2(depth as nat),
    {
        if depth > self.depth {
            return Err(AdviceSetError::InvalidDepth(self.depth, depth));
        }
        proof {
            assert(self.leaves.len() == self.leaves@.len());
            lemma_pow2_le(depth as nat, self.depth as nat);
        }
        let width = pow2_usize(depth);
        if index >= width as u64 {
            return Err(AdviceSetError::InvalidIndex(depth, index));
        }
        let rest = self.depth - depth;
        proof {
            assert(self.leaves.len() == self.leaves@.len());
            lemma_pow2_le(rest as nat, self.depth as nat);
        }
        let span = pow2_usize(rest);
        proof {
            lemma_pow2_adds(depth as nat, rest as nat);
            assert((index as int + 1) * pow2(rest as nat) <= pow2(self.depth as nat)) by (nonlinear_arith)
                requires
                    index as int + 1 <= pow2(depth as nat),
                    pow2(depth as nat) * pow2(rest as nat) == pow2(self.depth as nat),
                    pow2(rest as nat) > 0,
            ;
            assert(index as int * pow2(rest as nat) + pow2(rest as nat) == (index as int + 1)
                * pow2(rest as nat)) by (nonlinear_arith);
            lemma_pow2_pos(rest as nat);
            assert(index as int * pow2(rest as nat) >= 0) by (nonlinear_arith)
                requires
                    index as int >= 0,
                    pow2(rest as nat) > 0,
            ;
        }
        let start = (index as usize) * span;
        Ok(root_range(&self.leaves, start, rest))
    }

    /// The sibling path of the leaf at the given index, ordered from the
    /// leaf's own sibling up to the child of the root. The depth must equal
    /// the tree's depth and the index must be in range.
    pub fn get_path(&self, depth: u32, index: u64) -> (r: Result<Vec<Word>, AdviceSetError>)
        requires
            self.wf(),
        ensures
            match r {
                Ok(path) => depth as nat == self.depth_val() && index < pow2(depth as nat)
                    && words_vals(path@) == sibling_path(
                    self.leaves_vals(),
                    0,
                    self.depth_val(),
                    index as int,
                ) && path@.len() == self.depth_val() && forall|i: int|
                    0 <= i < path@.len() ==> all_valid(#[trigger] path@[i]@),
                Err(AdviceSetError::InvalidDepth(td, d)) => td as nat == self.depth_val() && d
                    == depth && depth as nat != self.depth_val(),
                Err(AdviceSetError::InvalidIndex(d, i)) => d == depth && i == index && depth as nat
                    == self.depth_val() && index >= pow2(depth as nat),
                Err(_) => false,
            },
            r is Ok <==> depth as nat == self.depth_val() && index < pow2(depth as nat),
    {
        if depth != self.depth {
            return Err(AdviceSetError::InvalidDepth(self.depth, depth));
        }
        if index >= self.leaves.len() as u64 {
            return Err(AdviceSetError::InvalidIndex(depth, index));
        }
        let mut path: Vec<Word> = Vec::new();
        let mut level: u32 = 0;
        proof {
            assert(pow2(0) == 1) by {
                vstd::arithmetic::power2::lemma2_to64();
            }
            lemma_sibling_path_len(self.leaves_vals(), 0, self.depth_val(), index as int);
        }
        while level < self.depth
            invariant
                self.wf(),
                level <= self.depth,
                index < pow2(self.depth as nat),
                path@.len() == level,
                words_vals(path@) == sibling_path_prefix(
                    self.leaves_vals(),
                    self.depth_val(),
                    index as int,
                    level as nat,
                ),
                forall|i: int| 0 <= i < path@.len() ==> all_valid(#[trigger] path@[i]@),
            decreases self.depth - level,
        {
            proof {
                assert(self.leaves.len() == self.leaves@.len());
                lemma_pow2_le(level as nat, self.depth as nat);
            }
            let span = pow2_usize(level);
            let ghost bound = pow2((self.depth - level) as nat) as int;
            proof {
                lemma_pow2_adds(level as nat, (self.depth - level) as nat);
                lemma_pow2_pos((self.depth - level) as nat);
                lemma_pow2_pos(level as nat);
                lemma_div_bound_local(index as int, pow2(level as nat) as int, bound);
                // The slot count at this level is even, because the level is
                // below the tree's depth.
                lemma_pow2_adds(1, (self.depth - level - 1) as nat);
                assert(pow2(1) == 2) by {
                    vstd::arithmetic::power2::lemma2_to64();
                }
            }
            let slot = index / span as u64;
            let sibling_slot = if slot % 2 == 0 {
                slot + 1
            } else {
                slot - 1
            };
            proof {
                assert(bound % 2 == 0);
                assert(sibling_slot as int + 1 <= bound);
                assert((sibling_slot as int + 1) * pow2(level as nat) <= pow2(
                    self.depth as nat,
                )) by (nonlinear_arith)
                    requires
                        sibling_slot as int + 1 <= bound,
                        pow2(level as nat) * bound == pow2(self.depth as nat),
                        pow2(level as nat) > 0,
                        bound > 0,
                ;
                assert(sibling_slot as int * pow2(level as nat) + pow2(level as nat) == (
                sibling_slot as int + 1) * pow2(level as nat)) by (nonlinear_arith);
                assert(sibling_slot as int * pow2(level as nat) >= 0) by (nonlinear_arith)
                    requires
                        sibling_slot as int >= 0,
                        pow2(level as nat) > 0,
                ;
                assert(sibling_slot as int <= sibling_slot as int * pow2(level as nat))
                    by (nonlinear_arith)
                    requires
                        sibling_slot as int >= 0,
                        pow2(level as nat) >= 1,
                ;
            }
            let sib_start = (sibling_slot as usize) * span;
            let sibling = root_range(&self.leaves, sib_start, level);
            path.push(sibling);
            proof {
                lemma_sibling_path_prefix_step(
                    self.leaves_vals(),
                    self.depth_val(),
                    index as int,
                    level as nat,
                );
                assert(words_vals(path@) =~= sibling_path_prefix(
                    self.leaves_vals(),
                    self.depth_val(),
                    index as int,
                    (level + 1) as nat,
                ));
            }
            level = level + 1;
        }
        proof {
            lemma_sibling_path_prefix_full(
                self.leaves_vals(),
                self.depth_val(),
                index as int,
            );
        }
        Ok(path)
    }

    /// The leaf at the given index at the tree's own depth.
    pub fn get_leaf(&self, index: u64) -> (r: Result<Word, AdviceSetError>)
        requires
            self.wf(),
        ensures
            match r {
                Ok(w) => index < pow2(self.depth_val()) && all_valid(w@) && vals(w@)
                    == self.leaves_vals()[index as int],
                Err(AdviceSetError::InvalidIndex(d, i)) => d as nat == self.depth_val() && i
                    == index && index >= pow2(self.depth_val()),
                Err(_) => false,
            },
            r is Ok <==> index < pow2(self.depth_val()),
    {
        if index >= self.leaves.len() as u64 {
            return Err(AdviceSetError::InvalidIndex(self.depth, index));
        }
        Ok(self.leaves[index as usize])
    }

    /// Replaces the leaf at the given index. Fails exactly when the index
    /// is out of range; on success the tree commits the same leaves with
    /// the one replacement.
    pub fn update_leaf(&mut self, index: u64, value: Word) -> (r: Result<(), AdviceSetError>)
        requires
            old(self).wf(),
            all_valid(value@),
        ensures
            match r {
                Ok(()) => index < pow2(old(self).depth_val()) && final(self).wf()
                    && final(self).depth_val() == old(self).depth_val()
                    && final(self).leaves_vals()
                        == old(self).leaves_vals().update(index as int, vals(value@)),
                Err(AdviceSetError::InvalidIndex(d, i)) => d as nat == old(self).depth_val() && i
                    == index && index >= pow2(old(self).depth_val()) && *final(self) == *old(self),
                Err(_) => false,
            },
            r is Ok <==> index < pow2(old(self).depth_val()),
    {
        if index >= self.leaves.len() as u64 {
            return Err(AdviceSetError::InvalidIndex(self.depth, index));
        }
        self.leaves.set(index as usize, value);
        proof {
            assert(self.leaves_vals() =~= old(self).leaves_vals().update(
                index as int,
                vals(value@),
            ));
        }
        Ok(())
    }

    /// A copy of this tree with the leaf at the given index replaced.
    /// Fails exactly when the index is out of range.
    pub fn updated(&self, index: u64, value: Word) -> (r: Result<MerkleTree, AdviceSetError>)
        requires
            self.wf(),
            all_valid(value@),
        ensures
            match r {
                Ok(t) => index < pow2(self.depth_val()) && t.wf() && t.depth_val()
                    == self.depth_val() && t.leaves_vals() == self.leaves_vals().update(
                    index as int,
                    vals(value@),
                ),
                Err(AdviceSetError::InvalidIndex(d, i)) => d as nat == self.depth_val() && i
                    == index && index >= pow2(self.depth_val()),
                Err(_) => false,
            },
            r is Ok <==> index < pow2(self.depth_val()),
    {
        if index >= self.leaves.len() as u64 {
            return Err(AdviceSetError::InvalidIndex(self.depth, index));
        }
        let mut leaves: Vec<Word> = Vec::new();
        let n = self.leaves.len();
        let mut k: usize = 0;
        while k < n
            invariant
                k <= n,
                n == self.leaves@.len(),
                leaves@ == self.leaves@.take(k as int),
            decreases n - k,
        {
            leaves.push(self.leaves[k]);
            k = k + 1;
            proof {
                assert(leaves@ =~= self.leaves@.take(k as int));
            }
        }
        proof {
            assert(self.leaves@.take(n as int) =~= self.leaves@);
        }
        leaves.set(index as usize, value);
        let t = MerkleTree { leaves, depth: self.depth };
        proof {
            assert(t.leaves_vals() =~= self.leaves_vals().update(index as int, vals(value@)));
        }
        Ok(t)
    }
}

/// Computes the root a node folds to along a sibling path: at each step
/// the running word is merged with the next path entry, standing left
/// when the running index is even and right when it is odd.
pub fn compute_path_root(node: &Word, index: u64, path: &Vec<Word>) -> (r: Word)
    requires
        all_valid(node@),
        forall|i: int| 0 <= i < path@.len() ==> all_valid(#[trigger] path@[i]@),
    ensures
        all_valid(r@),
        vals(r@) == path_root(vals(node@), index as int, words_vals(path@)),
{
    let mut cur: Word = *node;
    let mut idx: u64 = index;
    let mut j: usize = 0;
    let n = path.len();
    proof {
        assert(words_vals(path@).skip(0) =~= words_vals(path@));
    }
    while j < n
        invariant
            j <= n,
            n == path@.len(),
            all_valid(cur@),
            forall|i: int| 0 <= i < path@.len() ==> all_valid(#[trigger] path@[i]@),
            path_root(vals(node@), index as int, words_vals(path@)) == path_root(
                vals(cur@),
                idx as int,
                words_vals(path@).skip(j as int),
            ),
        decreases n - j,
    {
        let ghost rest = words_vals(path@).skip(j as int);
        let entry = path[j];
        proof {
            assert(rest[0] == words_vals(path@)[j as int]);
            assert(rest.skip(1) =~= words_vals(path@).skip(j as int + 1));
        }
        cur = if idx % 2 == 0 {
            merge(&[cur, entry])
        } else {
            merge(&[entry, cur])
        };
        idx = idx / 2;
        j = j + 1;
    }
    proof {
        assert(words_vals(path@).skip(n as int) =~= Seq::<Seq<int>>::empty());
    }
    cur
}

/// A tree's own sibling path authenticates its committed leaf: folding
/// the leaf at `index` up the path the tree hands out recomputes exactly
/// the tree's root. Together with the update lemma this is what the
/// Merkle read and update instructions rest on.
pub proof fn lemma_tree_authentication(t: &MerkleTree, index: int)
    requires
        t.wf(),
        0 <= index < pow2(t.depth_val()),
    ensures
        path_root(
            t.leaves_vals()[index],
            index,
            sibling_path(t.leaves_vals(), 0, t.depth_val(), index),
        ) == t.root_val(),
{
    lemma_sibling_path_folds(t.leaves_vals(), 0, t.depth_val(), index);
}

/// The leaves a well-formed tree commits are words: the tree holds two
/// to its depth of them, each four canonical values wide.
pub proof fn lemma_tree_leaf_shape(t: &MerkleTree)
    requires
        t.wf(),
    ensures
        t.depth_val() <= MAX_TREE_DEPTH,
        t.leaves_vals().len() == pow2(t.depth_val()),
        forall|i: int| 0 <= i < t.leaves_vals().len() ==> (#[trigger] t.leaves_vals()[i]).len()
            == 4,
{
    assert forall|i: int| 0 <= i < t.leaves_vals().len() implies (#[trigger] t.leaves_vals()[
        i
    ]).len() == 4 by {
        assert(t.leaves_vals()[i] == vals(t.leaves@[i]@));
    }
}

/// Updating a leaf and reading it back returns the new value, and the
/// updated tree commits to a root that is exactly the fold of the new
/// value up the old tree's sibling path: what the Merkle update
/// instructions leave on the stack.
pub proof fn lemma_update_then_get(t: &MerkleTree, u: &MerkleTree, index: int, value: Seq<int>)
    requires
        t.wf(),
        u.wf(),
        0 <= index < pow2(t.depth_val()),
        u.depth_val() == t.depth_val(),
        u.leaves_vals() == t.leaves_vals().update(index, value),
    ensures
        u.leaves_vals()[index] == value,
        u.root_val() == path_root(
            value,
            index,
            sibling_path(t.leaves_vals(), 0, t.depth_val(), index),
        ),
{
    lemma_update_subtree_root(t.leaves_vals(), 0, t.depth_val(), index, value);
}

/// The first `k` entries of a sibling path, defined bottom up: what the
/// path-extraction loop has produced after `k` levels.
pub open spec fn sibling_path_prefix(
    leaves: Seq<Seq<int>>,
    depth: nat,
    index: int,
    k: nat,
) -> Seq<Seq<int>> {
    sibling_path(leaves, 0, depth, index).take(k as int)
}

/// After `k` levels the loop has pushed exactly the subtree roots of the
/// siblings along the leaf's way up: entry `j` is the root of the depth-`j`
/// subtree next to the leaf's depth-`j` ancestor.
proof fn lemma_sibling_path_entry(
    leaves: Seq<Seq<int>>,
    start: int,
    depth: nat,
    index: int,
    j: nat,
)
    requires
        0 <= index < pow2(depth),
        j < depth,
        0 <= start,
    ensures
        sibling_path(leaves, start, depth, index)[j as int] == subtree_root(
            leaves,
            start + sibling_slot_spec(index, j) * pow2(j),
            j,
        ),
    decreases depth,
{
    lemma_sibling_path_len(leaves, start, depth, index);
    let half = pow2((depth - 1) as nat) as int;
    lemma_pow2_pos((depth - 1) as nat);
    lemma_pow2_adds(1, (depth - 1) as nat);
    assert(pow2(1) == 2) by {
        vstd::arithmetic::power2::lemma2_to64();
    }
    if j == depth - 1 {
        // The last entry is the root of the other half.
        if index < half {
            lemma_sibling_path_len(leaves, start, (depth - 1) as nat, index);
            assert(sibling_slot_spec(index, j) == 1) by {
                lemma_small_div_local(index, half);
            }
        } else {
            lemma_sibling_path_len(leaves, start + half, (depth - 1) as nat, index - half);
            assert(sibling_slot_spec(index, j) == 0) by {
                lemma_div_one_local(index, half);
            }
        }
    } else {
        if index < half {
            lemma_sibling_path_len(leaves, start, (depth - 1) as nat, index);
            lemma_sibling_path_entry(leaves, start, (depth - 1) as nat, index, j);
        } else {
            lemma_sibling_path_len(leaves, start + half, (depth - 1) as nat, index - half);
            lemma_sibling_path_entry(leaves, start + half, (depth - 1) as nat, index - half, j);
            lemma_slot_high_half(index, j, (depth - 1) as nat, start);
        }
    }
}

/// The slot of the sibling of the leaf's depth-`j` ancestor: the ancestor
/// slot with its lowest bit flipped.
pub open spec fn sibling_slot_spec(index: int, j: nat) -> int {
    let slot = index / pow2(j) as int;
    if slot % 2 == 0 {
        slot + 1
    } else {
        slot - 1
    }
}

/// For an index in the upper half, the depth-`j` ancestor slot inside the
/// half, shifted by the half's width in depth-`j` subtrees, is the slot in
/// the whole tree; the sibling start positions agree accordingly.
proof fn lemma_slot_high_half(index: int, j: nat, subdepth: nat, start: int)
    requires
        pow2(subdepth) <= index < 2 * pow2(subdepth),
        j < subdepth,
    ensures
        (start + pow2(subdepth)) + sibling_slot_spec(index - pow2(subdepth), j) * pow2(j) == start
            + sibling_slot_spec(index, j) * pow2(j),
{
    let half = pow2(subdepth) as int;
    let w = pow2(j) as int;
    lemma_pow2_pos(j);
    lemma_pow2_pos(subdepth);
    lemma_pow2_adds(j, (subdepth - j) as nat);
    let factor = pow2((subdepth - j) as nat) as int;
    lemma_pow2_pos((subdepth - j) as nat);
    // index / w == (index - half) / w + half / w, since w divides half.
    assert(half == w * factor);
    lemma_div_multiples_shift(index - half, w, factor);
    // factor is even because j < subdepth.
    assert(factor % 2 == 0) by {
        lemma_pow2_adds(1, (subdepth - j - 1) as nat);
        assert(pow2(1) == 2) by {
            vstd::arithmetic::power2::lemma2_to64();
        }
        assert(factor == 2 * pow2((subdepth - j - 1) as nat) as int);
    }
    let s0 = (index - half) / w;
    assert(index / w == s0 + factor);
    assert((s0 + factor) % 2 == s0 % 2) by {
        lemma_even_shift_parity(s0, factor);
    }
    assert(sibling_slot_spec(index, j) == sibling_slot_spec(index - half, j) + factor);
    assert((sibling_slot_spec(index - half, j) + factor) * w == sibling_slot_spec(index - half, j)
        * w + factor * w) by (nonlinear_arith);
}

/// Dividing after adding a multiple of the divisor shifts the quotient.
proof fn lemma_div_multiples_shift(x: int, w: int, factor: int)
    requires
        x >= 0,
        w > 0,
        factor >= 0,
    ensures
        (x + w * factor) / w == x / w + factor,
{
    vstd::arithmetic::div_mod::lemma_fundamental_div_mod(x, w);
    vstd::arithmetic::div_mod::lemma_mod_bound(x, w);
    assert(x + w * factor == w * (x / w + factor) + x % w) by (nonlinear_arith)
        requires
            x == w * (x / w) + x % w,
    ;
    lemma_fundamental_div_mod_converse(x + w * factor, w, x / w + factor, x % w);
}

/// Adding an even number does not change parity.
proof fn lemma_even_shift_parity(s: int, e: int)
    requires
        s >= 0,
        e >= 0,
        e % 2 == 0,
    ensures
        (s + e) % 2 == s % 2,
{
    vstd::arithmetic::div_mod::lemma_fundamental_div_mod(e, 2);
    vstd::arithmetic::div_mod::lemma_mod_multiples_vanish(e / 2, s, 2);
}

/// One loop step extends the prefix by the sibling subtree root at the
/// current level.
proof fn lemma_sibling_path_prefix_step(
    leaves: Seq<Seq<int>>,
    depth: nat,
    index: int,
    k: nat,
)
    requires
        0 <= index < pow2(depth),
        k < depth,
    ensures
        sibling_path_prefix(leaves, depth, index, (k + 1) as nat) == sibling_path_prefix(
            leaves,
            depth,
            index,
            k,
        ).push(subtree_root(leaves, sibling_slot_spec(index, k) * pow2(k), k)),
{
    lemma_sibling_path_len(leaves, 0, depth, index);
    lemma_sibling_path_entry(leaves, 0, depth, index, k);
    assert(sibling_path(leaves, 0, depth, index).take(k as int + 1) =~= sibling_path(
        leaves,
        0,
        depth,
        index,
    ).take(k as int).push(sibling_path(leaves, 0, depth, index)[k as int]));
}

/// After all levels the prefix is the whole sibling path.
proof fn lemma_sibling_path_prefix_full(leaves: Seq<Seq<int>>, depth: nat, index: int)
    ensures
        sibling_path_prefix(leaves, depth, index, depth) == sibling_path(leaves, 0, depth, index),
{
    lemma_sibling_path_len(leaves, 0, depth, index);
    assert(sibling_path(leaves, 0, depth, index).take(depth as int) =~= sibling_path(
        leaves,
        0,
        depth,
        index,
    ));
}

proof fn lemma_div_bound_local(index: int, w: int, bound: int)
    requires
        0 <= index,
        w > 0,
        bound > 0,
        index < w * bound,
    ensures
        index / w < bound,
        index / w >= 0,
{
    vstd::arithmetic::div_mod::lemma_div_pos_is_pos(index, w);
    assert(index / w < bound) by {
        vstd::arithmetic::div_mod::lemma_fundamental_div_mod(index, w);
        vstd::arithmetic::div_mod::lemma_mod_bound(index, w);
        assert(w * (index / w) <= index);
        if index / w >= bound {
            assert(w * (index / w) >= w * bound) by (nonlinear_arith)
                requires
                    index / w >= bound,
                    w > 0,
            ;
        }
    }
}

/// When the leaf count is an odd number (> 1) of power-of-two blocks, it is
/// not itself a power of two.
proof fn lemma_odd_factor_not_pow2(total: int, n: int, depth: nat)
    requires
        total == n * pow2(depth),
        n > 1,
        n % 2 == 1,
    ensures
        !vstd::arithmetic::power2::is_pow2_exists(total),
{
    lemma_pow2_pos(depth);
    if vstd::arithmetic::power2::is_pow2_exists(total) {
        let m = choose|i: nat| vstd::arithmetic::power::pow(2, i) == total;
        assert(total == pow2(m)) by {
            vstd::arithmetic::power2::lemma_pow2(m);
        }
        // total >= 2 * 2^depth, so m > depth.
        assert(total >= 2 * pow2(depth)) by (nonlinear_arith)
            requires
                total == n * pow2(depth),
                n >= 2,
                pow2(depth) > 0,
        ;
        if m <= depth {
            if m < depth {
                lemma_pow2_strictly_increases(m, depth);
            }
            assert(false);
        }
        lemma_pow2_adds((m - depth) as nat, depth);
        // n * 2^depth == 2^(m-depth) * 2^depth, so n == 2^(m-depth), even.
        assert(n == pow2((m - depth) as nat)) by (nonlinear_arith)
            requires
                n * pow2(depth) == pow2((m - depth) as nat) * pow2(depth),
                pow2(depth) > 0,
        ;
        assert(m - depth >= 1) by {
            if m - depth == 0 {
                assert(pow2(0) == 1) by {
                    vstd::arithmetic::power2::lemma2_to64();
                }
            }
        }
        lemma_pow2_adds(1, (m - depth - 1) as nat);
        assert(pow2(1) == 2) by {
            vstd::arithmetic::power2::lemma2_to64();
        }
        assert(n == 2 * pow2((m - depth - 1) as nat));
    }
}

/// Powers of two never decrease with the exponent.
pub proof fn lemma_pow2_le(e1: nat, e2: nat)
    requires
        e1 <= e2,
    ensures
        pow2(e1) <= pow2(e2),
{
    if e1 < e2 {
        lemma_pow2_strictly_increases(e1, e2);
    }
}

/// Two raised to the given exponent, as a machine integer.
pub fn pow2_usize(n: u32) -> (r: usize)
    requires
        pow2(n as nat) <= usize::MAX,
    ensures
        r as nat == pow2(n as nat),
        r >= 1,
{
    let mut r: usize = 1;
    let mut i: u32 = 0;
    proof {
        assert(pow2(0) == 1) by {
            vstd::arithmetic::power2::lemma2_to64();
        }
    }
    while i < n
        invariant
            i <= n,
            pow2(n as nat) <= usize::MAX,
            r as nat == pow2(i as nat),
            r >= 1,
        decreases n - i,
    {
        proof {
            lemma_pow2_adds(1, i as nat);
            assert(pow2(1) == 2) by {
                vstd::arithmetic::power2::lemma2_to64();
            }
            lemma_pow2_le((i + 1) as nat, n as nat);
        }
        r = r * 2;
        i = i + 1;
    }
    r
}

/// The root of the depth-`depth` subtree whose leftmost leaf sits at
/// `start`, computed by recursive merging.
fn root_range(leaves: &Vec<Word>, start: usize, depth: u32) -> (r: Word)
    requires
        depth <= MAX_TREE_DEPTH,
        start + pow2(depth as nat) <= leaves@.len(),
        forall|i: int| 0 <= i < leaves@.len() ==> all_valid(#[trigger] leaves@[i]@),
    ensures
        all_valid(r@),
        vals(r@) == subtree_root(words_vals(leaves@), start as int, depth as nat),
    decreases depth,
{
    proof {
        lemma_pow2_pos(depth as nat);
        assert(leaves.len() == leaves@.len());
    }
    if depth == 0 {
        proof {
            assert(pow2(0) == 1) by {
                vstd::arithmetic::power2::lemma2_to64();
            }
        }
        leaves[start]
    } else {
        proof {
            lemma_pow2_adds(1, (depth - 1) as nat);
            assert(pow2(1) == 2) by {
                vstd::arithmetic::power2::lemma2_to64();
            }
            lemma_pow2_le((depth - 1) as nat, depth as nat);
        }
        let half = pow2_usize(depth - 1);
        let left = root_range(leaves, start, depth - 1);
        let right = root_range(leaves, start + half, depth - 1);
        merge(&[left, right])
    }
}

} // verus!
