//! The Merkle model of the account-delta tree and the path verifier: how a
//! tree is built over leaf digests, what sibling path a leaf has, and how a
//! candidate root is reconstructed from a leaf and its path.
//!
//! A level with an odd number of nodes pairs its last node with itself, so
//! every leaf of a tree has a path of the same length.

use vstd::prelude::*;

use crate::hash::{combine, hash_pair};
use crate::types::Digest;

verus! {

/// The byte-sequence views of a sequence of digests.
pub open spec fn digests_view(s: Seq<Digest>) -> Seq<Seq<u8>> {
    s.map_values(|d: Digest| d@)
}

/// One combining step of the path verifier: the position bit is the parity
/// of the leaf index at this level, and says on which side the running
/// digest stands.
pub open spec fn step(cur: Seq<u8>, index: nat, sib: Seq<u8>) -> Seq<u8> {
    if index % 2 == 0 {
        combine(cur, sib)
    } else {
        combine(sib, cur)
    }
}

/// The candidate root reconstructed from a leaf digest, the leaf's index,
/// and its sibling path; an empty path means the leaf is itself the root.
pub open spec fn reconstruct(leaf: Seq<u8>, index: nat, sibs: Seq<Seq<u8>>) -> Seq<u8>
    decreases sibs.len(),
{
    if sibs.len() == 0 {
        leaf
    } else {
        reconstruct(step(leaf, index, sibs[0]), index / 2, sibs.drop_first())
    }
}

/// The running digests of a path, leaf first, candidate root last.
pub open spec fn chain_of(leaf: Seq<u8>, index: nat, sibs: Seq<Seq<u8>>) -> Seq<Seq<u8>>
    decreases sibs.len(),
{
    if sibs.len() == 0 {
        seq![leaf]
    } else {
        seq![leaf] + chain_of(step(leaf, index, sibs[0]), index / 2, sibs.drop_first())
    }
}

/// The index shifted down by `levels` halvings.
pub open spec fn shifted_index(index: nat, levels: nat) -> nat
    decreases levels,
{
    if levels == 0 {
        index
    } else {
        shifted_index(index / 2, (levels - 1) as nat)
    }
}

/// Whether a leaf index is addressable in a tree of the given depth.
pub open spec fn index_fits(index: nat, depth: nat) -> bool {
    shifted_index(index, depth) == 0
}

/// Whether a leaf stands on the rightmost path of a tree with `count`
/// leaves: at every level of the path its node is a right child where a
/// sibling exists, and the self-paired last node of an odd level where
/// none does. Levels where the node pairs with itself carry no position
/// bit, so only the existing bits are required to be "right".
pub open spec fn all_rightmost(index: nat, count: nat, depth: nat) -> bool
    decreases depth,
{
    if depth == 0 {
        true
    } else {
        (index % 2 == 1 || index + 1 == count) && all_rightmost(
            index / 2,
            (count + 1) / 2,
            (depth - 1) as nat,
        )
    }
}

/// Decides whether a leaf index is addressable in a tree of the given
/// depth.
pub fn check_index_fits(index: u64, depth: usize) -> (r: bool)
    ensures
        r == index_fits(index as nat, depth as nat),
{
    let mut idx: u64 = index;
    let mut k: usize = 0;
    while k < depth
        invariant
            0 <= k <= depth,
            shifted_index(index as nat, depth as nat) == shifted_index(
                idx as nat,
                (depth - k) as nat,
            ),
        decreases depth - k,
    {
        idx = idx / 2;
        k = k + 1;
    }
    idx == 0
}

/// Decides whether a leaf index stands on the rightmost path of a tree
/// with `count` leaves.
pub fn check_all_rightmost(index: u64, count: usize, depth: usize) -> (r: bool)
    ensures
        r == all_rightmost(index as nat, count as nat, depth as nat),
{
    let mut idx: u64 = index;
    let mut cnt: usize = count;
    let mut k: usize = 0;
    while k < depth
        invariant
            0 <= k <= depth,
            all_rightmost(index as nat, count as nat, depth as nat) == all_rightmost(
                idx as nat,
                cnt as nat,
                (depth - k) as nat,
            ),
        decreases depth - k,
    {
        if !(idx % 2 == 1 || (cnt > 0 && idx == (cnt - 1) as u64)) {
            assert(!(idx as nat % 2 == 1 || idx as nat + 1 == cnt as nat));
            return false;
        }
        let ghost prev_cnt = cnt as nat;
        idx = idx / 2;
        cnt = cnt / 2 + cnt % 2;
        assert(cnt as nat == (prev_cnt + 1) / 2);
        k = k + 1;
    }
    true
}

/// Reconstructs the candidate root from a leaf digest, the leaf's index,
/// and its sibling path.
pub fn reconstruct_root(leaf: &Digest, index: u64, siblings: &Vec<Digest>) -> (root: Digest)
    ensures
        root@ == reconstruct(leaf@, index as nat, digests_view(siblings@)),
{
    let n = siblings.len();
    let views = Ghost(digests_view(siblings@));
    let mut cur: Digest = leaf.duplicate();
    let mut idx: u64 = index;
    let mut k: usize = 0;
    assert(views@.skip(0) =~= views@);
    while k < n
        invariant
            n == siblings@.len(),
            views@ == digests_view(siblings@),
            0 <= k <= n,
            reconstruct(cur@, idx as nat, views@.skip(k as int)) == reconstruct(
                leaf@,
                index as nat,
                views@,
            ),
        decreases n - k,
    {
        let tail = Ghost(views@.skip(k as int));
        assert(tail@[0] == views@[k as int]);
        assert(tail@.drop_first() =~= views@.skip(k + 1));
        let next = if idx % 2 == 0 {
            hash_pair(&cur, &siblings[k])
        } else {
            hash_pair(&siblings[k], &cur)
        };
        assert(next@ == step(cur@, idx as nat, tail@[0]));
        cur = next;
        idx = idx / 2;
        k = k + 1;
    }
    assert(views@.skip(n as int) =~= Seq::<Seq<u8>>::empty());
    cur
}

/// Reconstructs the whole chain of running digests of a path, leaf first,
/// candidate root last.
pub fn path_chain(leaf: &Digest, index: u64, siblings: &Vec<Digest>) -> (chain: Vec<Digest>)
    ensures
        digests_view(chain@) == chain_of(leaf@, index as nat, digests_view(siblings@)),
        chain@.len() == siblings@.len() + 1,
{
    let n = siblings.len();
    let views = Ghost(digests_view(siblings@));
    let mut chain: Vec<Digest> = Vec::new();
    chain.push(leaf.duplicate());
    let mut idx: u64 = index;
    let mut k: usize = 0;
    assert(views@.skip(0) =~= views@);
    assert(digests_view(chain@).drop_last() =~= Seq::<Seq<u8>>::empty());
    assert(digests_view(chain@).last() == leaf@);
    while k < n
        invariant
            n == siblings@.len(),
            views@ == digests_view(siblings@),
            0 <= k <= n,
            chain@.len() == k + 1,
            chain_of(leaf@, index as nat, views@) == digests_view(chain@).drop_last() + chain_of(
                digests_view(chain@).last(),
                idx as nat,
                views@.skip(k as int),
            ),
        decreases n - k,
    {
        let tail = Ghost(views@.skip(k as int));
        assert(tail@[0] == views@[k as int]);
        assert(tail@.drop_first() =~= views@.skip(k + 1));
        let cur_v = Ghost(digests_view(chain@).last());
        let next = if idx % 2 == 0 {
            hash_pair(&chain[chain.len() - 1], &siblings[k])
        } else {
            hash_pair(&siblings[k], &chain[chain.len() - 1])
        };
        assert(chain@[chain@.len() - 1]@ == cur_v@);
        assert(next@ == step(cur_v@, idx as nat, tail@[0]));
        chain.push(next);
        assert(digests_view(chain@).drop_last() =~= digests_view(chain@.drop_last()));
        assert(digests_view(chain@.drop_last()) =~= digests_view(chain@).drop_last());
        assert(digests_view(chain@).drop_last().drop_last() + seq![cur_v@] =~= digests_view(
            chain@,
        ).drop_last());
        assert(digests_view(chain@).last() == next@);
        idx = idx / 2;
        k = k + 1;
    }
    assert(views@.skip(n as int) =~= Seq::<Seq<u8>>::empty());
    assert(digests_view(chain@).drop_last().push(digests_view(chain@).last()) =~= digests_view(
        chain@,
    ));
    assert(digests_view(chain@).drop_last() + chain_of(
        digests_view(chain@).last(),
        idx as nat,
        Seq::<Seq<u8>>::empty(),
    ) =~= digests_view(chain@));
    chain
}

/// One level up the tree: nodes are paired in order, an unpaired last node
/// is paired with itself.
pub open spec fn parent_level(level: Seq<Seq<u8>>) -> Seq<Seq<u8>> {
    Seq::new(
        (level.len() + 1) / 2,
        |i: int|
            if 2 * i + 1 < level.len() {
                combine(level[2 * i], level[2 * i + 1])
            } else {
                combine(level[2 * i], level[2 * i])
            },
    )
}

/// The root of the tree over the given leaf digests.
pub open spec fn root_of_leaves(leaves: Seq<Seq<u8>>) -> Seq<u8>
    recommends
        leaves.len() >= 1,
    decreases leaves.len(),
{
    if leaves.len() <= 1 {
        if leaves.len() == 1 {
            leaves[0]
        } else {
            Seq::empty()
        }
    } else {
        root_of_leaves(parent_level(leaves))
    }
}

/// The sibling of node `i` within one level; the unpaired last node of an
/// odd level is its own sibling.
pub open spec fn sibling_in_level(level: Seq<Seq<u8>>, i: int) -> Seq<u8> {
    let j = if i % 2 == 0 {
        i + 1
    } else {
        i - 1
    };
    if j < level.len() {
        level[j]
    } else {
        level[i]
    }
}

/// The sibling path of leaf `i` in the tree over the given leaf digests.
pub open spec fn path_of(leaves: Seq<Seq<u8>>, i: int) -> Seq<Seq<u8>>
    recommends
        0 <= i < leaves.len(),
    decreases leaves.len(),
{
    if leaves.len() <= 1 {
        Seq::empty()
    } else {
        seq![sibling_in_level(leaves, i)] + path_of(parent_level(leaves), i / 2)
    }
}

/// The nodes of the tree `levels` levels above the leaves.
pub open spec fn level_at(leaves: Seq<Seq<u8>>, levels: nat) -> Seq<Seq<u8>>
    decreases levels,
{
    if levels == 0 {
        leaves
    } else {
        level_at(parent_level(leaves), (levels - 1) as nat)
    }
}

/// Shifting one level more halves the shifted index once more.
pub proof fn lemma_shifted_index_step(index: nat, levels: nat)
    ensures
        shifted_index(index, levels + 1) == shifted_index(index, levels) / 2,
    decreases levels,
{
    if levels == 0 {
        assert(shifted_index(index, 1) == shifted_index(index / 2, 0));
    } else {
        lemma_shifted_index_step(index / 2, (levels - 1) as nat);
        assert(shifted_index(index, levels + 1) == shifted_index(index / 2, (levels - 1) as nat
            + 1));
        assert(shifted_index(index, levels) == shifted_index(index / 2, (levels - 1) as nat));
    }
}

/// The chain of a path holds one entry per level, the leaf included.
pub proof fn lemma_chain_len(leaf: Seq<u8>, index: nat, sibs: Seq<Seq<u8>>)
    ensures
        chain_of(leaf, index, sibs).len() == sibs.len() + 1,
    decreases sibs.len(),
{
    if sibs.len() > 0 {
        lemma_chain_len(step(leaf, index, sibs[0]), index / 2, sibs.drop_first());
    }
}

/// Every leaf of one tree has a path of the same length.
pub proof fn lemma_path_len_same(leaves: Seq<Seq<u8>>, x: int, y: int)
    ensures
        path_of(leaves, x).len() == path_of(leaves, y).len(),
    decreases leaves.len(),
{
    if leaves.len() > 1 {
        lemma_path_len_same(parent_level(leaves), x / 2, y / 2);
    }
}

/// One combining step from a leaf's node with its own sibling lands on the
/// node's parent.
proof fn lemma_step_is_parent(leaves: Seq<Seq<u8>>, x: nat)
    requires
        leaves.len() >= 2,
        x < leaves.len(),
    ensures
        x as int / 2 < parent_level(leaves).len(),
        step(leaves[x as int], x, sibling_in_level(leaves, x as int)) == parent_level(
            leaves,
        )[x as int / 2],
{
    let xi = x as int;
    let p = parent_level(leaves);
    let sib = sibling_in_level(leaves, xi);
    assert(p.len() == (leaves.len() + 1) / 2);
    assert(0 <= xi / 2 < p.len());
    if x % 2 == 0 {
        assert(2 * (xi / 2) == xi);
        if xi + 1 < leaves.len() {
            assert(sib == leaves[xi + 1]);
            assert(p[xi / 2] == combine(leaves[xi], leaves[xi + 1]));
        } else {
            assert(sib == leaves[xi]);
            assert(p[xi / 2] == combine(leaves[xi], leaves[xi]));
        }
    } else {
        assert(2 * (xi / 2) == xi - 1);
        assert(sib == leaves[xi - 1]);
        assert(p[xi / 2] == combine(leaves[xi - 1], leaves[xi]));
    }
}

/// Law: the running digests of an honestly built path are the tree's own
/// nodes — entry `k` of the chain is the ancestor of leaf `x` at height
/// `k`, and the path's `k`-th sibling is that ancestor's sibling in its
/// level.
pub proof fn lemma_honest_path_nodes(leaves: Seq<Seq<u8>>, x: nat, k: nat)
    requires
        x < leaves.len(),
        k <= path_of(leaves, x as int).len(),
    ensures
        shifted_index(x, k) < level_at(leaves, k).len(),
        chain_of(leaves[x as int], x, path_of(leaves, x as int))[k as int] == level_at(
            leaves,
            k,
        )[shifted_index(x, k) as int],
        k < path_of(leaves, x as int).len() ==> path_of(leaves, x as int)[k as int]
            == sibling_in_level(level_at(leaves, k), shifted_index(x, k) as int),
    decreases leaves.len(),
{
    let xi = x as int;
    let path = path_of(leaves, xi);
    if leaves.len() <= 1 {
        assert(path =~= Seq::<Seq<u8>>::empty());
        assert(k == 0);
        assert(chain_of(leaves[xi], x, path) == seq![leaves[xi]]);
    } else {
        let p = parent_level(leaves);
        let sib = sibling_in_level(leaves, xi);
        lemma_step_is_parent(leaves, x);
        assert(path == seq![sib] + path_of(p, xi / 2));
        assert(path[0] == sib);
        assert(path.drop_first() =~= path_of(p, xi / 2));
        if k == 0 {
            assert(chain_of(leaves[xi], x, path)[0] == leaves[xi]);
        } else {
            assert((x / 2) as int == xi / 2);
            lemma_honest_path_nodes(p, x / 2, (k - 1) as nat);
            let rest = chain_of(p[xi / 2], x / 2, path_of(p, xi / 2));
            lemma_chain_len(p[xi / 2], x / 2, path_of(p, xi / 2));
            assert(chain_of(leaves[xi], x, path) == seq![leaves[xi]] + rest);
            assert(chain_of(leaves[xi], x, path)[k as int] == rest[k as int - 1]);
            if k < path.len() {
                assert(path[k as int] == path_of(p, xi / 2)[k as int - 1]);
            }
        }
    }
}

/// Law: a leaf that is in the tree reconstructs the tree's root from its
/// own path; the path verifier accepts every honestly built inclusion
/// proof.
pub proof fn lemma_path_reconstructs_root(leaves: Seq<Seq<u8>>, i: nat)
    requires
        i < leaves.len(),
    ensures
        reconstruct(leaves[i as int], i, path_of(leaves, i as int)) == root_of_leaves(leaves),
    decreases leaves.len(),
{
    if leaves.len() <= 1 {
        assert(path_of(leaves, i as int) =~= Seq::<Seq<u8>>::empty());
    } else {
        let ii = i as int;
        let p = parent_level(leaves);
        let sib = sibling_in_level(leaves, ii);
        let path = path_of(leaves, ii);
        assert(path == seq![sib] + path_of(p, ii / 2));
        assert(path[0] == sib);
        assert(path.drop_first() =~= path_of(p, ii / 2));
        lemma_step_is_parent(leaves, i);
        assert((i / 2) as int == ii / 2);
        lemma_path_reconstructs_root(p, i / 2);
        assert(reconstruct(leaves[ii], i, path) == reconstruct(p[ii / 2], i / 2, path_of(
            p,
            ii / 2,
        )));
    }
}

/// Law: every leaf index of a tree fits the depth of its own path, so an
/// honestly built proof is never rejected as malformed.
pub proof fn lemma_tree_index_fits(leaves: Seq<Seq<u8>>, i: nat)
    requires
        i < leaves.len(),
    ensures
        index_fits(i, path_of(leaves, i as int).len()),
    decreases leaves.len(),
{
    if leaves.len() <= 1 {
        assert(path_of(leaves, i as int) =~= Seq::<Seq<u8>>::empty());
        assert(shifted_index(0, 0) == 0);
    } else {
        let p = parent_level(leaves);
        assert(p.len() == (leaves.len() + 1) / 2);
        assert(i / 2 < p.len());
        lemma_tree_index_fits(p, i / 2);
        assert(path_of(leaves, i as int).len() == 1 + path_of(p, i as int / 2).len());
        assert((i / 2) as int == i as int / 2);
        assert(shifted_index(i, path_of(leaves, i as int).len()) == shifted_index(
            i / 2,
            path_of(p, i as int / 2).len(),
        ));
    }
}

/// Law: in every tree the last leaf stands on the rightmost path — at
/// each level its node is a right child or the self-paired last node — so
/// an honest right-boundary witness passes the position check for every
/// leaf count.
pub proof fn lemma_last_leaf_all_rightmost(count: nat, depth: nat)
    requires
        count >= 1,
    ensures
        all_rightmost((count - 1) as nat, count, depth),
    decreases depth,
{
    if depth > 0 {
        let index = (count - 1) as nat;
        assert(index + 1 == count);
        assert(index / 2 + 1 == (count + 1) / 2);
        lemma_last_leaf_all_rightmost((count + 1) / 2, (depth - 1) as nat);
    }
}

/// Recomputes the root of the tree over the given leaf digests.
pub fn root_from_leaves(leaves: &Vec<Digest>) -> (root: Digest)
    requires
        leaves@.len() >= 1,
    ensures
        root@ == root_of_leaves(digests_view(leaves@)),
{
    let mut level: Vec<Digest> = Vec::new();
    let n = leaves.len();
    let mut i: usize = 0;
    while i < n
        invariant
            n == leaves@.len(),
            0 <= i <= n,
            digests_view(level@) =~= digests_view(leaves@).take(i as int),
            level@.len() == i,
        decreases n - i,
    {
        level.push(leaves[i].duplicate());
        i = i + 1;
    }
    assert(digests_view(leaves@).take(n as int) =~= digests_view(leaves@));
    while level.len() > 1
        invariant
            level@.len() >= 1,
            root_of_leaves(digests_view(level@)) == root_of_leaves(digests_view(leaves@)),
        decreases level@.len(),
    {
        let m = level.len();
        let half = m / 2 + m % 2;
        assert(half == (m + 1) as int / 2);
        let mut next: Vec<Digest> = Vec::new();
        let mut j: usize = 0;
        while j < half
            invariant
                m == level@.len(),
                m >= 2,
                half == (m + 1) / 2,
                0 <= j <= half,
                next@.len() == j,
                digests_view(next@) =~= parent_level(digests_view(level@)).take(j as int),
            decreases half - j,
        {
            let node = if 2 * j + 1 < m {
                hash_pair(&level[2 * j], &level[2 * j + 1])
            } else {
                hash_pair(&level[2 * j], &level[2 * j])
            };
            assert(node@ == parent_level(digests_view(level@))[j as int]);
            next.push(node);
            assert(parent_level(digests_view(level@)).take(j as int).push(
                parent_level(digests_view(level@))[j as int],
            ) =~= parent_level(digests_view(level@)).take(j + 1));
            j = j + 1;
        }
        assert(parent_level(digests_view(level@)).take(half as int) =~= parent_level(
            digests_view(level@),
        ));
        assert(root_of_leaves(parent_level(digests_view(level@))) == root_of_leaves(
            digests_view(level@),
        ));
        level = next;
    }
    let root = level[0].duplicate();
    assert(digests_view(level@).len() == 1);
    assert(root@ == digests_view(level@)[0]);
    root
}

} // verus!
