//! The per-variant checkers: inclusion via the path verifier, and the
//! three non-inclusion variants via boundary or adjacency reasoning.

use vstd::prelude::*;

use crate::hash::{encode_leaf, spec_leaf_digest};
use crate::merkle::{
    all_rightmost, chain_of, check_all_rightmost, check_index_fits, digests_view, index_fits,
    path_chain, path_of, reconstruct, reconstruct_root, root_from_leaves, root_of_leaves,
    shifted_index,
};
use crate::order::{key_lt, lex_lt};
use crate::types::{digest_eq, AccountRecord, Digest, MerkleProof, VerifyError};

verus! {

/// Structural well-formedness of one (record, path) pair: digests of the
/// right width and a leaf index that fits the path's depth.
pub open spec fn entry_wf(rec: AccountRecord, mp: MerkleProof) -> bool {
    &&& rec.wf()
    &&& mp.wf()
    &&& index_fits(mp.index as nat, mp.siblings@.len())
}

fn check_digest32(d: &Digest) -> (r: bool)
    ensures
        r == d.wf(),
{
    d.bytes.len() == 32
}

fn check_entry_wf(rec: &AccountRecord, mp: &MerkleProof) -> (r: bool)
    ensures
        r == entry_wf(*rec, *mp),
{
    if !check_digest32(&rec.pubkey) || !check_digest32(&rec.state_hash) {
        return false;
    }
    let n = mp.siblings.len();
    let mut i: usize = 0;
    while i < n
        invariant
            n == mp.siblings@.len(),
            0 <= i <= n,
            forall|j: int| 0 <= j < i ==> (#[trigger] mp.siblings@[j]).wf(),
        decreases n - i,
    {
        if !check_digest32(&mp.siblings[i]) {
            assert(!mp.wf());
            return false;
        }
        i = i + 1;
    }
    check_index_fits(mp.index, mp.siblings.len())
}

/// The verdict on an inclusion proof: the record's leaf digest, combined
/// up its path, must reach the expected delta root, and the record must
/// speak of the queried key.
pub open spec fn spec_verify_inclusion(
    pk: Seq<u8>,
    rec: AccountRecord,
    mp: MerkleProof,
    delta_root: Seq<u8>,
) -> Result<(), VerifyError> {
    if !(entry_wf(rec, mp) && rec.pubkey@ == pk) {
        Err(VerifyError::MalformedProof)
    } else if reconstruct(spec_leaf_digest(rec), mp.index as nat, digests_view(mp.siblings@))
        != delta_root {
        Err(VerifyError::RootMismatch)
    } else {
        Ok(())
    }
}

/// Checks an inclusion proof against the expected delta root.
pub fn verify_inclusion(
    pk: &Digest,
    rec: &AccountRecord,
    mp: &MerkleProof,
    delta_root: &Digest,
) -> (r: Result<(), VerifyError>)
    ensures
        r == spec_verify_inclusion(pk@, *rec, *mp, delta_root@),
{
    if !check_entry_wf(rec, mp) || !digest_eq(&rec.pubkey, pk) {
        return Err(VerifyError::MalformedProof);
    }
    let leaf = encode_leaf(rec);
    let root = reconstruct_root(&leaf, mp.index, &mp.siblings);
    if !digest_eq(&root, delta_root) {
        return Err(VerifyError::RootMismatch);
    }
    Ok(())
}

/// The verdict on a left-boundary non-inclusion proof: the witness leaf
/// must verify, stand at index zero, and its key must sort after the
/// queried key.
pub open spec fn spec_verify_left(
    pk: Seq<u8>,
    rec: AccountRecord,
    mp: MerkleProof,
    delta_root: Seq<u8>,
) -> Result<(), VerifyError> {
    if !entry_wf(rec, mp) {
        Err(VerifyError::MalformedProof)
    } else if reconstruct(spec_leaf_digest(rec), mp.index as nat, digests_view(mp.siblings@))
        != delta_root {
        Err(VerifyError::RootMismatch)
    } else if !(mp.index == 0 && lex_lt(pk, rec.pubkey@)) {
        Err(VerifyError::OrderingViolation)
    } else {
        Ok(())
    }
}

/// Checks a left-boundary non-inclusion proof against the expected delta
/// root.
pub fn verify_left(pk: &Digest, rec: &AccountRecord, mp: &MerkleProof, delta_root: &Digest) -> (r:
    Result<(), VerifyError>)
    ensures
        r == spec_verify_left(pk@, *rec, *mp, delta_root@),
{
    if !check_entry_wf(rec, mp) {
        return Err(VerifyError::MalformedProof);
    }
    let leaf = encode_leaf(rec);
    let root = reconstruct_root(&leaf, mp.index, &mp.siblings);
    if !digest_eq(&root, delta_root) {
        return Err(VerifyError::RootMismatch);
    }
    if mp.index != 0 || !key_lt(pk, &rec.pubkey) {
        return Err(VerifyError::OrderingViolation);
    }
    Ok(())
}

/// The verdict on a right-boundary non-inclusion proof: the witness leaf
/// must verify; the root recomputed over the full leaf-digest list must
/// match the delta root with the witness as its final leaf; and the
/// witness must stand on the rightmost path of a tree of that many leaves
/// — a right child at every level where a sibling exists — with a key
/// before the queried key.
pub open spec fn spec_verify_right(
    pk: Seq<u8>,
    rec: AccountRecord,
    mp: MerkleProof,
    leaves: Seq<Digest>,
    delta_root: Seq<u8>,
) -> Result<(), VerifyError> {
    if !(entry_wf(rec, mp) && leaves.len() >= 1) {
        Err(VerifyError::MalformedProof)
    } else if reconstruct(spec_leaf_digest(rec), mp.index as nat, digests_view(mp.siblings@))
        != delta_root {
        Err(VerifyError::RootMismatch)
    } else if !(root_of_leaves(digests_view(leaves)) == delta_root && mp.index as int == leaves.len()
        - 1 && leaves.last()@ == spec_leaf_digest(rec)) {
        Err(VerifyError::SizeMismatch)
    } else if !(all_rightmost(mp.index as nat, leaves.len(), mp.siblings@.len()) && lex_lt(
        rec.pubkey@,
        pk,
    )) {
        Err(VerifyError::OrderingViolation)
    } else {
        Ok(())
    }
}

/// Checks a right-boundary non-inclusion proof against the expected delta
/// root.
pub fn verify_right(
    pk: &Digest,
    rec: &AccountRecord,
    mp: &MerkleProof,
    leaves: &Vec<Digest>,
    delta_root: &Digest,
) -> (r: Result<(), VerifyError>)
    ensures
        r == spec_verify_right(pk@, *rec, *mp, leaves@, delta_root@),
{
    if !check_entry_wf(rec, mp) || leaves.len() == 0 {
        return Err(VerifyError::MalformedProof);
    }
    let leaf = encode_leaf(rec);
    let root = reconstruct_root(&leaf, mp.index, &mp.siblings);
    if !digest_eq(&root, delta_root) {
        return Err(VerifyError::RootMismatch);
    }
    let list_root = root_from_leaves(leaves);
    let last_ok = digest_eq(&leaves[leaves.len() - 1], &leaf);
    assert(leaves@.last() == leaves@[leaves@.len() - 1]);
    if !digest_eq(&list_root, delta_root) || mp.index != (leaves.len() - 1) as u64 || !last_ok {
        return Err(VerifyError::SizeMismatch);
    }
    if !check_all_rightmost(mp.index, leaves.len(), mp.siblings.len()) || !key_lt(
        &rec.pubkey,
        pk,
    ) {
        return Err(VerifyError::OrderingViolation);
    }
    Ok(())
}

/// Law: an honestly built inclusion proof is accepted — for a record whose
/// leaf stands in the tree, the proof made of its index and its own
/// sibling path verifies against the tree's root.
pub proof fn lemma_inclusion_witness_accepted(
    rec: AccountRecord,
    mp: MerkleProof,
    leaves: Seq<Seq<u8>>,
    i: nat,
)
    requires
        rec.wf(),
        mp.wf(),
        i < leaves.len(),
        leaves[i as int] == spec_leaf_digest(rec),
        mp.index as nat == i,
        digests_view(mp.siblings@) == path_of(leaves, i as int),
    ensures
        spec_verify_inclusion(rec.pubkey@, rec, mp, root_of_leaves(leaves)) == Ok::<
            (),
            VerifyError,
        >(()),
{
    assert(mp.siblings@.len() == path_of(leaves, i as int).len());
    crate::merkle::lemma_tree_index_fits(leaves, i);
    crate::merkle::lemma_path_reconstructs_root(leaves, i);
}

/// Law: an honestly built left-boundary witness is accepted for every
/// queried key that sorts before the whole tree — the leftmost leaf with
/// its own path passes the left non-inclusion check.
pub proof fn lemma_left_witness_accepted(
    q: Seq<u8>,
    rec: AccountRecord,
    mp: MerkleProof,
    leaves: Seq<Seq<u8>>,
)
    requires
        rec.wf(),
        mp.wf(),
        leaves.len() >= 1,
        leaves[0] == spec_leaf_digest(rec),
        mp.index == 0,
        digests_view(mp.siblings@) == path_of(leaves, 0),
        lex_lt(q, rec.pubkey@),
    ensures
        spec_verify_left(q, rec, mp, root_of_leaves(leaves)) == Ok::<(), VerifyError>(()),
{
    assert(mp.siblings@.len() == path_of(leaves, 0).len());
    crate::merkle::lemma_tree_index_fits(leaves, 0);
    crate::merkle::lemma_path_reconstructs_root(leaves, 0);
}

/// Law: an honestly built right-boundary witness is accepted in every
/// tree — the last leaf with its own path and the tree's own leaf list
/// passes the right non-inclusion check for every queried key that sorts
/// after it, whatever the leaf count.
pub proof fn lemma_right_witness_accepted(
    q: Seq<u8>,
    rec: AccountRecord,
    mp: MerkleProof,
    leaves: Seq<Digest>,
)
    requires
        rec.wf(),
        mp.wf(),
        leaves.len() >= 1,
        digests_view(leaves).last() == spec_leaf_digest(rec),
        mp.index as nat == leaves.len() - 1,
        digests_view(mp.siblings@) == path_of(digests_view(leaves), leaves.len() - 1),
        lex_lt(rec.pubkey@, q),
    ensures
        spec_verify_right(q, rec, mp, leaves, root_of_leaves(digests_view(leaves))) == Ok::<
            (),
            VerifyError,
        >(()),
{
    let lv = digests_view(leaves);
    let last = (leaves.len() - 1) as nat;
    crate::merkle::lemma_tree_index_fits(lv, last);
    crate::merkle::lemma_path_reconstructs_root(lv, last);
    crate::merkle::lemma_last_leaf_all_rightmost(leaves.len(), mp.siblings@.len());
    assert(lv.last() == lv[last as int]);
}

/// The level at which the paths of two leaf indices first meet.
pub open spec fn join_level(a: nat, b: nat) -> nat
    decreases a + b,
{
    if a == b {
        0
    } else {
        1 + join_level(a / 2, b / 2)
    }
}

/// From the meeting level upward, two index paths coincide.
proof fn lemma_join_level_shifted_equal(a: nat, b: nat, k: nat)
    requires
        k >= join_level(a, b),
    ensures
        shifted_index(a, k) == shifted_index(b, k),
    decreases k,
{
    if a != b {
        lemma_join_level_shifted_equal(a / 2, b / 2, (k - 1) as nat);
    }
}

/// Two index paths that coincide at some level have met by that level.
proof fn lemma_join_level_bound(a: nat, b: nat, k: nat)
    requires
        shifted_index(a, k) == shifted_index(b, k),
    ensures
        join_level(a, b) <= k,
    decreases k,
{
    if a != b {
        assert(k >= 1);
        lemma_join_level_bound(a / 2, b / 2, (k - 1) as nat);
    }
}

/// Below the meeting level, the index paths of two consecutive leaves stay
/// consecutive.
proof fn lemma_below_join_consecutive(a: nat, k: nat)
    requires
        k < join_level(a, a + 1),
    ensures
        shifted_index(a + 1, k) == shifted_index(a, k) + 1,
    decreases k,
{
    if k > 0 {
        assert(join_level(a, a + 1) == 1 + join_level(a / 2, (a + 1) / 2));
        if a % 2 == 0 {
            assert((a + 1) / 2 == a / 2);
            assert(join_level(a / 2, (a + 1) / 2) == 0);
            assert(false);
        }
        assert((a + 1) / 2 == a / 2 + 1);
        lemma_below_join_consecutive(a / 2, (k - 1) as nat);
    }
}

/// Law: the adjacency rule is complete for honest witnesses — in every
/// tree, the paths of two consecutive leaves are tree-adjacent in the
/// checker's sense, so an inner non-inclusion proof built from the real
/// neighbours of an absent key is never rejected by the adjacency check.
pub proof fn lemma_neighbours_are_adjacent(leaves: Seq<Seq<u8>>, i: nat)
    requires
        i + 1 < leaves.len(),
    ensures
        adjacent_in_tree(
            leaves[i as int],
            i,
            path_of(leaves, i as int),
            leaves[i as int + 1],
            i + 1,
            path_of(leaves, i as int + 1),
        ),
{
    let path_a = path_of(leaves, i as int);
    let path_b = path_of(leaves, i as int + 1);
    let ca = chain_of(leaves[i as int], i, path_a);
    let cb = chain_of(leaves[i as int + 1], i + 1, path_b);
    let d = path_a.len();
    crate::merkle::lemma_path_len_same(leaves, i as int, i as int + 1);
    crate::merkle::lemma_tree_index_fits(leaves, i);
    crate::merkle::lemma_tree_index_fits(leaves, i + 1);
    lemma_join_level_bound(i, i + 1, d);
    let l = join_level(i, i + 1);
    assert(l >= 1);
    assert forall|k: int| l <= k <= d implies ca[k] == cb[k] by {
        lemma_join_level_shifted_equal(i, i + 1, k as nat);
        crate::merkle::lemma_honest_path_nodes(leaves, i, k as nat);
        crate::merkle::lemma_honest_path_nodes(leaves, i + 1, k as nat);
    }
    lemma_below_join_consecutive(i, (l - 1) as nat);
    crate::merkle::lemma_honest_path_nodes(leaves, i, (l - 1) as nat);
    crate::merkle::lemma_honest_path_nodes(leaves, i + 1, (l - 1) as nat);
    lemma_join_level_shifted_equal(i, i + 1, l);
    crate::merkle::lemma_shifted_index_step(i, (l - 1) as nat);
    crate::merkle::lemma_shifted_index_step(i + 1, (l - 1) as nat);
    let xa = shifted_index(i, (l - 1) as nat);
    let xb = shifted_index(i + 1, (l - 1) as nat);
    assert(xb == xa + 1);
    assert(xa / 2 == xb / 2);
    assert(xa % 2 == 0) by {
        if xa % 2 == 1 {
            assert((xa + 1) / 2 == xa / 2 + 1);
            assert(false);
        }
    }
    let level = crate::merkle::level_at(leaves, (l - 1) as nat);
    assert(path_a[l - 1] == crate::merkle::sibling_in_level(level, xa as int));
    assert(path_b[l - 1] == crate::merkle::sibling_in_level(level, xb as int));
    assert(crate::merkle::sibling_in_level(level, xa as int) == level[xb as int]);
    assert(crate::merkle::sibling_in_level(level, xb as int) == level[xa as int]);
    assert(path_a[l - 1] == cb[l - 1]);
    assert(path_b[l - 1] == ca[l - 1]);
}

/// True tree-adjacency of two verified paths: consecutive indices, equal
/// depths, running digests that agree from the paths' meeting level up to
/// the root, and each path naming the other's node as its sibling just
/// below that level.
pub open spec fn adjacent_in_tree(
    leaf_a: Seq<u8>,
    ia: nat,
    sibs_a: Seq<Seq<u8>>,
    leaf_b: Seq<u8>,
    ib: nat,
    sibs_b: Seq<Seq<u8>>,
) -> bool {
    let d = sibs_a.len();
    let l = join_level(ia, ib);
    let ca = chain_of(leaf_a, ia, sibs_a);
    let cb = chain_of(leaf_b, ib, sibs_b);
    &&& ib == ia + 1
    &&& sibs_b.len() == d
    &&& 1 <= l <= d
    &&& (forall|k: int| l <= k <= d ==> ca[k] == cb[k])
    &&& sibs_a[l - 1] == cb[l - 1]
    &&& sibs_b[l - 1] == ca[l - 1]
}

/// Decides true tree-adjacency of two bracketing leaves from their leaf
/// digests and paths.
#[verifier::loop_isolation(false)]
fn check_adjacent(leaf_a: &Digest, mp_a: &MerkleProof, leaf_b: &Digest, mp_b: &MerkleProof) -> (r:
    bool)
    ensures
        r == adjacent_in_tree(
            leaf_a@,
            mp_a.index as nat,
            digests_view(mp_a.siblings@),
            leaf_b@,
            mp_b.index as nat,
            digests_view(mp_b.siblings@),
        ),
{
    let ia = mp_a.index;
    let ib = mp_b.index;
    if !(ib > 0 && ia == ib - 1) {
        return false;
    }
    let d = mp_a.siblings.len();
    if mp_b.siblings.len() != d {
        return false;
    }
    // Find the meeting level of the two index paths.
    let mut x: u64 = ia;
    let mut y: u64 = ib;
    let mut l: usize = 0;
    while x != y
        invariant
            0 <= l <= d,
            join_level(ia as nat, ib as nat) == l + join_level(x as nat, y as nat),
            x != y ==> join_level(ia as nat, ib as nat) >= l + 1,
        decreases x + y,
    {
        if l >= d {
            assert(join_level(ia as nat, ib as nat) > d);
            return false;
        }
        x = x / 2;
        y = y / 2;
        l = l + 1;
    }
    let ghost jl = join_level(ia as nat, ib as nat);
    assert(jl == l);
    if l < 1 {
        return false;
    }
    let chain_a = path_chain(leaf_a, ia, &mp_a.siblings);
    let chain_b = path_chain(leaf_b, ib, &mp_b.siblings);
    let ghost ca = chain_of(leaf_a@, ia as nat, digests_view(mp_a.siblings@));
    let ghost cb = chain_of(leaf_b@, ib as nat, digests_view(mp_b.siblings@));
    let mut k: usize = l;
    while k < d
        invariant
            l <= k <= d,
            forall|j: int| l <= j < k ==> ca[j] == cb[j],
        decreases d - k,
    {
        if !digest_eq(&chain_a[k], &chain_b[k]) {
            assert(ca[k as int] != cb[k as int]);
            return false;
        }
        k = k + 1;
    }
    if !digest_eq(&chain_a[d], &chain_b[d]) {
        assert(ca[d as int] != cb[d as int]);
        return false;
    }
    let cross_a = digest_eq(&mp_a.siblings[l - 1], &chain_b[l - 1]);
    let cross_b = digest_eq(&mp_b.siblings[l - 1], &chain_a[l - 1]);
    cross_a && cross_b
}

/// The verdict on an inner non-inclusion proof: both bracketing leaves
/// must verify against the delta root, be truly tree-adjacent, and sort
/// strictly around the queried key.
pub open spec fn spec_verify_inner(
    pk: Seq<u8>,
    rec_a: AccountRecord,
    mp_a: MerkleProof,
    rec_b: AccountRecord,
    mp_b: MerkleProof,
    delta_root: Seq<u8>,
) -> Result<(), VerifyError> {
    if !(entry_wf(rec_a, mp_a) && entry_wf(rec_b, mp_b) && mp_a.siblings@.len()
        == mp_b.siblings@.len()) {
        Err(VerifyError::MalformedProof)
    } else if !(reconstruct(spec_leaf_digest(rec_a), mp_a.index as nat, digests_view(mp_a.siblings@))
        == delta_root && reconstruct(
        spec_leaf_digest(rec_b),
        mp_b.index as nat,
        digests_view(mp_b.siblings@),
    ) == delta_root) {
        Err(VerifyError::RootMismatch)
    } else if !(adjacent_in_tree(
        spec_leaf_digest(rec_a),
        mp_a.index as nat,
        digests_view(mp_a.siblings@),
        spec_leaf_digest(rec_b),
        mp_b.index as nat,
        digests_view(mp_b.siblings@),
    ) && lex_lt(rec_a.pubkey@, pk) && lex_lt(pk, rec_b.pubkey@)) {
        Err(VerifyError::OrderingViolation)
    } else {
        Ok(())
    }
}

/// Law: an honestly built inner non-inclusion proof is accepted — the two
/// real neighbours of an absent key, each with its own path, pass the
/// inner check against the tree's root whenever the key sorts strictly
/// between their keys.
pub proof fn lemma_inner_witness_accepted(
    q: Seq<u8>,
    rec_a: AccountRecord,
    mp_a: MerkleProof,
    rec_b: AccountRecord,
    mp_b: MerkleProof,
    leaves: Seq<Seq<u8>>,
    i: nat,
)
    requires
        rec_a.wf(),
        mp_a.wf(),
        rec_b.wf(),
        mp_b.wf(),
        i + 1 < leaves.len(),
        leaves[i as int] == spec_leaf_digest(rec_a),
        leaves[i as int + 1] == spec_leaf_digest(rec_b),
        mp_a.index as nat == i,
        mp_b.index as nat == i + 1,
        digests_view(mp_a.siblings@) == path_of(leaves, i as int),
        digests_view(mp_b.siblings@) == path_of(leaves, i as int + 1),
        lex_lt(rec_a.pubkey@, q),
        lex_lt(q, rec_b.pubkey@),
    ensures
        spec_verify_inner(q, rec_a, mp_a, rec_b, mp_b, root_of_leaves(leaves)) == Ok::<
            (),
            VerifyError,
        >(()),
{
    crate::merkle::lemma_tree_index_fits(leaves, i);
    crate::merkle::lemma_tree_index_fits(leaves, i + 1);
    crate::merkle::lemma_path_len_same(leaves, i as int, i as int + 1);
    crate::merkle::lemma_path_reconstructs_root(leaves, i);
    crate::merkle::lemma_path_reconstructs_root(leaves, i + 1);
    lemma_neighbours_are_adjacent(leaves, i);
}

/// Checks an inner non-inclusion proof against the expected delta root.
pub fn verify_inner(
    pk: &Digest,
    rec_a: &AccountRecord,
    mp_a: &MerkleProof,
    rec_b: &AccountRecord,
    mp_b: &MerkleProof,
    delta_root: &Digest,
) -> (r: Result<(), VerifyError>)
    ensures
        r == spec_verify_inner(pk@, *rec_a, *mp_a, *rec_b, *mp_b, delta_root@),
{
    if !check_entry_wf(rec_a, mp_a) || !check_entry_wf(rec_b, mp_b) || mp_a.siblings.len()
        != mp_b.siblings.len() {
        return Err(VerifyError::MalformedProof);
    }
    let leaf_a = encode_leaf(rec_a);
    let leaf_b = encode_leaf(rec_b);
    let root_a = reconstruct_root(&leaf_a, mp_a.index, &mp_a.siblings);
    let root_b = reconstruct_root(&leaf_b, mp_b.index, &mp_b.siblings);
    if !digest_eq(&root_a, delta_root) || !digest_eq(&root_b, delta_root) {
        return Err(VerifyError::RootMismatch);
    }
    if !check_adjacent(&leaf_a, mp_a, &leaf_b, mp_b) || !key_lt(&rec_a.pubkey, pk) || !key_lt(
        pk,
        &rec_b.pubkey,
    ) {
        return Err(VerifyError::OrderingViolation);
    }
    Ok(())
}

} // verus!
