use bankhash_verifier::checker::{verify_inclusion, verify_inner, verify_left, verify_right};
use bankhash_verifier::dispatch::{
    verify_proof, verify_proof_against_bankhash, verify_update, VerificationContext,
};
use bankhash_verifier::hash::{encode_leaf, hash_pair, reconstruct_bank_hash};
use bankhash_verifier::merkle::{reconstruct_root, root_from_leaves};
use bankhash_verifier::types::{
    AccountDeltaProof, AccountRecord, BankHashProof, Digest, MerkleProof, ProofKind, Update,
    VerifyError,
};
use sha2::Digest as Sha2Digest;

fn d32(b: u8) -> Digest {
    Digest { bytes: vec![b; 32] }
}

fn d32_tail(b: u8) -> Digest {
    let mut bytes = vec![0u8; 32];
    bytes[31] = b;
    Digest { bytes }
}

fn sha(data: &[u8]) -> Vec<u8> {
    sha2::Sha256::digest(data).to_vec()
}

fn record(key_byte: u8) -> AccountRecord {
    AccountRecord {
        pubkey: d32(key_byte),
        state_hash: d32(0xAA),
        metadata: vec![1, 2, 3],
    }
}

fn manual_leaf(rec: &AccountRecord) -> Vec<u8> {
    let mut buf = Vec::new();
    buf.extend_from_slice(&rec.pubkey.bytes);
    buf.extend_from_slice(&rec.state_hash.bytes);
    buf.extend_from_slice(&rec.metadata);
    sha(&buf)
}

fn manual_pair(l: &[u8], r: &[u8]) -> Vec<u8> {
    let mut buf = Vec::new();
    buf.extend_from_slice(l);
    buf.extend_from_slice(r);
    sha(&buf)
}

/// A fixed four-leaf tree over the records with key bytes 0x10, 0x20,
/// 0x30, 0x40: returns (records, leaf digests, level-one nodes, root).
fn four_leaf_tree() -> (Vec<AccountRecord>, Vec<Vec<u8>>, Vec<Vec<u8>>, Vec<u8>) {
    let recs: Vec<AccountRecord> = vec![record(0x10), record(0x20), record(0x30), record(0x40)];
    let leaves: Vec<Vec<u8>> = recs.iter().map(manual_leaf).collect();
    let h01 = manual_pair(&leaves[0], &leaves[1]);
    let h23 = manual_pair(&leaves[2], &leaves[3]);
    let root = manual_pair(&h01, &h23);
    (recs, leaves, vec![h01, h23], root)
}

fn dig(bytes: &[u8]) -> Digest {
    Digest { bytes: bytes.to_vec() }
}

/// The sibling path of leaf `i` in the four-leaf tree.
fn path(leaves: &[Vec<u8>], level1: &[Vec<u8>], i: usize) -> MerkleProof {
    let sib0 = &leaves[i ^ 1];
    let sib1 = &level1[(i / 2) ^ 1];
    MerkleProof { index: i as u64, siblings: vec![dig(sib0), dig(sib1)] }
}

#[test]
fn leaf_encoder_matches_canonical_layout() {
    let rec = record(0x42);
    let leaf = encode_leaf(&rec);
    assert_eq!(leaf.bytes, manual_leaf(&rec));
}

#[test]
fn pair_combiner_is_order_sensitive() {
    let a = d32(1);
    let b = d32(2);
    let ab = hash_pair(&a, &b);
    let ba = hash_pair(&b, &a);
    assert_eq!(ab.bytes, manual_pair(&a.bytes, &b.bytes));
    assert_ne!(ab.bytes, ba.bytes);
}

#[test]
fn included_leaf_reconstructs_the_root() {
    let (recs, leaves, level1, root) = four_leaf_tree();
    for i in 0..4 {
        let mp = path(&leaves, &level1, i);
        let leaf = encode_leaf(&recs[i]);
        let got = reconstruct_root(&leaf, mp.index, &mp.siblings);
        assert_eq!(got.bytes, root);
    }
}

#[test]
fn empty_path_means_single_leaf_tree() {
    let rec = record(0x11);
    let leaf = encode_leaf(&rec);
    let got = reconstruct_root(&leaf, 0, &Vec::new());
    assert_eq!(got.bytes, leaf.bytes);
    let list = vec![dig(&leaf.bytes)];
    assert_eq!(root_from_leaves(&list).bytes, leaf.bytes);
}

#[test]
fn root_recomputation_handles_odd_level() {
    // Five leaves: the unpaired last node pairs with itself.
    let ls: Vec<Vec<u8>> = (0u8..5).map(|i| sha(&[i])).collect();
    let h01 = manual_pair(&ls[0], &ls[1]);
    let h23 = manual_pair(&ls[2], &ls[3]);
    let h44 = manual_pair(&ls[4], &ls[4]);
    let g0 = manual_pair(&h01, &h23);
    let g1 = manual_pair(&h44, &h44);
    let root = manual_pair(&g0, &g1);
    let list: Vec<Digest> = ls.iter().map(|l| dig(l)).collect();
    assert_eq!(root_from_leaves(&list).bytes, root);
}

#[test]
fn inclusion_proof_succeeds_for_valid_leaf() {
    let (recs, leaves, level1, root) = four_leaf_tree();
    let mp = path(&leaves, &level1, 2);
    let r = verify_inclusion(&recs[2].pubkey.duplicate(), &recs[2], &mp, &dig(&root));
    assert_eq!(r, Ok(()));
}

#[test]
fn tampered_sibling_fails_with_root_mismatch() {
    let (recs, leaves, level1, root) = four_leaf_tree();
    let mut mp = path(&leaves, &level1, 2);
    mp.siblings[0].bytes[0] ^= 0x01;
    let r = verify_inclusion(&recs[2].pubkey.duplicate(), &recs[2], &mp, &dig(&root));
    assert_eq!(r, Err(VerifyError::RootMismatch));
}

#[test]
fn malformed_digest_and_bad_index_are_rejected() {
    let (recs, leaves, level1, root) = four_leaf_tree();
    // A pubkey one byte short.
    let mut short = recs[2].pubkey.duplicate();
    short.bytes.pop();
    let rec = AccountRecord {
        pubkey: short.duplicate(),
        state_hash: recs[2].state_hash.duplicate(),
        metadata: recs[2].metadata.clone(),
    };
    let mp = path(&leaves, &level1, 2);
    let r = verify_inclusion(&short, &rec, &mp, &dig(&root));
    assert_eq!(r, Err(VerifyError::MalformedProof));
    // A leaf index that does not fit a two-level path.
    let mut mp2 = path(&leaves, &level1, 2);
    mp2.index = 5;
    let r2 = verify_inclusion(&recs[2].pubkey.duplicate(), &recs[2], &mp2, &dig(&root));
    assert_eq!(r2, Err(VerifyError::MalformedProof));
}

#[test]
fn inner_noninclusion_succeeds_between_neighbours() {
    let (recs, leaves, level1, root) = four_leaf_tree();
    let q = d32(0x25);
    let mp_a = path(&leaves, &level1, 1);
    let mp_b = path(&leaves, &level1, 2);
    let r = verify_inner(&q, &recs[1], &mp_a, &recs[2], &mp_b, &dig(&root));
    assert_eq!(r, Ok(()));
}

#[test]
fn inner_noninclusion_rejects_non_adjacent_bracket() {
    let (recs, leaves, level1, root) = four_leaf_tree();
    // Keys 0x10 and 0x40 bracket 0x25 numerically, but leaves 0 and 3 are
    // not tree-adjacent.
    let q = d32(0x25);
    let mp_a = path(&leaves, &level1, 0);
    let mp_b = path(&leaves, &level1, 3);
    let r = verify_inner(&q, &recs[0], &mp_a, &recs[3], &mp_b, &dig(&root));
    assert_eq!(r, Err(VerifyError::OrderingViolation));
}

#[test]
fn left_noninclusion_succeeds_before_first_leaf() {
    let (recs, leaves, level1, root) = four_leaf_tree();
    let q = d32(0x05);
    let mp = path(&leaves, &level1, 0);
    let r = verify_left(&q, &recs[0], &mp, &dig(&root));
    assert_eq!(r, Ok(()));
}

#[test]
fn right_noninclusion_succeeds_after_last_leaf() {
    let (recs, leaves, level1, root) = four_leaf_tree();
    let q = d32(0x50);
    let mp = path(&leaves, &level1, 3);
    let list: Vec<Digest> = leaves.iter().map(|l| dig(l)).collect();
    let r = verify_right(&q, &recs[3], &mp, &list, &dig(&root));
    assert_eq!(r, Ok(()));
}

#[test]
fn exactly_one_variant_applies_to_an_absent_key() {
    let (recs, leaves, level1, root) = four_leaf_tree();
    let droot = dig(&root);
    let list: Vec<Digest> = leaves.iter().map(|l| dig(l)).collect();
    // Absent key between the second and third leaves: only Inner holds.
    let q_mid = d32(0x25);
    let inner = verify_inner(
        &q_mid,
        &recs[1],
        &path(&leaves, &level1, 1),
        &recs[2],
        &path(&leaves, &level1, 2),
        &droot,
    );
    assert_eq!(inner, Ok(()));
    let left = verify_left(&q_mid, &recs[0], &path(&leaves, &level1, 0), &droot);
    assert_eq!(left, Err(VerifyError::OrderingViolation));
    let right = verify_right(&q_mid, &recs[3], &path(&leaves, &level1, 3), &list, &droot);
    assert_eq!(right, Err(VerifyError::OrderingViolation));
    // Absent key before every leaf: only Left holds.
    let q_lo = d32(0x05);
    let left = verify_left(&q_lo, &recs[0], &path(&leaves, &level1, 0), &droot);
    assert_eq!(left, Ok(()));
    let inner = verify_inner(
        &q_lo,
        &recs[1],
        &path(&leaves, &level1, 1),
        &recs[2],
        &path(&leaves, &level1, 2),
        &droot,
    );
    assert_eq!(inner, Err(VerifyError::OrderingViolation));
    let right = verify_right(&q_lo, &recs[3], &path(&leaves, &level1, 3), &list, &droot);
    assert_eq!(right, Err(VerifyError::OrderingViolation));
    // Absent key after every leaf: only Right holds.
    let q_hi = d32(0x50);
    let right = verify_right(&q_hi, &recs[3], &path(&leaves, &level1, 3), &list, &droot);
    assert_eq!(right, Ok(()));
    let left = verify_left(&q_hi, &recs[0], &path(&leaves, &level1, 0), &droot);
    assert_eq!(left, Err(VerifyError::OrderingViolation));
    let inner = verify_inner(
        &q_hi,
        &recs[1],
        &path(&leaves, &level1, 1),
        &recs[2],
        &path(&leaves, &level1, 2),
        &droot,
    );
    assert_eq!(inner, Err(VerifyError::OrderingViolation));
}

#[test]
fn right_noninclusion_succeeds_in_odd_tree() {
    // Five leaves: the leaf count is not a power of two, so the last leaf
    // pairs with itself on the two lowest levels; its honest witness must
    // still be accepted.
    let recs: Vec<AccountRecord> =
        vec![record(0x10), record(0x20), record(0x30), record(0x40), record(0x50)];
    let leaves: Vec<Vec<u8>> = recs.iter().map(manual_leaf).collect();
    let h01 = manual_pair(&leaves[0], &leaves[1]);
    let h23 = manual_pair(&leaves[2], &leaves[3]);
    let h44 = manual_pair(&leaves[4], &leaves[4]);
    let g0 = manual_pair(&h01, &h23);
    let g1 = manual_pair(&h44, &h44);
    let root = manual_pair(&g0, &g1);
    let mp = MerkleProof { index: 4, siblings: vec![dig(&leaves[4]), dig(&h44), dig(&g0)] };
    let list: Vec<Digest> = leaves.iter().map(|l| dig(l)).collect();
    let q = d32(0x60);
    let r = verify_right(&q, &recs[4], &mp, &list, &dig(&root));
    assert_eq!(r, Ok(()));
    // A key that does not sort after the last leaf is still rejected.
    let r2 = verify_right(&d32(0x45), &recs[4], &mp, &list, &dig(&root));
    assert_eq!(r2, Err(VerifyError::OrderingViolation));
}

#[test]
fn truncated_leaf_list_fails_with_size_mismatch() {
    let (recs, leaves, level1, root) = four_leaf_tree();
    let q = d32(0x50);
    let mp = path(&leaves, &level1, 3);
    // The path alone still validates against the root; only the full
    // leaf-digest list betrays the wrong tree size.
    let leaf = encode_leaf(&recs[3]);
    assert_eq!(reconstruct_root(&leaf, mp.index, &mp.siblings).bytes, root);
    let truncated: Vec<Digest> = leaves[..3].iter().map(|l| dig(l)).collect();
    let r = verify_right(&q, &recs[3], &mp, &truncated, &dig(&root));
    assert_eq!(r, Err(VerifyError::SizeMismatch));
}

#[test]
fn bank_hash_matches_independent_fixture() {
    let (_, _, _, root) = four_leaf_tree();
    let parent = d32_tail(1);
    let blockhash = d32_tail(2);
    let num_sigs: u64 = 3;
    let got = reconstruct_bank_hash(&parent, &dig(&root), num_sigs, &blockhash);
    let mut buf = Vec::new();
    buf.extend_from_slice(&parent.bytes);
    buf.extend_from_slice(&root);
    buf.extend_from_slice(&num_sigs.to_le_bytes());
    buf.extend_from_slice(&blockhash.bytes);
    assert_eq!(got.bytes, sha(&buf));
}

#[test]
fn each_bank_hash_field_changes_the_result() {
    let (_, _, _, root) = four_leaf_tree();
    let parent = d32_tail(1);
    let blockhash = d32_tail(2);
    let base = reconstruct_bank_hash(&parent, &dig(&root), 3, &blockhash);
    let p2 = reconstruct_bank_hash(&d32_tail(9), &dig(&root), 3, &blockhash);
    assert_ne!(base.bytes, p2.bytes);
    let r2 = reconstruct_bank_hash(&parent, &d32(0x77), 3, &blockhash);
    assert_ne!(base.bytes, r2.bytes);
    let n2 = reconstruct_bank_hash(&parent, &dig(&root), 4, &blockhash);
    assert_ne!(base.bytes, n2.bytes);
    let b2 = reconstruct_bank_hash(&parent, &dig(&root), 3, &d32_tail(9));
    assert_ne!(base.bytes, b2.bytes);
}

#[test]
fn valid_update_with_inclusion_proof_succeeds() {
    let (recs, leaves, level1, root) = four_leaf_tree();
    let parent = d32_tail(1);
    let blockhash = d32_tail(2);
    let num_sigs: u64 = 3;
    let bank_hash = reconstruct_bank_hash(&parent, &dig(&root), num_sigs, &blockhash);
    let update = Update {
        slot: 7,
        root: bank_hash,
        proof: BankHashProof {
            proofs: vec![AccountDeltaProof::Inclusion(
                recs[2].pubkey.duplicate(),
                (record(0x30), path(&leaves, &level1, 2)),
            )],
            num_sigs,
            account_delta_root: dig(&root),
            parent_bankhash: parent,
            blockhash,
        },
    };
    let out = verify_update(&update);
    assert!(out.ok);
    assert!(out.bank_hash_ok);
    assert_eq!(out.slot, 7);
    assert_eq!(out.outcomes.len(), 1);
    assert_eq!(out.outcomes[0].result, Ok(()));
    assert!(matches!(out.outcomes[0].kind, ProofKind::Inclusion));
    assert_eq!(out.outcomes[0].pubkey.bytes, recs[2].pubkey.bytes);
}

#[test]
fn bank_hash_mismatch_is_reported_not_thrown() {
    let (recs, leaves, level1, root) = four_leaf_tree();
    let ctx = VerificationContext {
        bank_hash: d32(0xEE),
        num_sigs: 3,
        account_delta_root: dig(&root),
        parent_bankhash: d32_tail(1),
        blockhash: d32_tail(2),
    };
    let p = AccountDeltaProof::Inclusion(
        recs[2].pubkey.duplicate(),
        (record(0x30), path(&leaves, &level1, 2)),
    );
    assert_eq!(verify_proof_against_bankhash(&p, &ctx), Err(VerifyError::BankHashMismatch));
    assert!(!ctx.check_bank_hash());
}

#[test]
fn batch_of_five_reports_single_failure_in_order() {
    let (recs, leaves, level1, root) = four_leaf_tree();
    let parent = d32_tail(1);
    let blockhash = d32_tail(2);
    let num_sigs: u64 = 3;
    let bank_hash = reconstruct_bank_hash(&parent, &dig(&root), num_sigs, &blockhash);
    let mut tampered = path(&leaves, &level1, 3);
    tampered.siblings[1].bytes[5] ^= 0x40;
    let list: Vec<Digest> = leaves.iter().map(|l| dig(l)).collect();
    let proofs = vec![
        AccountDeltaProof::Inclusion(
            recs[0].pubkey.duplicate(),
            (record(0x10), path(&leaves, &level1, 0)),
        ),
        AccountDeltaProof::Inclusion(
            recs[1].pubkey.duplicate(),
            (record(0x20), path(&leaves, &level1, 1)),
        ),
        AccountDeltaProof::NonInclusionLeft(d32(0x05), (record(0x10), path(&leaves, &level1, 0))),
        AccountDeltaProof::Inclusion(recs[3].pubkey.duplicate(), (record(0x40), tampered)),
        AccountDeltaProof::NonInclusionRight(
            d32(0x50),
            (record(0x40), path(&leaves, &level1, 3), list),
        ),
    ];
    let update = Update {
        slot: 9,
        root: bank_hash,
        proof: BankHashProof {
            proofs,
            num_sigs,
            account_delta_root: dig(&root),
            parent_bankhash: parent,
            blockhash,
        },
    };
    let out = verify_update(&update);
    assert_eq!(out.outcomes.len(), 5);
    assert!(out.bank_hash_ok);
    assert!(!out.ok);
    for (i, entry) in out.outcomes.iter().enumerate() {
        if i == 3 {
            assert_eq!(entry.result, Err(VerifyError::RootMismatch));
        } else {
            assert_eq!(entry.result, Ok(()));
        }
    }
}

#[test]
fn routing_matches_variant_checkers() {
    let (recs, leaves, level1, root) = four_leaf_tree();
    let droot = dig(&root);
    let p = AccountDeltaProof::NonInclusionInner(
        d32(0x25),
        (
            (record(0x20), path(&leaves, &level1, 1)),
            (record(0x30), path(&leaves, &level1, 2)),
        ),
    );
    assert_eq!(verify_proof(&p, &droot), Ok(()));
    let p2 = AccountDeltaProof::NonInclusionLeft(d32(0x15), (record(0x10), path(&leaves, &level1, 0)));
    assert_eq!(verify_proof(&p2, &droot), Err(VerifyError::OrderingViolation));
}
