//! The protocol's canonical hash function and everything built directly on
//! it: the order-sensitive pair combiner, the leaf encoder, and the
//! bank-hash recombination.

use vstd::prelude::*;

use crate::types::{AccountRecord, Digest};

verus! {

/// The SHA-256 digest of a byte sequence; the protocol's canonical hash.
pub uninterp spec fn sha256_of(data: Seq<u8>) -> Seq<u8>;

/// Relies on sha2::Sha256 through digest's `Digest::digest`: one 32-byte
/// SHA-256 digest, determined by the input bytes alone.
#[verifier::external_body]
fn sha256(data: &Vec<u8>) -> (d: Digest)
    ensures
        d@ == sha256_of(data@),
        d@.len() == 32,
{
    let out = <sha2::Sha256 as sha2::Digest>::digest(data.as_slice());
    Digest { bytes: out.to_vec() }
}

/// Appends every byte of `src` to `dst`.
fn push_bytes(dst: &mut Vec<u8>, src: &Vec<u8>)
    ensures
        final(dst)@ == old(dst)@ + src@,
{
    let n = src.len();
    let mut i: usize = 0;
    while i < n
        invariant
            n == src@.len(),
            0 <= i <= n,
            dst@ == old(dst)@ + src@.take(i as int),
        decreases n - i,
    {
        dst.push(src[i]);
        assert(src@.take(i as int).push(src@[i as int]) =~= src@.take(i + 1));
        i = i + 1;
    }
    assert(src@.take(n as int) =~= src@);
}

/// The digest of an ordered pair of nodes: `H(left || right)`.
pub open spec fn combine(left: Seq<u8>, right: Seq<u8>) -> Seq<u8> {
    sha256_of(left + right)
}

/// Hashes two child digests into their parent, left before right.
pub fn hash_pair(left: &Digest, right: &Digest) -> (d: Digest)
    ensures
        d@ == combine(left@, right@),
        d.wf(),
{
    let mut buf: Vec<u8> = Vec::new();
    push_bytes(&mut buf, &left.bytes);
    push_bytes(&mut buf, &right.bytes);
    assert(buf@ =~= left@ + right@);
    sha256(&buf)
}

/// The canonical leaf layout for one account record: its key, its state
/// digest, then its metadata.
pub open spec fn leaf_bytes(rec: AccountRecord) -> Seq<u8> {
    rec.pubkey@ + rec.state_hash@ + rec.metadata@
}

/// The canonical leaf digest of one account record.
pub open spec fn spec_leaf_digest(rec: AccountRecord) -> Seq<u8> {
    sha256_of(leaf_bytes(rec))
}

/// Builds the canonical leaf digest for one account record.
pub fn encode_leaf(rec: &AccountRecord) -> (d: Digest)
    ensures
        d@ == spec_leaf_digest(*rec),
        d.wf(),
{
    let mut buf: Vec<u8> = Vec::new();
    push_bytes(&mut buf, &rec.pubkey.bytes);
    push_bytes(&mut buf, &rec.state_hash.bytes);
    push_bytes(&mut buf, &rec.metadata);
    assert(buf@ =~= leaf_bytes(*rec));
    sha256(&buf)
}

/// The exact byte string the bank hash is computed over: parent bank hash,
/// account delta root, the signature count in eight little-endian bytes,
/// then the blockhash.
pub open spec fn bank_hash_input(
    parent_bankhash: Seq<u8>,
    account_delta_root: Seq<u8>,
    num_sigs: u64,
    blockhash: Seq<u8>,
) -> Seq<u8> {
    parent_bankhash + account_delta_root + vstd::bytes::spec_u64_to_le_bytes(num_sigs) + blockhash
}

/// The canonical bank hash of a slot.
pub open spec fn spec_bank_hash(
    parent_bankhash: Seq<u8>,
    account_delta_root: Seq<u8>,
    num_sigs: u64,
    blockhash: Seq<u8>,
) -> Seq<u8> {
    sha256_of(bank_hash_input(parent_bankhash, account_delta_root, num_sigs, blockhash))
}

/// Recombines the four shared fields of an update into the canonical bank
/// hash.
pub fn reconstruct_bank_hash(
    parent_bankhash: &Digest,
    account_delta_root: &Digest,
    num_sigs: u64,
    blockhash: &Digest,
) -> (d: Digest)
    ensures
        d@ == spec_bank_hash(parent_bankhash@, account_delta_root@, num_sigs, blockhash@),
        d.wf(),
{
    let mut buf: Vec<u8> = Vec::new();
    push_bytes(&mut buf, &parent_bankhash.bytes);
    push_bytes(&mut buf, &account_delta_root.bytes);
    let sig_bytes = vstd::bytes::u64_to_le_bytes(num_sigs);
    push_bytes(&mut buf, &sig_bytes);
    push_bytes(&mut buf, &blockhash.bytes);
    assert(buf@ =~= bank_hash_input(parent_bankhash@, account_delta_root@, num_sigs, blockhash@));
    sha256(&buf)
}

/// Law: the bank-hash input separates its four fields. Two updates that
/// differ in the parent bank hash, the delta root, the signature count or
/// the blockhash feed distinct byte strings to the hash function, so a
/// collision between them would be a collision of the hash itself.
pub proof fn lemma_bank_hash_input_injective(
    pa: Seq<u8>,
    ra: Seq<u8>,
    na: u64,
    ba: Seq<u8>,
    pb: Seq<u8>,
    rb: Seq<u8>,
    nb: u64,
    bb: Seq<u8>,
)
    requires
        pa.len() == 32,
        ra.len() == 32,
        ba.len() == 32,
        pb.len() == 32,
        rb.len() == 32,
        bb.len() == 32,
        pa != pb || ra != rb || na != nb || ba != bb,
    ensures
        bank_hash_input(pa, ra, na, ba) != bank_hash_input(pb, rb, nb, bb),
{
    vstd::bytes::lemma_auto_spec_u64_to_from_le_bytes();
    let sa = vstd::bytes::spec_u64_to_le_bytes(na);
    let sb = vstd::bytes::spec_u64_to_le_bytes(nb);
    let ia = bank_hash_input(pa, ra, na, ba);
    let ib = bank_hash_input(pb, rb, nb, bb);
    if ia == ib {
        assert(pa =~= pb) by {
            assert(forall|k: int| 0 <= k < 32 ==> pa[k] == ia[k] && pb[k] == ib[k]);
        }
        assert(ra =~= rb) by {
            assert(forall|k: int| 0 <= k < 32 ==> ra[k] == ia[k + 32] && rb[k] == ib[k + 32]);
        }
        assert(sa =~= sb) by {
            assert(forall|k: int| 0 <= k < 8 ==> sa[k] == ia[k + 64] && sb[k] == ib[k + 64]);
        }
        assert(na == nb) by {
            assert(vstd::bytes::spec_u64_from_le_bytes(sa) == na);
            assert(vstd::bytes::spec_u64_from_le_bytes(sb) == nb);
        }
        assert(ba =~= bb) by {
            assert(forall|k: int| 0 <= k < 32 ==> ba[k] == ia[k + 72] && bb[k] == ib[k + 72]);
        }
        assert(false);
    }
}

} // verus!
