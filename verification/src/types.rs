//! Core data model: digests, account records, Merkle proofs, the proof
//! variants of an update, and the error kinds a verification can report.

use vstd::prelude::*;

verus! {

/// A 32-byte value: a hash digest or an account's public key.
#[derive(Clone, Debug)]
pub struct Digest {
    pub bytes: Vec<u8>,
}

impl View for Digest {
    type V = Seq<u8>;

    open spec fn view(&self) -> Seq<u8> {
        self.bytes@
    }
}

impl Digest {
    /// A digest is well formed when it holds exactly 32 bytes.
    pub open spec fn wf(&self) -> bool {
        self@.len() == 32
    }

    /// Copies the digest byte for byte.
    pub fn duplicate(&self) -> (d: Digest)
        ensures
            d@ == self@,
    {
        let n = self.bytes.len();
        let mut bytes: Vec<u8> = Vec::new();
        let mut i: usize = 0;
        while i < n
            invariant
                n == self@.len(),
                0 <= i <= n,
                bytes@ == self@.take(i as int),
            decreases n - i,
        {
            bytes.push(self.bytes[i]);
            assert(self@.take(i as int).push(self@[i as int]) =~= self@.take(i + 1));
            i = i + 1;
        }
        assert(self@.take(n as int) =~= self@);
        Digest { bytes }
    }
}

/// Compares two digests byte for byte.
pub fn digest_eq(a: &Digest, b: &Digest) -> (r: bool)
    ensures
        r == (a@ == b@),
{
    if a.bytes.len() != b.bytes.len() {
        assert(a@.len() != b@.len());
        return false;
    }
    let n = a.bytes.len();
    let mut i: usize = 0;
    while i < n
        invariant
            n == a@.len(),
            n == b@.len(),
            0 <= i <= n,
            forall|j: int| 0 <= j < i ==> a@[j] == b@[j],
        decreases n - i,
    {
        if a.bytes[i] != b.bytes[i] {
            return false;
        }
        i = i + 1;
    }
    assert(a@ =~= b@);
    true
}

/// One account's contribution to the delta: its key, the digest of its
/// state, and an opaque metadata blob.
#[derive(Clone, Debug)]
pub struct AccountRecord {
    pub pubkey: Digest,
    pub state_hash: Digest,
    pub metadata: Vec<u8>,
}

impl AccountRecord {
    pub open spec fn wf(&self) -> bool {
        self.pubkey.wf() && self.state_hash.wf()
    }
}

/// Sibling digests from a leaf up to the root, together with the leaf's
/// index; the position bit at each level is the parity of the index as it
/// halves on the way up.
#[derive(Clone, Debug)]
pub struct MerkleProof {
    pub index: u64,
    pub siblings: Vec<Digest>,
}

impl MerkleProof {
    pub open spec fn wf(&self) -> bool {
        forall|i: int| 0 <= i < self.siblings@.len() ==> (#[trigger] self.siblings@[i]).wf()
    }
}

/// The closed set of proof variants an update may carry for one account.
#[derive(Debug)]
pub enum AccountDeltaProof {
    /// The account is in the delta: its record plus a Merkle path.
    Inclusion(Digest, (AccountRecord, MerkleProof)),
    /// The account is absent: two tree-adjacent leaves bracket its key.
    NonInclusionInner(Digest, ((AccountRecord, MerkleProof), (AccountRecord, MerkleProof))),
    /// The account is absent: its key sorts before the leftmost leaf.
    NonInclusionLeft(Digest, (AccountRecord, MerkleProof)),
    /// The account is absent: its key sorts after the rightmost leaf; the
    /// full leaf-digest list pins the tree's size.
    NonInclusionRight(Digest, (AccountRecord, MerkleProof, Vec<Digest>)),
}

impl AccountDeltaProof {
    /// The queried public key the variant speaks of.
    pub open spec fn spec_pubkey(&self) -> Seq<u8> {
        match self {
            AccountDeltaProof::Inclusion(pk, _) => pk@,
            AccountDeltaProof::NonInclusionInner(pk, _) => pk@,
            AccountDeltaProof::NonInclusionLeft(pk, _) => pk@,
            AccountDeltaProof::NonInclusionRight(pk, _) => pk@,
        }
    }

    pub open spec fn spec_kind(&self) -> ProofKind {
        match self {
            AccountDeltaProof::Inclusion(..) => ProofKind::Inclusion,
            AccountDeltaProof::NonInclusionInner(..) => ProofKind::NonInclusionInner,
            AccountDeltaProof::NonInclusionLeft(..) => ProofKind::NonInclusionLeft,
            AccountDeltaProof::NonInclusionRight(..) => ProofKind::NonInclusionRight,
        }
    }
}

/// The proofs of one update together with the shared fields that feed the
/// bank hash.
#[derive(Debug)]
pub struct BankHashProof {
    pub proofs: Vec<AccountDeltaProof>,
    pub num_sigs: u64,
    pub account_delta_root: Digest,
    pub parent_bankhash: Digest,
    pub blockhash: Digest,
}

/// One decoded update: the slot, the claimed bank hash, and the proofs.
#[derive(Debug)]
pub struct Update {
    pub slot: u64,
    pub root: Digest,
    pub proof: BankHashProof,
}

/// Why one proof, or the bank-hash recombination, was rejected.
#[derive(Clone, Copy, Debug, PartialEq, Eq, Structural)]
pub enum VerifyError {
    /// Structural inconsistency: a digest of the wrong width, or a path
    /// length that does not fit the leaf index.
    MalformedProof,
    /// The reconstructed Merkle root differs from the expected delta root.
    RootMismatch,
    /// A non-inclusion adjacency or boundary ordering check failed.
    OrderingViolation,
    /// The recombined bank hash differs from the claimed value.
    BankHashMismatch,
    /// The right-boundary recomputation over the full leaf list failed.
    SizeMismatch,
}

/// The variant tag of a proof, kept in its outcome for reporting.
#[derive(Clone, Copy, Debug, PartialEq, Eq, Structural)]
pub enum ProofKind {
    Inclusion,
    NonInclusionInner,
    NonInclusionLeft,
    NonInclusionRight,
}

/// The outcome of one proof: which variant it was, which key it spoke of,
/// and whether it held.
#[derive(Debug)]
pub struct ProofOutcome {
    pub kind: ProofKind,
    pub pubkey: Digest,
    pub result: Result<(), VerifyError>,
}

/// The outcome of one update: one entry per proof in input order, the
/// bank-hash recombination result, and the overall verdict.
#[derive(Debug)]
pub struct UpdateOutcome {
    pub slot: u64,
    pub outcomes: Vec<ProofOutcome>,
    pub bank_hash_ok: bool,
    pub ok: bool,
}

} // verus!
