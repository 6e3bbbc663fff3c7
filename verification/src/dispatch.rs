//! The proof dispatcher: routes each proof variant to its checker against
//! the shared delta root, recombines the bank hash once per update, and
//! aggregates per-proof outcomes in input order.

use vstd::prelude::*;

use crate::checker::{
    spec_verify_inclusion, spec_verify_inner, spec_verify_left, spec_verify_right,
    verify_inclusion, verify_inner, verify_left, verify_right,
};
use crate::hash::{reconstruct_bank_hash, spec_bank_hash};
use crate::types::{
    digest_eq, AccountDeltaProof, Digest, ProofKind, ProofOutcome, Update, UpdateOutcome,
    VerifyError,
};

verus! {

/// The shared cryptographic values one update is verified against, grouped
/// so that no call can confuse their order.
pub struct VerificationContext {
    /// The claimed bank hash of the slot.
    pub bank_hash: Digest,
    /// The number of signatures in the slot.
    pub num_sigs: u64,
    /// The expected root of the account-delta tree.
    pub account_delta_root: Digest,
    /// The bank hash of the parent slot.
    pub parent_bankhash: Digest,
    /// The last blockhash of the slot.
    pub blockhash: Digest,
}

impl VerificationContext {
    /// Whether the four shared fields recombine to the claimed bank hash.
    pub open spec fn spec_bank_hash_ok(&self) -> bool {
        spec_bank_hash(
            self.parent_bankhash@,
            self.account_delta_root@,
            self.num_sigs,
            self.blockhash@,
        ) == self.bank_hash@
    }

    /// Recombines the shared fields and compares them to the claimed bank
    /// hash; a mismatch is a reported outcome, never a panic.
    pub fn check_bank_hash(&self) -> (r: bool)
        ensures
            r == self.spec_bank_hash_ok(),
    {
        let reconstructed = reconstruct_bank_hash(
            &self.parent_bankhash,
            &self.account_delta_root,
            self.num_sigs,
            &self.blockhash,
        );
        digest_eq(&reconstructed, &self.bank_hash)
    }

    /// The context an update carries.
    pub fn of_update(update: &Update) -> (ctx: VerificationContext)
        ensures
            ctx.bank_hash@ == update.root@,
            ctx.num_sigs == update.proof.num_sigs,
            ctx.account_delta_root@ == update.proof.account_delta_root@,
            ctx.parent_bankhash@ == update.proof.parent_bankhash@,
            ctx.blockhash@ == update.proof.blockhash@,
    {
        VerificationContext {
            bank_hash: update.root.duplicate(),
            num_sigs: update.proof.num_sigs,
            account_delta_root: update.proof.account_delta_root.duplicate(),
            parent_bankhash: update.proof.parent_bankhash.duplicate(),
            blockhash: update.proof.blockhash.duplicate(),
        }
    }
}

/// The verdict on one proof against a delta root, by variant.
pub open spec fn spec_verify_proof(p: AccountDeltaProof, delta_root: Seq<u8>) -> Result<(), VerifyError> {
    match p {
        AccountDeltaProof::Inclusion(pk, entry) => spec_verify_inclusion(
            pk@,
            entry.0,
            entry.1,
            delta_root,
        ),
        AccountDeltaProof::NonInclusionInner(pk, entries) => {
            spec_verify_inner(
                pk@,
                entries.0.0,
                entries.0.1,
                entries.1.0,
                entries.1.1,
                delta_root,
            )
        },
        AccountDeltaProof::NonInclusionLeft(pk, entry) => spec_verify_left(
            pk@,
            entry.0,
            entry.1,
            delta_root,
        ),
        AccountDeltaProof::NonInclusionRight(pk, entry) => spec_verify_right(
            pk@,
            entry.0,
            entry.1,
            entry.2@,
            delta_root,
        ),
    }
}

/// Routes one proof to the checker of its variant, against the shared
/// delta root.
pub fn verify_proof(p: &AccountDeltaProof, delta_root: &Digest) -> (r: Result<
    (),
    VerifyError,
>)
    ensures
        r == spec_verify_proof(*p, delta_root@),
{
    match p {
        AccountDeltaProof::Inclusion(pk, (rec, mp)) => verify_inclusion(pk, rec, mp, delta_root),
        AccountDeltaProof::NonInclusionInner(pk, ((rec_a, mp_a), (rec_b, mp_b))) => {
            verify_inner(pk, rec_a, mp_a, rec_b, mp_b, delta_root)
        },
        AccountDeltaProof::NonInclusionLeft(pk, (rec, mp)) => verify_left(pk, rec, mp, delta_root),
        AccountDeltaProof::NonInclusionRight(pk, (rec, mp, leaves)) => verify_right(
            pk,
            rec,
            mp,
            leaves,
            delta_root,
        ),
    }
}

/// The verdict on one proof taken together with the bank-hash
/// recombination of its update's shared fields.
pub open spec fn spec_verify_proof_against_bankhash(
    p: AccountDeltaProof,
    ctx: VerificationContext,
) -> Result<(), VerifyError> {
    match spec_verify_proof(p, ctx.account_delta_root@) {
        Err(e) => Err(e),
        Ok(()) => if ctx.spec_bank_hash_ok() {
            Ok(())
        } else {
            Err(VerifyError::BankHashMismatch)
        },
    }
}

/// Checks one proof against the shared delta root and then the claimed
/// bank hash of its update.
pub fn verify_proof_against_bankhash(p: &AccountDeltaProof, ctx: &VerificationContext) -> (r:
    Result<(), VerifyError>)
    ensures
        r == spec_verify_proof_against_bankhash(*p, *ctx),
{
    match verify_proof(p, &ctx.account_delta_root) {
        Err(e) => Err(e),
        Ok(()) => {
            if ctx.check_bank_hash() {
                Ok(())
            } else {
                Err(VerifyError::BankHashMismatch)
            }
        },
    }
}

/// Whether a whole update verifies: every proof in the batch against the
/// shared delta root, and the shared fields against the claimed bank hash.
pub open spec fn spec_update_ok(update: Update) -> bool {
    &&& spec_bank_hash(
        update.proof.parent_bankhash@,
        update.proof.account_delta_root@,
        update.proof.num_sigs,
        update.proof.blockhash@,
    ) == update.root@
    &&& forall|i: int|
        0 <= i < update.proof.proofs@.len() ==> (#[trigger] spec_verify_proof(
            update.proof.proofs@[i],
            update.proof.account_delta_root@,
        )) is Ok
}

fn pubkey_of(p: &AccountDeltaProof) -> (pk: Digest)
    ensures
        pk@ == p.spec_pubkey(),
{
    match p {
        AccountDeltaProof::Inclusion(pk, _) => pk.duplicate(),
        AccountDeltaProof::NonInclusionInner(pk, _) => pk.duplicate(),
        AccountDeltaProof::NonInclusionLeft(pk, _) => pk.duplicate(),
        AccountDeltaProof::NonInclusionRight(pk, _) => pk.duplicate(),
    }
}

fn kind_of(p: &AccountDeltaProof) -> (k: ProofKind)
    ensures
        k == p.spec_kind(),
{
    match p {
        AccountDeltaProof::Inclusion(..) => ProofKind::Inclusion,
        AccountDeltaProof::NonInclusionInner(..) => ProofKind::NonInclusionInner,
        AccountDeltaProof::NonInclusionLeft(..) => ProofKind::NonInclusionLeft,
        AccountDeltaProof::NonInclusionRight(..) => ProofKind::NonInclusionRight,
    }
}

/// Verifies one decoded update: every proof is checked independently
/// against the shared delta root, in input order and past failures, and
/// the bank hash is recombined once; the outcome lists one entry per proof
/// and passes overall only when everything held.
pub fn verify_update(update: &Update) -> (out: UpdateOutcome)
    ensures
        out.slot == update.slot,
        out.outcomes@.len() == update.proof.proofs@.len(),
        forall|i: int|
            0 <= i < out.outcomes@.len() ==> {
                let entry = #[trigger] out.outcomes@[i];
                &&& entry.result == spec_verify_proof(
                    update.proof.proofs@[i],
                    update.proof.account_delta_root@,
                )
                &&& entry.kind == update.proof.proofs@[i].spec_kind()
                &&& entry.pubkey@ == update.proof.proofs@[i].spec_pubkey()
            },
        out.bank_hash_ok == (spec_bank_hash(
            update.proof.parent_bankhash@,
            update.proof.account_delta_root@,
            update.proof.num_sigs,
            update.proof.blockhash@,
        ) == update.root@),
        out.ok == spec_update_ok(*update),
{
    let ctx = VerificationContext::of_update(update);
    let bank_hash_ok = ctx.check_bank_hash();
    let n = update.proof.proofs.len();
    let mut outcomes: Vec<ProofOutcome> = Vec::new();
    let mut all_ok: bool = true;
    let mut i: usize = 0;
    while i < n
        invariant
            n == update.proof.proofs@.len(),
            ctx.account_delta_root@ == update.proof.account_delta_root@,
            0 <= i <= n,
            outcomes@.len() == i,
            forall|j: int|
                0 <= j < i ==> {
                    let entry = #[trigger] outcomes@[j];
                    &&& entry.result == spec_verify_proof(
                        update.proof.proofs@[j],
                        update.proof.account_delta_root@,
                    )
                    &&& entry.kind == update.proof.proofs@[j].spec_kind()
                    &&& entry.pubkey@ == update.proof.proofs@[j].spec_pubkey()
                },
            all_ok == forall|j: int|
                0 <= j < i ==> (#[trigger] spec_verify_proof(
                    update.proof.proofs@[j],
                    update.proof.account_delta_root@,
                )) is Ok,
        decreases n - i,
    {
        let entry_proof = &update.proof.proofs[i];
        let result = verify_proof(entry_proof, &ctx.account_delta_root);
        if result.is_err() {
            all_ok = false;
        }
        let entry = ProofOutcome { kind: kind_of(entry_proof), pubkey: pubkey_of(entry_proof), result };
        outcomes.push(entry);
        i = i + 1;
    }
    UpdateOutcome { slot: update.slot, outcomes, bank_hash_ok, ok: bank_hash_ok && all_ok }
}

} // verus!
