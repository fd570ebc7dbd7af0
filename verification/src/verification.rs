//! The receipt verifier, which a client runs.
//!
//! Allows verifying that a given ledger entry has been committed to a
//! LogCabin cohort. Three types of verification are supported:
//!
//! - **Read verification**: confirms that a `read_latest` response is backed
//!   by a quorum of endorser signatures over the client's nonce.
//! - **Append verification**: confirms that an `append_entry` operation of the
//!   client's entry was executed by a quorum of endorsers for its nonce.
//! - **Entry verification**: confirms that an entry is committed at the
//!   requested index, from entry receipts, which hold for good.
//!
//! The [`Verifier`] tracks a trusted cohort configuration
//! and can evolve its trust through cohort handovers.

use core::ops::Deref;
use vstd::prelude::*;

use crate::bytes;
use crate::cohort;
use crate::cohort::{CohortConfig, ConfigId};
use crate::crypto;
use crate::handover;
use crate::handover::{CohortHandover, HandoverError, HandoverView, QuorumError};
use crate::ledger::{EntryContents, LedgerBlock};
use crate::ledger_receipts::{LedgerReceipt, LedgerReceipts};
use crate::quorum;
use crate::receipts;

verus! {

/// Error returned by the `verify_` functions of [`Verifier`].
#[derive(Debug, Clone, Copy, PartialEq, Eq)]
pub enum VerifyError {
    /// No receipts were provided.
    NoReceipts,
    /// A `key_index` in the receipts exceeds the trusted config size.
    KeyIndexOutOfBounds,
    /// Two receipts have the same `key_index`.
    DuplicateKeyIndex,
    /// Not enough valid signatures to meet the quorum threshold.
    QuorumNotMet(QuorumError),
    /// The verified block index does not match the requested index
    /// (returned by [`Verifier::verify_entry`]).
    UnexpectedIndex {
        /// The index the caller expected.
        expected: u64,
        /// The index in the verified block.
        actual: u64,
    },
}

/// Whether some receipt refers to the key with this index.
pub open spec fn uses_key(receipts: Seq<LedgerReceipt>, key_index: int) -> bool {
    exists|i: int| 0 <= i < receipts.len() && (#[trigger] receipts[i]).key_index == key_index
}

/// What is wrong with the key indices of some receipts, taken in order: one is
/// out of bounds, or is used a second time.
pub open spec fn index_fault(receipts: Seq<LedgerReceipt>, cohort_size: nat) -> Option<VerifyError>
    decreases receipts.len(),
{
    if receipts.len() == 0 {
        None
    } else {
        let earlier = receipts.drop_last();
        let key_index = receipts.last().key_index;
        match index_fault(earlier, cohort_size) {
            Some(error) => Some(error),
            None => if key_index >= cohort_size {
                Some(VerifyError::KeyIndexOutOfBounds)
            } else if uses_key(earlier, key_index as int) {
                Some(VerifyError::DuplicateKeyIndex)
            } else {
                None
            },
        }
    }
}

/// Whether a receipt is for `block` and is a signature of `message` under the
/// key that it refers to.
pub open spec fn vouches(
    keys: Seq<Seq<u8>>,
    receipt: LedgerReceipt,
    block: LedgerBlock,
    message: Seq<u8>,
) -> bool {
    &&& receipt.block == block
    &&& crypto::ecdsa_verifies(keys[receipt.key_index as int], message, receipt.signature@)
}

/// How many receipts vouch for `block` and `message`.
pub open spec fn vouching_count(
    keys: Seq<Seq<u8>>,
    receipts: Seq<LedgerReceipt>,
    block: LedgerBlock,
    message: Seq<u8>,
) -> nat
    decreases receipts.len(),
{
    if receipts.len() == 0 {
        0
    } else {
        vouching_count(keys, receipts.drop_last(), block, message) + if vouches(
            keys,
            receipts.last(),
            block,
            message,
        ) {
            1nat
        } else {
            0nat
        }
    }
}

/// Whether the receipts show that a strict majority of the cohort signed
/// `message` for `block`: each key is used at most once, and enough of the
/// receipts vouch.
pub open spec fn accepted(
    keys: Seq<Seq<u8>>,
    receipts: Seq<LedgerReceipt>,
    block: LedgerBlock,
    message: Seq<u8>,
) -> bool {
    &&& index_fault(receipts, keys.len()) is None
    &&& quorum::strict_majority(vouching_count(keys, receipts, block, message), keys.len())
}

/// What receipts are presented for.
#[derive(Clone, Copy)]
pub enum Claim {
    /// That the ledger was at a block when it was read for a nonce.
    Read { nonce: u64 },
    /// That an append of an entry for a nonce gave a block.
    Append { entry: EntryContents, nonce: u64 },
    /// That a block is committed to.
    Entry,
}

impl Claim {
    /// Whether the claim can be about a block: an append is about a block with
    /// its entry.
    pub open spec fn admits(self, block: LedgerBlock) -> bool {
        match self {
            Claim::Append { entry, .. } => block.entry == entry,
            _ => true,
        }
    }

    /// The block that the claim is about, if the block of a receipt is as given:
    /// for an append, that block with its entry.
    pub open spec fn candidate_for(self, block: LedgerBlock) -> LedgerBlock {
        match self {
            Claim::Append { entry, .. } => LedgerBlock { entry, ..block },
            _ => block,
        }
    }

    /// The block that the claim is about, if the block of a receipt is as given.
    fn candidate(&self, block: &LedgerBlock) -> (candidate: LedgerBlock)
        ensures
            candidate == self.candidate_for(*block),
    {
        match self {
            Claim::Append { entry, .. } => LedgerBlock {
                entry: *entry,
                index: block.index,
                hash_chain_tail: block.hash_chain_tail,
            },
            _ => *block,
        }
    }
}

/// Stateful verifier for LogCabin endorser receipts.
///
/// Tracks a trusted [`CohortConfig`] and instance ID. Trust can be evolved
/// through cohort handovers via [`apply_handover`](Verifier::apply_handover),
/// and receipts can be verified against the current trusted config.
pub struct Verifier {
    /// The currently trusted cohort configuration.
    trusted_config: CohortConfig,
    /// The instance ID of the LogCabin service.
    instance_id: ConfigId,
}

/// What a verifier trusts: the keys of a cohort, and the instance it serves.
#[verifier::ext_equal]
pub struct VerifierView {
    pub config: Seq<Seq<u8>>,
    pub instance_id: Seq<u8>,
}

impl View for Verifier {
    type V = VerifierView;

    closed spec fn view(&self) -> VerifierView {
        VerifierView {
            config: self.trusted_config.key_seq(),
            instance_id: self.instance_id@,
        }
    }
}

impl VerifierView {
    /// Whether the handover is from the trusted cohort, by its ID.
    pub open spec fn is_from_trusted(self, handover: HandoverView) -> bool {
        cohort::config_id_of(handover.outgoing()) == cohort::config_id_of(self.config)
    }

    /// Whether the verifier follows the handover: it is from the trusted
    /// cohort, and both cohorts signed it.
    pub open spec fn follows(self, handover: HandoverView) -> bool {
        &&& self.is_from_trusted(handover)
        &&& handover.finalized(self.instance_id)
        &&& handover.activated(self.instance_id)
    }

    /// What a handover makes of the verifier: one that trusts the incoming
    /// cohort, or an error.
    pub open spec fn handover_verdict(self, handover: HandoverView) -> Result<
        VerifierView,
        HandoverError,
    > {
        if !self.is_from_trusted(handover) {
            Err(HandoverError::FinalizationConfigMismatch)
        } else {
            match handover.verdict(self.instance_id) {
                Ok(keys) => Ok(VerifierView { config: keys, ..self }),
                Err(error) => Err(error),
            }
        }
    }

    /// The message that a receipt for the claim and the block signs.
    pub open spec fn claim_message(self, claim: Claim, ledger_id: u32, block: LedgerBlock) -> Seq<
        u8,
    > {
        match claim {
            Claim::Read { nonce } => self.read_message(ledger_id, block, nonce),
            Claim::Append { nonce, .. } => self.append_message(ledger_id, block, nonce),
            Claim::Entry => self.entry_message(ledger_id, block),
        }
    }

    /// How many receipts vouch for the claim and the block.
    pub open spec fn vouching_for(
        self,
        claim: Claim,
        ledger_id: u32,
        receipts: Seq<LedgerReceipt>,
        block: LedgerBlock,
    ) -> nat {
        vouching_count(
            self.config,
            receipts,
            block,
            self.claim_message(claim, ledger_id, block),
        )
    }

    /// Whether the receipts show the claim for the block: the claim can be about
    /// the block, each key is used at most once, and a strict majority of the
    /// cohort vouches for it.
    pub open spec fn accepts(
        self,
        claim: Claim,
        ledger_id: u32,
        receipts: Seq<LedgerReceipt>,
        block: LedgerBlock,
    ) -> bool {
        &&& claim.admits(block)
        &&& accepted(
            self.config,
            receipts,
            block,
            self.claim_message(claim, ledger_id, block),
        )
    }

    /// The block of one of the first `n` receipts for which all of the receipts
    /// show the claim, if there is one.
    pub open spec fn majority_block(
        self,
        claim: Claim,
        ledger_id: u32,
        receipts: Seq<LedgerReceipt>,
        n: nat,
    ) -> Option<LedgerBlock>
        decreases n,
    {
        if n == 0 {
            None
        } else {
            match self.majority_block(claim, ledger_id, receipts, (n - 1) as nat) {
                Some(block) => Some(block),
                None => {
                    let block = claim.candidate_for(receipts[n - 1].block);
                    if self.accepts(claim, ledger_id, receipts, block) {
                        Some(block)
                    } else {
                        None
                    }
                },
            }
        }
    }

    /// What receipts for a claim come to: the block for which a strict majority
    /// vouches, whichever receipt comes first, or why they are rejected. If there
    /// is no such block, the count that is reported is that for the block of the
    /// first receipt.
    pub open spec fn verdict(self, claim: Claim, ledger_id: u32, receipts: Seq<LedgerReceipt>) -> Result<
        LedgerBlock,
        VerifyError,
    > {
        if receipts.len() == 0 {
            Err(VerifyError::NoReceipts)
        } else {
            match index_fault(receipts, self.config.len()) {
                Some(fault) => Err(fault),
                None => match self.majority_block(claim, ledger_id, receipts, receipts.len()) {
                    Some(block) => Ok(block),
                    None => Err(
                        VerifyError::QuorumNotMet(
                            handover::quorum_error(
                                self.vouching_for(
                                    claim,
                                    ledger_id,
                                    receipts,
                                    claim.candidate_for(receipts[0].block),
                                ),
                                self.config.len(),
                            ),
                        ),
                    ),
                },
            }
        }
    }

    /// What read receipts come to.
    pub open spec fn read_verdict(
        self,
        receipts: Seq<LedgerReceipt>,
        nonce: u64,
        ledger_id: u32,
    ) -> Result<LedgerBlock, VerifyError> {
        self.verdict(Claim::Read { nonce }, ledger_id, receipts)
    }

    /// What append receipts come to.
    pub open spec fn append_verdict(
        self,
        receipts: Seq<LedgerReceipt>,
        entry: EntryContents,
        nonce: u64,
        ledger_id: u32,
    ) -> Result<LedgerBlock, VerifyError> {
        self.verdict(Claim::Append { entry, nonce }, ledger_id, receipts)
    }

    /// What entry receipts come to.
    pub open spec fn entry_verdict(
        self,
        receipts: Seq<LedgerReceipt>,
        requested_index: u64,
        ledger_id: u32,
    ) -> Result<LedgerBlock, VerifyError> {
        match self.verdict(Claim::Entry, ledger_id, receipts) {
            Err(error) => Err(error),
            Ok(block) => if block.index == requested_index {
                Ok(block)
            } else {
                Err(
                    VerifyError::UnexpectedIndex {
                        expected: requested_index,
                        actual: block.index,
                    },
                )
            },
        }
    }

    /// The message that a read receipt of the block signs.
    pub open spec fn read_message(self, ledger_id: u32, block: LedgerBlock, nonce: u64) -> Seq<
        u8,
    > {
        receipts::read_message(self.instance_id, ledger_id, block, nonce)
    }

    /// The message that an append receipt of the block signs.
    pub open spec fn append_message(self, ledger_id: u32, block: LedgerBlock, nonce: u64) -> Seq<
        u8,
    > {
        receipts::append_message(self.instance_id, ledger_id, block, nonce)
    }

    /// The message that an entry receipt of the block signs.
    pub open spec fn entry_message(self, ledger_id: u32, block: LedgerBlock) -> Seq<u8> {
        receipts::entry_message(self.instance_id, ledger_id, block)
    }
}

impl Verifier {
    /// Creates a new verifier trusting the given initial cohort.
    ///
    /// This is used for the case where the given config is the initial config
    /// for the cohort. The instance ID is derived from it: SHA-256 of the
    /// concatenated SEC1 verifying keys.
    pub fn new(trusted_config: CohortConfig) -> (verifier: Self)
        ensures
            verifier@ == (VerifierView {
                config: trusted_config.key_seq(),
                instance_id: trusted_config.id(),
            }),
    {
        Verifier { instance_id: trusted_config.config_id(), trusted_config }
    }

    /// Creates a new verifier trusting the given cohort and instance ID.
    ///
    /// Use this when the trusted config is *not* the first cohort of the
    /// instance: the instance started with a different cohort and
    /// has since evolved, but the verifier trusts that this instance_id
    /// belongs to this cohort.
    pub fn new_with_instance_id(trusted_config: CohortConfig, instance_id: ConfigId) -> (verifier:
        Self)
        ensures
            verifier@ == (VerifierView {
                config: trusted_config.key_seq(),
                instance_id: instance_id@,
            }),
    {
        Verifier { trusted_config, instance_id }
    }

    /// Returns the currently trusted cohort configuration.
    pub fn trusted_config(&self) -> (config: &CohortConfig)
        ensures
            config.key_seq() == self@.config,
    {
        &self.trusted_config
    }

    /// Returns the instance ID.
    pub fn instance_id(&self) -> (id: &ConfigId)
        ensures
            id@ == self@.instance_id,
    {
        &self.instance_id
    }

    /// Processes a cohort handover: checks that the finalization matches the
    /// current trusted config, then delegates internal handover verification
    /// to [`CohortHandover::verify`] and evolves the trusted config.
    pub fn apply_handover(&mut self, handover: CohortHandover) -> (applied: Result<
        (),
        HandoverError,
    >)
        ensures
            match applied {
                Ok(_) => old(self)@.handover_verdict(handover@) == Ok::<_, HandoverError>(
                    final(self)@,
                ),
                Err(error) => {
                    &&& old(self)@.handover_verdict(handover@) == Err::<VerifierView, _>(error)
                    &&& final(self)@ == old(self)@
                },
            },
    {
        // Handover must be from our currently trusted cohort.
        proof {
            quorum::lemma_entry_keys(handover.finalization@);
        }
        let outgoing_id = handover.finalization.config_id();
        let trusted_id = self.trusted_config.config_id();
        if !bytes::same_bytes(outgoing_id.as_slice(), trusted_id.as_slice()) {
            return Err(HandoverError::FinalizationConfigMismatch);
        }

        // Internal cryptographic verification of handover including both quorums.
        match handover.verify(&self.instance_id) {
            Ok(new_config) => {
                // Evolve trust. Instance ID does not change.
                self.trusted_config = new_config;
                Ok(())
            },
            Err(error) => Err(error),
        }
    }

    /// Verifies a set of ReadLatest receipts against the current trusted
    /// cohort configuration.
    ///
    /// Verification checks that a strict majority (quorum) of endorsers in
    /// the currently trusted config have signed a ledger block agreeing on
    /// the same entry, entry index, and hash chain tail values, as well as
    /// the client-supplied `nonce`. The caller should pass the same nonce
    /// it originally sent to the service.
    ///
    /// This includes checking that ledger receipts are signed by unique keys,
    /// i.e., each endorser key is used at most once. Instead of providing
    /// the actual keys, key indices to the trusted_config are provided, which
    /// guarantees only trusted keys are used.
    ///
    /// Returns the verified ledger block if quorum is met, whichever receipt
    /// comes first: a minority that disagrees does not count against it.
    pub fn verify_read_latest(
        &self,
        ledger_receipts: &LedgerReceipts,
        nonce: u64,
        ledger_id: u32,
    ) -> (verified: Result<LedgerBlock, VerifyError>)
        ensures
            verified == self@.read_verdict(ledger_receipts@, nonce, ledger_id),
            forall|block: LedgerBlock|
                verified == Ok::<_, VerifyError>(block) <==> #[trigger] self@.accepts(
                    Claim::Read { nonce },
                    ledger_id,
                    ledger_receipts@,
                    block,
                ),
    {
        proof {
            law_verdict_is_the_majoritys(
                self@,
                Claim::Read { nonce },
                ledger_id,
                ledger_receipts@,
            );
        }
        self.verify_ledger_receipts(ledger_receipts, &Claim::Read { nonce }, ledger_id)
    }

    /// Verifies a set of AppendEntry receipts against the current trusted
    /// cohort configuration.
    ///
    /// Checks quorum as `verify_read_latest` does, over the message that an
    /// append of the caller's own `entry` for its own `nonce` signs: a receipt
    /// for another entry or another nonce does not count. The index is not
    /// checked, since clients append unconditionally and do not track indices.
    ///
    /// Returns the verified ledger block if quorum is met.
    pub fn verify_append(
        &self,
        ledger_receipts: &LedgerReceipts,
        entry: &EntryContents,
        nonce: u64,
        ledger_id: u32,
    ) -> (verified: Result<LedgerBlock, VerifyError>)
        ensures
            verified == self@.append_verdict(ledger_receipts@, *entry, nonce, ledger_id),
            forall|block: LedgerBlock|
                verified == Ok::<_, VerifyError>(block) <==> #[trigger] self@.accepts(
                    Claim::Append { entry: *entry, nonce },
                    ledger_id,
                    ledger_receipts@,
                    block,
                ),
    {
        let claim = Claim::Append { entry: *entry, nonce };
        proof {
            law_verdict_is_the_majoritys(self@, claim, ledger_id, ledger_receipts@);
        }
        self.verify_ledger_receipts(ledger_receipts, &claim, ledger_id)
    }

    /// Verifies a set of entry receipts against the current trusted cohort
    /// configuration.
    ///
    /// In addition to checking quorum (same as `verify_read_latest`), this
    /// verifies that the entry has the caller-supplied `requested_index`.
    ///
    /// Returns the verified ledger block if quorum is met and the index
    /// matches.
    pub fn verify_entry(
        &self,
        ledger_receipts: &LedgerReceipts,
        requested_index: u64,
        ledger_id: u32,
    ) -> (verified: Result<LedgerBlock, VerifyError>)
        ensures
            verified == self@.entry_verdict(ledger_receipts@, requested_index, ledger_id),
            forall|block: LedgerBlock|
                verified == Ok::<_, VerifyError>(block) <==> #[trigger] self@.accepts(
                    Claim::Entry,
                    ledger_id,
                    ledger_receipts@,
                    block,
                ) && block.index == requested_index,
    {
        proof {
            law_verdict_is_the_majoritys(self@, Claim::Entry, ledger_id, ledger_receipts@);
        }
        match self.verify_ledger_receipts(ledger_receipts, &Claim::Entry, ledger_id) {
            Ok(block) => {
                if block.index != requested_index {
                    return Err(
                        VerifyError::UnexpectedIndex {
                            expected: requested_index,
                            actual: block.index,
                        },
                    );
                }
                Ok(block)
            },
            Err(error) => Err(error),
        }
    }

    /// Common verification logic for ledger receipts.
    ///
    /// Checks key index bounds and uniqueness via a bitmap, looks for a block
    /// that a quorum of endorsers signed for the claim, and returns it.
    fn verify_ledger_receipts(
        &self,
        ledger_receipts: &LedgerReceipts,
        claim: &Claim,
        ledger_id: u32,
    ) -> (verified: Result<LedgerBlock, VerifyError>)
        ensures
            verified == self@.verdict(*claim, ledger_id, ledger_receipts@),
    {
        let receipts = ledger_receipts.deref();
        let cohort_size = self.trusted_config.len();
        if receipts.len() == 0 {
            return Err(VerifyError::NoReceipts);
        }
        match check_key_indices(receipts, cohort_size) {
            Ok(_) => {},
            Err(fault) => {
                return Err(fault);
            },
        }
        proof {
            lemma_no_more_receipts_than_keys(receipts@, cohort_size as nat);
        }
        // The first receipt may belong to a minority: look for the majority.
        let mut first_count: usize = 0;
        let mut n: usize = 0;
        while n < receipts.len()
            invariant
                n <= receipts@.len(),
                0 < receipts@.len() <= cohort_size,
                receipts@ == ledger_receipts@,
                cohort_size == self@.config.len(),
                index_fault(receipts@, cohort_size as nat) is None,
                self@.majority_block(*claim, ledger_id, receipts@, n as nat) is None,
                n > 0 ==> first_count == self@.vouching_for(
                    *claim,
                    ledger_id,
                    receipts@,
                    claim.candidate_for(receipts@[0].block),
                ),
            decreases receipts@.len() - n,
        {
            let block = claim.candidate(&receipts[n].block);
            let count = self.count_vouching(receipts, claim, ledger_id, &block);
            if quorum::is_strict_majority(count, cohort_size) {
                proof {
                    lemma_majority_block_persists(
                        self@,
                        *claim,
                        ledger_id,
                        receipts@,
                        (n + 1) as nat,
                        receipts@.len(),
                    );
                }
                return Ok(block);
            }
            if n == 0 {
                first_count = count;
            }
            n += 1;
        }
        Err(
            VerifyError::QuorumNotMet(
                QuorumError { valid: first_count, required: cohort_size / 2 + 1 },
            ),
        )
    }

    /// Counts the receipts that vouch for the claim and the block.
    fn count_vouching(
        &self,
        receipts: &[LedgerReceipt],
        claim: &Claim,
        ledger_id: u32,
        block: &LedgerBlock,
    ) -> (count: usize)
        requires
            index_fault(receipts@, self@.config.len()) is None,
        ensures
            count == self@.vouching_for(*claim, ledger_id, receipts@, *block),
            count <= self@.config.len(),
    {
        let ghost keys = self@.config;
        let endorsers = self.trusted_config.endorsers();
        let message = self.build_claim_message(claim, ledger_id, block);
        let mut count: usize = 0;
        let mut i: usize = 0;
        assert(receipts@.take(0) =~= Seq::empty());
        while i < receipts.len()
            invariant
                i <= receipts@.len(),
                keys == cohort::keys_of(endorsers@),
                keys == self@.config,
                index_fault(receipts@, keys.len()) is None,
                count == vouching_count(keys, receipts@.take(i as int), *block, message@),
                count <= i,
            decreases receipts@.len() - i,
        {
            let r = &receipts[i];
            proof {
                let later = receipts@.take(i + 1);
                assert(later.drop_last() =~= receipts@.take(i as int));
                assert(later.last() == *r);
                lemma_index_in_bounds(receipts@, i as int, keys.len());
            }
            // Check block agreement and signature.
            if r.block.same_as(block) && endorsers[r.key_index].endorser_key.verify(
                message.as_slice(),
                &r.signature,
            ) {
                count += 1;
            }
            i += 1;
        }
        proof {
            assert(receipts@.take(receipts@.len() as int) =~= receipts@);
            lemma_no_more_receipts_than_keys(receipts@, keys.len());
        }
        count
    }

    /// Builds the message that a receipt for the claim and the block signs.
    fn build_claim_message(&self, claim: &Claim, ledger_id: u32, block: &LedgerBlock) -> (message:
        Vec<u8>)
        ensures
            message@ == self@.claim_message(*claim, ledger_id, *block),
    {
        match claim {
            Claim::Read { nonce } => receipts::build_read_latest_message(
                &self.instance_id,
                ledger_id,
                &block.entry,
                block.index,
                &block.hash_chain_tail,
                *nonce,
            ),
            Claim::Append { nonce, .. } => receipts::build_append_entry_message(
                &self.instance_id,
                ledger_id,
                &block.entry,
                block.index,
                &block.hash_chain_tail,
                *nonce,
            ),
            Claim::Entry => receipts::build_entry_receipt_message(
                &self.instance_id,
                ledger_id,
                &block.entry,
                block.index,
                &block.hash_chain_tail,
            ),
        }
    }
}

/// Checks that the key indices of some receipts are within a cohort, and that
/// none is used twice.
fn check_key_indices(receipts: &[LedgerReceipt], cohort_size: usize) -> (checked: Result<
    (),
    VerifyError,
>)
    ensures
        match checked {
            Ok(_) => index_fault(receipts@, cohort_size as nat) is None,
            Err(fault) => index_fault(receipts@, cohort_size as nat) == Some(fault),
        },
{
    let mut seen_keys: Vec<bool> = vec![false; cohort_size];
    let mut i: usize = 0;
    assert(receipts@.take(0) =~= Seq::empty());
    while i < receipts.len()
        invariant
            i <= receipts@.len(),
            seen_keys@.len() == cohort_size,
            index_fault(receipts@.take(i as int), cohort_size as nat) is None,
            forall|k: int|
                0 <= k < cohort_size ==> #[trigger] seen_keys@[k] == uses_key(
                    receipts@.take(i as int),
                    k,
                ),
        decreases receipts@.len() - i,
    {
        let key_index = receipts[i].key_index;
        let ghost earlier = receipts@.take(i as int);
        let ghost later = receipts@.take(i + 1);
        proof {
            assert(later.drop_last() =~= earlier);
            assert(later.last() == receipts@[i as int]);
        }
        // Bounds check.
        if key_index >= cohort_size {
            proof {
                lemma_fault_persists(receipts@, i + 1, cohort_size as nat);
            }
            return Err(VerifyError::KeyIndexOutOfBounds);
        }
        // Uniqueness check via bitmap.

        if seen_keys[key_index] {
            proof {
                lemma_fault_persists(receipts@, i + 1, cohort_size as nat);
            }
            return Err(VerifyError::DuplicateKeyIndex);
        }
        seen_keys[key_index] = true;
        proof {
            assert forall|k: int| 0 <= k < cohort_size implies #[trigger] seen_keys@[k]
                == uses_key(later, k) by {
                lemma_uses_key_of_next(later, k);
            }
        }
        i += 1;
    }
    assert(receipts@.take(receipts@.len() as int) =~= receipts@);
    Ok(())
}

/// A fault in the first receipts is the fault of all.
proof fn lemma_fault_persists(receipts: Seq<LedgerReceipt>, n: int, cohort_size: nat)
    requires
        0 <= n <= receipts.len(),
        index_fault(receipts.take(n), cohort_size) is Some,
    ensures
        index_fault(receipts, cohort_size) == index_fault(receipts.take(n), cohort_size),
    decreases receipts.len(),
{
    if n < receipts.len() {
        let earlier = receipts.drop_last();
        assert(earlier.take(n) =~= receipts.take(n));
        lemma_fault_persists(earlier, n, cohort_size);
    } else {
        assert(receipts.take(n) =~= receipts);
    }
}

/// One more receipt uses one more key.
proof fn lemma_uses_key_of_next(receipts: Seq<LedgerReceipt>, key_index: int)
    requires
        receipts.len() > 0,
    ensures
        uses_key(receipts, key_index) == (uses_key(receipts.drop_last(), key_index)
            || receipts.last().key_index == key_index),
{
    let earlier = receipts.drop_last();
    if uses_key(earlier, key_index) {
        let i = choose|i: int|
            0 <= i < earlier.len() && (#[trigger] earlier[i]).key_index == key_index;
        assert(receipts[i].key_index == key_index);
    }
    if receipts.last().key_index == key_index {
        assert(receipts[receipts.len() - 1].key_index == key_index);
    }
    if uses_key(receipts, key_index) {
        let i = choose|i: int|
            0 <= i < receipts.len() && (#[trigger] receipts[i]).key_index == key_index;
        if i < receipts.len() - 1 {
            assert(earlier[i].key_index == key_index);
        }
    }
}

/// The key indices of some receipts.
pub open spec fn used_keys(receipts: Seq<LedgerReceipt>) -> Set<int> {
    Set::new(|k: int| uses_key(receipts, k))
}

/// Receipts without an index fault use as many keys of the cohort as there are
/// receipts.
proof fn lemma_used_keys(receipts: Seq<LedgerReceipt>, cohort_size: nat)
    requires
        index_fault(receipts, cohort_size) is None,
    ensures
        used_keys(receipts).finite(),
        used_keys(receipts).len() == receipts.len(),
        used_keys(receipts).subset_of(vstd::set_lib::set_int_range(0, cohort_size as int)),
    decreases receipts.len(),
{
    if receipts.len() == 0 {
        assert(used_keys(receipts) =~= Set::empty());
    } else {
        let earlier = receipts.drop_last();
        let last = receipts.last().key_index as int;
        lemma_used_keys(earlier, cohort_size);
        assert forall|k: int| uses_key(receipts, k) == (uses_key(earlier, k) || last == k) by {
            lemma_uses_key_of_next(receipts, k);
        }
        assert(used_keys(receipts) =~= used_keys(earlier).insert(last));
    }
}

/// There are no more receipts without an index fault than keys.
proof fn lemma_no_more_receipts_than_keys(receipts: Seq<LedgerReceipt>, cohort_size: nat)
    requires
        index_fault(receipts, cohort_size) is None,
    ensures
        receipts.len() <= cohort_size,
{
    lemma_used_keys(receipts, cohort_size);
    vstd::set_lib::lemma_int_range(0, cohort_size as int);
    vstd::set_lib::lemma_len_subset(
        used_keys(receipts),
        vstd::set_lib::set_int_range(0, cohort_size as int),
    );
}

/// Receipts without an index fault refer to keys of the cohort.
proof fn lemma_index_in_bounds(receipts: Seq<LedgerReceipt>, i: int, cohort_size: nat)
    requires
        index_fault(receipts, cohort_size) is None,
        0 <= i < receipts.len(),
    ensures
        receipts[i].key_index < cohort_size,
    decreases receipts.len(),
{
    if i < receipts.len() - 1 {
        assert(receipts.drop_last()[i] == receipts[i]);
        lemma_index_in_bounds(receipts.drop_last(), i, cohort_size);
    }
}

// ---------------------------------------------------------------------------
// The majority's block
// ---------------------------------------------------------------------------

/// A block that is found among the first receipts is the one that is found.
proof fn lemma_majority_block_persists(
    current: VerifierView,
    claim: Claim,
    ledger_id: u32,
    receipts: Seq<LedgerReceipt>,
    n: nat,
    m: nat,
)
    requires
        n <= m,
        current.majority_block(claim, ledger_id, receipts, n) is Some,
    ensures
        current.majority_block(claim, ledger_id, receipts, m) == current.majority_block(
            claim,
            ledger_id,
            receipts,
            n,
        ),
    decreases m,
{
    if n < m {
        lemma_majority_block_persists(current, claim, ledger_id, receipts, n, (m - 1) as nat);
    }
}

/// A block that is found is one for which the receipts show the claim.
proof fn lemma_majority_block_is_accepted(
    current: VerifierView,
    claim: Claim,
    ledger_id: u32,
    receipts: Seq<LedgerReceipt>,
    n: nat,
)
    ensures
        current.majority_block(claim, ledger_id, receipts, n) matches Some(block)
            ==> current.accepts(claim, ledger_id, receipts, block),
    decreases n,
{
    if n > 0 {
        lemma_majority_block_is_accepted(current, claim, ledger_id, receipts, (n - 1) as nat);
    }
}

/// If some receipts vouch for a block, one of them is for it.
proof fn lemma_some_receipt_vouches(
    keys: Seq<Seq<u8>>,
    receipts: Seq<LedgerReceipt>,
    block: LedgerBlock,
    message: Seq<u8>,
) -> (i: int)
    requires
        vouching_count(keys, receipts, block, message) > 0,
    ensures
        0 <= i < receipts.len(),
        receipts[i].block == block,
    decreases receipts.len(),
{
    if vouches(keys, receipts.last(), block, message) {
        receipts.len() - 1
    } else {
        let i = lemma_some_receipt_vouches(keys, receipts.drop_last(), block, message);
        assert(receipts.drop_last()[i] == receipts[i]);
        i
    }
}

/// A receipt vouches for one block only, so there are no more receipts that
/// vouch for two different blocks than receipts.
proof fn lemma_counts_add_up(
    keys: Seq<Seq<u8>>,
    receipts: Seq<LedgerReceipt>,
    block_a: LedgerBlock,
    message_a: Seq<u8>,
    block_b: LedgerBlock,
    message_b: Seq<u8>,
)
    requires
        block_a != block_b,
    ensures
        vouching_count(keys, receipts, block_a, message_a) + vouching_count(
            keys,
            receipts,
            block_b,
            message_b,
        ) <= receipts.len(),
    decreases receipts.len(),
{
    if receipts.len() > 0 {
        lemma_counts_add_up(
            keys,
            receipts.drop_last(),
            block_a,
            message_a,
            block_b,
            message_b,
        );
    }
}

/// Receipts show a claim for one block at most.
pub proof fn law_one_block_is_accepted(
    current: VerifierView,
    claim: Claim,
    ledger_id: u32,
    receipts: Seq<LedgerReceipt>,
    block_a: LedgerBlock,
    block_b: LedgerBlock,
)
    ensures
        current.accepts(claim, ledger_id, receipts, block_a) && current.accepts(
            claim,
            ledger_id,
            receipts,
            block_b,
        ) ==> block_a == block_b,
{
    if current.accepts(claim, ledger_id, receipts, block_a) && current.accepts(
        claim,
        ledger_id,
        receipts,
        block_b,
    ) && block_a != block_b {
        lemma_no_more_receipts_than_keys(receipts, current.config.len());
        lemma_counts_add_up(
            current.config,
            receipts,
            block_a,
            current.claim_message(claim, ledger_id, block_a),
            block_b,
            current.claim_message(claim, ledger_id, block_b),
        );
    }
}

/// The verdict is the majority's: receipts come to a block if and only if they
/// show the claim for it, in whatever order they are and whatever else is among
/// them.
pub proof fn law_verdict_is_the_majoritys(
    current: VerifierView,
    claim: Claim,
    ledger_id: u32,
    receipts: Seq<LedgerReceipt>,
)
    ensures
        forall|block: LedgerBlock|
            current.verdict(claim, ledger_id, receipts) == Ok::<_, VerifyError>(block)
                <==> #[trigger] current.accepts(claim, ledger_id, receipts, block),
{
    assert forall|block: LedgerBlock|
        current.verdict(claim, ledger_id, receipts) == Ok::<_, VerifyError>(block)
            <==> #[trigger] current.accepts(claim, ledger_id, receipts, block) by {
        lemma_majority_block_is_accepted(current, claim, ledger_id, receipts, receipts.len());
        if current.accepts(claim, ledger_id, receipts, block) {
            let message = current.claim_message(claim, ledger_id, block);
            let i = lemma_some_receipt_vouches(current.config, receipts, block, message);
            assert(claim.candidate_for(receipts[i].block) == block);
            let found = current.majority_block(claim, ledger_id, receipts, (i + 1) as nat);
            assert(found is Some);
            lemma_majority_block_persists(
                current,
                claim,
                ledger_id,
                receipts,
                (i + 1) as nat,
                receipts.len(),
            );
            law_one_block_is_accepted(
                current,
                claim,
                ledger_id,
                receipts,
                block,
                found->Some_0,
            );
        }
    }
}

} // verus!
