//! Cohort takeover: structures for the case where a cohort activates by
//! taking an instance identity over from a previous, finalized cohort.

use vstd::prelude::*;

use crate::cohort;
use crate::cohort::{CohortConfig, CohortFinalization, ConfigId, EndorserFinalization};
use crate::ledger;
use crate::ledger::{LedgerBlock, Ledgers};
use crate::quorum;
use crate::quorum::ReceiptEntry;
use crate::receipts;

verus! {

/// What a takeover says: which instance goes on, who finalized it, and with
/// which ledgers.
#[verifier::ext_equal]
pub struct TakeOverView {
    pub instance_id: Seq<u8>,
    pub finalization: Seq<ReceiptEntry>,
    pub ledgers: Map<u32, LedgerBlock>,
}

impl TakeOverView {
    /// The ID of the finalized cohort's configuration.
    pub open spec fn prev_config_id(self) -> Seq<u8> {
        cohort::config_id_of(quorum::entry_keys(self.finalization))
    }

    /// The message that finalization in favour of the given configuration
    /// signs.
    pub open spec fn message_for(self, new_config_id: Seq<u8>) -> Seq<u8> {
        receipts::finalize_message(
            self.instance_id,
            self.prev_config_id(),
            new_config_id,
            ledger::ledgers_hash(self.ledgers),
        )
    }

    /// Whether a strict majority of the finalized cohort signed finalization in
    /// favour of the given configuration.
    pub open spec fn is_quorum_for(self, new_config_id: Seq<u8>) -> bool {
        quorum::has_quorum(self.finalization, self.message_for(new_config_id))
    }
}

/// Complete takeover data from a previous cohort, needed to activate a new
/// endorser via reconfiguration.
///
/// Combines finalization receipts from the previous cohort with the instance
/// ID and ledger state. The endorser finalization entries are guaranteed to
/// have keys in strict ascending SEC1-lexicographic order.
///
/// Construct via [`CohortTakeOver::new`].
pub struct CohortTakeOver {
    /// The instance ID inherited from the previous cohort.
    instance_id: ConfigId,
    /// Finalization receipts from each endorser in the previous cohort.
    cohort_finalization: CohortFinalization,
    /// The complete state of all ledgers at finalization.
    ledgers: Ledgers,
}

impl View for CohortTakeOver {
    type V = TakeOverView;

    closed spec fn view(&self) -> TakeOverView {
        TakeOverView {
            instance_id: self.instance_id@,
            finalization: quorum::receipt_entries(self.cohort_finalization@),
            ledgers: self.ledgers@,
        }
    }
}

impl Clone for CohortTakeOver {
    fn clone(&self) -> (copy: Self)
        ensures
            copy@ == self@,
    {
        CohortTakeOver {
            instance_id: self.instance_id,
            cohort_finalization: self.cohort_finalization.clone(),
            ledgers: self.ledgers.clone(),
        }
    }
}

impl CohortTakeOver {
    /// Creates a new `CohortTakeOver` from a pre-validated
    /// [`CohortFinalization`] (which guarantees endorser keys are in strict
    /// ascending SEC1-lexicographic order), an instance ID, and ledger state.
    pub fn new(
        instance_id: ConfigId,
        cohort_finalization: CohortFinalization,
        ledgers: Ledgers,
    ) -> (takeover: Self)
        ensures
            takeover@ == (TakeOverView {
                instance_id: instance_id@,
                finalization: quorum::receipt_entries(cohort_finalization@),
                ledgers: ledgers@,
            }),
    {
        CohortTakeOver { instance_id, cohort_finalization, ledgers }
    }

    /// Returns the endorser finalization entries.
    pub fn endorser_finalizations(&self) -> (entries: &[EndorserFinalization])
        ensures
            quorum::receipt_entries(entries@) == self@.finalization,
    {
        self.cohort_finalization.endorsers()
    }

    /// Returns the config ID of the finalized (previous) cohort.
    pub fn prev_config_id(&self) -> (id: ConfigId)
        ensures
            id@ == self@.prev_config_id(),
    {
        proof {
            quorum::lemma_entry_keys(self.cohort_finalization@);
        }
        self.cohort_finalization.config_id()
    }

    /// Decomposes the takeover into its parts: instance ID, previous cohort
    /// finalization, and ledger state.
    pub fn into_parts(self) -> (parts: (ConfigId, CohortFinalization, Ledgers))
        ensures
            parts.0@ == self@.instance_id,
            quorum::receipt_entries(parts.1@) == self@.finalization,
            parts.1.id() == self@.prev_config_id(),
            parts.2@ == self@.ledgers,
    {
        proof {
            quorum::lemma_entry_keys(self.cohort_finalization@);
        }
        (self.instance_id, self.cohort_finalization, self.ledgers)
    }

    /// Verifies the finalization receipts in favour of `new_cohort_config`.
    ///
    /// Reconstructs the expected finalization message and verifies each receipt
    /// signature against the corresponding endorser's verifying key. A receipt
    /// is counted as valid only if it cryptographically verifies.
    ///
    /// Returns `true` if a strict majority of receipts are valid.
    pub fn verify(&self, new_cohort_config: &CohortConfig) -> (valid: bool)
        ensures
            valid == self@.is_quorum_for(new_cohort_config.id()),
    {
        let expected_message = receipts::build_finalize_message(
            &self.instance_id,
            &self.prev_config_id(),
            &new_cohort_config.config_id(),
            &self.ledgers.hash(),
        );
        let entries = self.cohort_finalization.endorsers();
        let valid_count = quorum::count_receipts(entries, expected_message.as_slice());
        quorum::is_strict_majority(valid_count, entries.len())
    }
}

} // verus!
