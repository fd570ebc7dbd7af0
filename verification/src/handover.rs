//! Cohort activation and handover.
//!
//! These types represent the data exchanged during a cohort handover:
//! finalization receipts from the outgoing cohort and activation receipts
//! from the incoming cohort.

use core::ops::Deref;
use vstd::prelude::*;

use crate::cohort;
use crate::cohort::{
    CohortConfig, CohortData, CohortFinalization, ConfigId, EndorserData, EndorserFinalization,
    InvalidConfigError,
};
use crate::keys::{Sha256Digest, Signature};
use crate::quorum;
use crate::quorum::ReceiptEntry;
use crate::receipts;

verus! {

/// Activation receipt from a single endorser in the incoming cohort.
pub type EndorserActivation = EndorserData<Signature>;

/// Cohort activation data: receipts from the incoming cohort confirming
/// they have adopted the handed-over state.
pub struct CohortActivation {
    /// Activation data from each endorser, in strict ascending
    /// SEC1-lexicographic order of their keys.
    endorser_data: CohortData<Signature>,
}

impl View for CohortActivation {
    type V = Seq<EndorserActivation>;

    closed spec fn view(&self) -> Seq<EndorserActivation> {
        self.endorser_data@
    }
}

impl CohortActivation {
    /// Creates a new `CohortActivation`.
    ///
    /// Returns `Err` if there are no entries or the endorser keys are not in
    /// strict ascending SEC1-lexicographic order.
    pub fn try_new(endorser_activations: Vec<EndorserActivation>) -> (activation: Result<
        Self,
        InvalidConfigError,
    >)
        ensures
            activation is Ok <==> cohort::valid_cohort(cohort::keys_of(endorser_activations@)),
            activation matches Ok(a) ==> a@ == endorser_activations@,
    {
        match CohortData::try_new(endorser_activations) {
            Ok(endorser_data) => Ok(CohortActivation { endorser_data }),
            Err(error) => Err(error),
        }
    }

    /// Returns the config ID of the new (activated) cohort.
    ///
    /// Computed as the SHA-256 hash of the concatenated SEC1-encoded
    /// endorser verifying keys, in their canonical order.
    pub(crate) fn new_config_id(&self) -> (id: ConfigId)
        ensures
            id@ == cohort::config_id_of(cohort::keys_of(self@)),
    {
        self.endorser_data.config_id()
    }

    /// The configuration of the activated cohort.
    pub fn into_config(self) -> (config: CohortConfig)
        ensures
            config.key_seq() == cohort::keys_of(self@),
    {
        self.endorser_data.into_config()
    }
}

impl Deref for CohortActivation {
    type Target = [EndorserActivation];

    fn deref(&self) -> (entries: &[EndorserActivation])
        ensures
            entries@ == self@,
    {
        self.endorser_data.endorsers()
    }
}

// ---------------------------------------------------------------------------
// Error types
// ---------------------------------------------------------------------------

/// Quorum was not met: not enough valid signatures.
#[derive(Debug, Clone, Copy, PartialEq, Eq)]
pub struct QuorumError {
    /// Number of valid signatures received.
    pub valid: usize,
    /// Number of valid signatures required.
    pub required: usize,
}

/// The error for `count` valid signatures out of a cohort of the given size, of
/// which a strict majority was required.
pub open spec fn quorum_error(count: nat, total: nat) -> QuorumError {
    QuorumError { valid: count as usize, required: quorum::quorum_size(total) as usize }
}

/// Error returned by [`CohortHandover::verify`] and
/// [`Verifier::apply_handover`](crate::verification::Verifier::apply_handover).
#[derive(Debug, Clone, Copy, PartialEq, Eq)]
pub enum HandoverError {
    /// The finalization's endorser keys do not match the verifier's trusted
    /// config. Never returned by [`CohortHandover::verify`].
    FinalizationConfigMismatch,
    /// Not enough valid finalization receipts from the outgoing cohort.
    FinalizationQuorumNotMet(QuorumError),
    /// Not enough valid activation receipts from the incoming cohort.
    ActivationQuorumNotMet(QuorumError),
}

// ---------------------------------------------------------------------------
// Cohort handover bundle
// ---------------------------------------------------------------------------

/// A complete cohort handover: bundles finalization receipts from the outgoing
/// cohort, activation receipts from the incoming cohort, and the ledgers hash
/// that both sides must agree on.
///
/// The verifier uses this to verify and evolve its trusted config. The
/// instance ID is not part of it because the verifier already knows it.
pub struct CohortHandover {
    /// Finalization receipts from the outgoing cohort.
    pub finalization: CohortFinalization,
    /// Activation receipts from the incoming cohort.
    pub activation: CohortActivation,
    /// SHA-256 hash of the serialized ledger state at finalization.
    pub ledgers_hash: Sha256Digest,
}

/// What a handover says.
#[verifier::ext_equal]
pub struct HandoverView {
    pub finalization: Seq<ReceiptEntry>,
    pub activation: Seq<ReceiptEntry>,
    pub ledgers_hash: Seq<u8>,
}

impl View for CohortHandover {
    type V = HandoverView;

    open spec fn view(&self) -> HandoverView {
        HandoverView {
            finalization: quorum::receipt_entries(self.finalization@),
            activation: quorum::receipt_entries(self.activation@),
            ledgers_hash: self.ledgers_hash@,
        }
    }
}

impl HandoverView {
    /// The keys of the outgoing cohort.
    pub open spec fn outgoing(self) -> Seq<Seq<u8>> {
        quorum::entry_keys(self.finalization)
    }

    /// The keys of the incoming cohort.
    pub open spec fn incoming(self) -> Seq<Seq<u8>> {
        quorum::entry_keys(self.activation)
    }

    /// The message that finalization receipts sign.
    pub open spec fn finalize_message(self, instance_id: Seq<u8>) -> Seq<u8> {
        receipts::finalize_message(
            instance_id,
            cohort::config_id_of(self.outgoing()),
            cohort::config_id_of(self.incoming()),
            self.ledgers_hash,
        )
    }

    /// The message that activation receipts sign.
    pub open spec fn activate_message(self, instance_id: Seq<u8>) -> Seq<u8> {
        receipts::activate_from_prev_message(
            instance_id,
            cohort::config_id_of(self.outgoing()),
            cohort::config_id_of(self.incoming()),
            self.ledgers_hash,
        )
    }

    /// Whether a strict majority of the outgoing cohort signed finalization.
    pub open spec fn finalized(self, instance_id: Seq<u8>) -> bool {
        quorum::has_quorum(self.finalization, self.finalize_message(instance_id))
    }

    /// Whether a strict majority of the incoming cohort signed activation.
    pub open spec fn activated(self, instance_id: Seq<u8>) -> bool {
        quorum::has_quorum(self.activation, self.activate_message(instance_id))
    }

    /// What the handover comes to for an instance: the keys of the incoming
    /// cohort, or what is missing.
    pub open spec fn verdict(self, instance_id: Seq<u8>) -> Result<Seq<Seq<u8>>, HandoverError> {
        if !self.finalized(instance_id) {
            Err(
                HandoverError::FinalizationQuorumNotMet(
                    quorum_error(
                        quorum::receipt_count(
                            self.finalization,
                            self.finalize_message(instance_id),
                        ),
                        self.finalization.len(),
                    ),
                ),
            )
        } else if !self.activated(instance_id) {
            Err(
                HandoverError::ActivationQuorumNotMet(
                    quorum_error(
                        quorum::receipt_count(
                            self.activation,
                            self.activate_message(instance_id),
                        ),
                        self.activation.len(),
                    ),
                ),
            )
        } else {
            Ok(self.incoming())
        }
    }
}

impl CohortHandover {
    /// Creates a new `CohortHandover`.
    ///
    /// Returns `Err(InvalidConfigError)` if the finalization or activation
    /// entries are none or their keys are not in strict ascending
    /// SEC1-lexicographic order.
    pub fn try_new(
        finalization_entries: Vec<EndorserFinalization>,
        activation_entries: Vec<EndorserActivation>,
        ledgers_hash: Sha256Digest,
    ) -> (handover: Result<Self, InvalidConfigError>)
        ensures
            handover is Ok <==> cohort::valid_cohort(cohort::keys_of(finalization_entries@))
                && cohort::valid_cohort(cohort::keys_of(activation_entries@)),
            handover matches Ok(h) ==> h@ == (HandoverView {
                finalization: quorum::receipt_entries(finalization_entries@),
                activation: quorum::receipt_entries(activation_entries@),
                ledgers_hash: ledgers_hash@,
            }),
    {
        let finalization = match CohortData::try_new(finalization_entries) {
            Ok(finalization) => finalization,
            Err(error) => {
                return Err(error);
            },
        };
        let activation = match CohortActivation::try_new(activation_entries) {
            Ok(activation) => activation,
            Err(error) => {
                return Err(error);
            },
        };
        Ok(CohortHandover { finalization, activation, ledgers_hash })
    }

    /// Verifies the handover's internal validity for a given instance_id.
    ///
    /// Derives the previous cohort's config ID from the finalization
    /// endorser keys and checks:
    /// 1. A strict majority of the outgoing cohort signed valid
    ///    finalization receipts.
    /// 2. A strict majority of the incoming cohort signed valid
    ///    activation receipts.
    ///
    /// This validates the handover's internal consistency. It does NOT
    /// check whether the finalization cohort matches the currently trusted
    /// cohort: that is the caller's responsibility (e.g.,
    /// [`Verifier::apply_handover`](crate::verification::Verifier::apply_handover)).
    ///
    /// On success, consumes the handover and returns the new
    /// [`CohortConfig`].
    pub fn verify(self, instance_id: &ConfigId) -> (verified: Result<CohortConfig, HandoverError>)
        ensures
            match verified {
                Ok(config) => self@.verdict(instance_id@) == Ok::<_, HandoverError>(
                    config.key_seq(),
                ),
                Err(error) => self@.verdict(instance_id@) == Err::<Seq<Seq<u8>>, _>(error),
            },
    {
        proof {
            quorum::lemma_entry_keys(self.finalization@);
            quorum::lemma_entry_keys(self.activation@);
        }
        let prev_config_id = self.finalization.config_id();
        let new_config_id = self.activation.new_config_id();

        // Step 1: Verify finalization receipts from the outgoing cohort.
        let finalize_message = receipts::build_finalize_message(
            instance_id,
            &prev_config_id,
            &new_config_id,
            &self.ledgers_hash,
        );
        let finalization_total = self.finalization.len();
        let finalization_valid_count = quorum::count_receipts(
            self.finalization.endorsers(),
            finalize_message.as_slice(),
        );
        if !quorum::is_strict_majority(finalization_valid_count, finalization_total) {
            return Err(
                HandoverError::FinalizationQuorumNotMet(
                    QuorumError {
                        valid: finalization_valid_count,
                        required: finalization_total / 2 + 1,
                    },
                ),
            );
        }

        // Step 2: Verify activation receipts from the incoming cohort.
        let activate_message = receipts::build_activate_from_prev_message(
            instance_id,
            &prev_config_id,
            &new_config_id,
            &self.ledgers_hash,
        );
        let activation_entries = self.activation.deref();
        let activation_total = activation_entries.len();
        let activation_valid_count = quorum::count_receipts(
            activation_entries,
            activate_message.as_slice(),
        );
        if !quorum::is_strict_majority(activation_valid_count, activation_total) {
            return Err(
                HandoverError::ActivationQuorumNotMet(
                    QuorumError {
                        valid: activation_valid_count,
                        required: activation_total / 2 + 1,
                    },
                ),
            );
        }

        // Both quorums met.
        Ok(self.activation.into_config())
    }
}

} // verus!
