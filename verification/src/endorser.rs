//! The endorser: manages append-only ledgers and signs receipts for them.
//!
//! A state machine whose state is part of the type. The transitions:
//!
//! - none --`new`--> `Uninitialized`
//! - `Uninitialized` --`activate`--> `Active`
//! - `Active` --`finalize`--> `Finalized`

use vstd::prelude::*;

use crate::bytes;
use crate::cohort;
use crate::cohort::{CohortConfig, ConfigId};
use crate::crypto;
use crate::keys::{Signature, SigningKey, VerifyingKey};
use crate::ledger;
use crate::ledger::{AppendedLedgerBlock, EntryContents, LedgerBlock, Ledgers, SignedLedgerBlock};
use crate::receipts;
use crate::takeover::{CohortTakeOver, TakeOverView};

verus! {

// ---------------------------------------------------------------------------
// States: each carries the fields valid only for that state.
// ---------------------------------------------------------------------------

/// A state of the endorser's life.
pub trait Phase {
    /// Whether this is a state of the endorser with the given verifying key: a
    /// signing key that it holds is that endorser's.
    spec fn belongs_to(&self, key: Seq<u8>) -> bool;
}

/// The endorser has been created but not yet activated with a cohort config.
pub struct Uninitialized {
    signing_key: SigningKey,
}

/// The endorser is activated and actively serving.
pub struct Active {
    /// The ECDSA signing key.
    signing_key: SigningKey,
    /// Public keys of the current cohort.
    cohort_config: CohortConfig,
    /// Instance ID: SHA-256 of the first cohort's concatenated verifying keys.
    instance_id: ConfigId,
    /// Map from ledger ID to the latest block in that ledger.
    ledgers: Ledgers,
    /// Activation receipt, computed once during activation.
    activation_receipt: Signature,
}

/// The endorser has been finalized: the signing key has been erased, and
/// the finalization receipt is available. The endorser cannot sign anything
/// new, but can still serve its receipts and ledger state.
pub struct Finalized {
    /// Instance ID inherited from (or computed during) activation.
    instance_id: ConfigId,
    /// Ledger state at finalization time.
    ledgers: Ledgers,
    /// Activation receipt (carried over from the Active state).
    activation_receipt: Signature,
    /// ECDSA P-256 finalization receipt.
    finalization_receipt: Signature,
}

impl Phase for Uninitialized {
    closed spec fn belongs_to(&self, key: Seq<u8>) -> bool {
        key == crypto::public_key_of(self.signing_key.secret())
    }
}

impl Phase for Active {
    closed spec fn belongs_to(&self, key: Seq<u8>) -> bool {
        key == crypto::public_key_of(self.signing_key.secret())
    }
}

impl Phase for Finalized {
    closed spec fn belongs_to(&self, key: Seq<u8>) -> bool {
        true
    }
}

// ---------------------------------------------------------------------------
// Endorser
// ---------------------------------------------------------------------------

/// The alias of the endorser with the given verifying key: the first 8 bytes
/// of the key's SHA-256 digest, as a big-endian number.
pub open spec fn alias_of(key: Seq<u8>) -> nat {
    bytes::be_value(crypto::sha256_digest(key).take(8))
}

/// Whether `signature` is the one that the holder of `secret`, whose verifying
/// key is `key`, makes of `message`.
pub open spec fn signed(
    key: Seq<u8>,
    secret: Seq<u8>,
    message: Seq<u8>,
    signature: Seq<u8>,
) -> bool {
    &&& signature == crypto::ecdsa_signature(secret, message)
    &&& crypto::is_signature(signature)
    &&& crypto::ecdsa_verifies(key, message, signature)
}

/// Core endorser.
///
/// The generic parameter `S` is the state type, which carries the data
/// relevant to the endorser's lifecycle phase. Common identity fields
/// (`alias`, `verifying_key`) live in the `Endorser` itself.
pub struct Endorser<S: Phase> {
    /// Opaque identifier: first 8 bytes (big-endian u64) of
    /// SHA-256(SEC1 uncompressed verifying key).
    alias: u64,
    /// Public (verifying) ECDSA P-256 key.
    verifying_key: VerifyingKey,
    /// State-specific data.
    state: S,
}

/// What an endorser is before activation: its keys.
#[verifier::ext_equal]
pub struct UninitializedView {
    pub key: Seq<u8>,
    pub secret: Seq<u8>,
}

/// What an active endorser is: its keys, its cohort and instance, and its
/// ledgers.
#[verifier::ext_equal]
pub struct ActiveView {
    pub key: Seq<u8>,
    pub secret: Seq<u8>,
    pub config: Seq<Seq<u8>>,
    pub instance_id: Seq<u8>,
    pub ledgers: Map<u32, LedgerBlock>,
    pub activation_receipt: Seq<u8>,
}

/// What a finalized endorser is: all that it had but for the secret, and the
/// finalization receipt.
#[verifier::ext_equal]
pub struct FinalizedView {
    pub key: Seq<u8>,
    pub instance_id: Seq<u8>,
    pub ledgers: Map<u32, LedgerBlock>,
    pub activation_receipt: Seq<u8>,
    pub finalization_receipt: Seq<u8>,
}

impl ActiveView {
    /// Whether this is the state that activation as a new service instance
    /// gives: the instance is named after the configuration, and there is one
    /// empty ledger with ID 0.
    pub open spec fn starts_instance(
        self,
        endorser: UninitializedView,
        config: Seq<Seq<u8>>,
    ) -> bool {
        &&& self.key == endorser.key
        &&& self.secret == endorser.secret
        &&& self.config == config
        &&& self.instance_id == cohort::config_id_of(config)
        &&& self.ledgers.dom() == set![0u32]
        &&& self.ledgers[0].is_initial()
        &&& self.signed(
            receipts::activate_new_message(self.instance_id),
            self.activation_receipt,
        )
    }

    /// Whether this is the state that activation from a previous cohort gives:
    /// the instance and its ledgers are taken over.
    pub open spec fn takes_over(
        self,
        endorser: UninitializedView,
        config: Seq<Seq<u8>>,
        takeover: TakeOverView,
    ) -> bool {
        &&& self.key == endorser.key
        &&& self.secret == endorser.secret
        &&& self.config == config
        &&& self.instance_id == takeover.instance_id
        &&& self.ledgers == takeover.ledgers
        &&& self.signed(
            receipts::activate_from_prev_message(
                takeover.instance_id,
                takeover.prev_config_id(),
                cohort::config_id_of(config),
                ledger::ledgers_hash(takeover.ledgers),
            ),
            self.activation_receipt,
        )
    }

    /// Whether `signature` is this endorser's signature of `message`.
    pub open spec fn signed(self, message: Seq<u8>, signature: Seq<u8>) -> bool {
        signed(self.key, self.secret, message, signature)
    }

    /// The message that finalization in favour of `next` signs.
    pub open spec fn finalize_message(self, next: Seq<Seq<u8>>) -> Seq<u8> {
        receipts::finalize_message(
            self.instance_id,
            cohort::config_id_of(self.config),
            cohort::config_id_of(next),
            ledger::ledgers_hash(self.ledgers),
        )
    }
}

impl<S: Phase> Endorser<S> {
    #[verifier::type_invariant]
    spec fn well_formed(self) -> bool {
        &&& self.alias == alias_of(self.verifying_key@)
        &&& self.state.belongs_to(self.verifying_key@)
    }

    /// The endorser's verifying key.
    pub closed spec fn key(&self) -> Seq<u8> {
        self.verifying_key@
    }

    /// Returns the public (verifying) key of this endorser.
    pub fn verifying_key(&self) -> (key: &VerifyingKey)
        ensures
            key@ == self.key(),
    {
        &self.verifying_key
    }

    /// Returns the opaque endorser alias.
    pub fn alias(&self) -> (alias: u64)
        ensures
            alias == alias_of(self.key()),
    {
        proof {
            use_type_invariant(self);
        }
        self.alias
    }
}

impl View for Endorser<Uninitialized> {
    type V = UninitializedView;

    open spec fn view(&self) -> UninitializedView {
        UninitializedView { key: self.key(), ..self.contents() }
    }
}

impl View for Endorser<Active> {
    type V = ActiveView;

    open spec fn view(&self) -> ActiveView {
        ActiveView { key: self.key(), ..self.contents() }
    }
}

impl View for Endorser<Finalized> {
    type V = FinalizedView;

    open spec fn view(&self) -> FinalizedView {
        FinalizedView { key: self.key(), ..self.contents() }
    }
}

impl Endorser<Uninitialized> {
    /// The contents of this endorser.
    pub closed spec fn contents(&self) -> UninitializedView {
        UninitializedView {
            key: self.verifying_key@,
            secret: self.state.signing_key.secret(),
        }
    }

    /// Creates a new endorser with a random ECDSA P-256 key pair.
    pub fn new() -> (endorser: Endorser<Uninitialized>)
        ensures
            crypto::is_scalar(endorser@.secret),
            endorser@.key == crypto::public_key_of(endorser@.secret),
    {
        let signing_key = SigningKey::random();
        let verifying_key = signing_key.verifying_key();
        let alias = compute_alias(&verifying_key);
        Endorser { alias, verifying_key, state: Uninitialized { signing_key } }
    }

    /// Activates the endorser.
    ///
    /// If `prev_cohort_takeover` is `None`, starts a new service instance
    /// from scratch: the `instance_id` is computed as SHA-256 of the cohort
    /// config, and a default ledger (ID 0) is created.
    ///
    /// If `prev_cohort_takeover` is `Some`, activates via finalization data
    /// from a previous cohort: the endorser adopts the existing `instance_id`
    /// and the finalized ledger states, after verifying finalization receipts
    /// from the previous cohort (quorum check).
    ///
    /// Consumes the `Uninitialized` endorser and returns an `Active` one.
    /// On failure, the endorser is returned inside the error so the caller
    /// can reclaim it.
    pub fn activate(
        self,
        cohort_config: CohortConfig,
        prev_cohort_takeover: Option<CohortTakeOver>,
    ) -> (activated: Result<Endorser<Active>, ActivationError>)
        ensures
            match activated {
                Ok(active) => {
                    &&& cohort_config.key_seq().contains(self@.key)
                    &&& match prev_cohort_takeover {
                        None => active@.starts_instance(
                            self@,
                            cohort_config.key_seq(),
                        ),
                        Some(takeover) => {
                            &&& takeover@.is_quorum_for(cohort_config.id())
                            &&& active@.takes_over(
                                self@,
                                cohort_config.key_seq(),
                                takeover@,
                            )
                        },
                    }
                },
                Err(ActivationError::KeyNotInConfig { endorser }) => {
                    &&& !cohort_config.key_seq().contains(self@.key)
                    &&& endorser == self
                },
                Err(ActivationError::NoQuorum { endorser }) => {
                    &&& cohort_config.key_seq().contains(self@.key)
                    &&& prev_cohort_takeover matches Some(takeover)
                    &&& !takeover@.is_quorum_for(cohort_config.id())
                    &&& endorser == self
                },
            },
    {
        if !cohort_config.contains(&self.verifying_key) {
            return Err(ActivationError::KeyNotInConfig { endorser: self });
        }
        match prev_cohort_takeover {
            None => Ok(self.activate_new_instance(cohort_config)),
            Some(takeover) => self.activate_from_prev(cohort_config, takeover),
        }
    }

    /// Activates as a new service instance (no previous cohort).
    fn activate_new_instance(self, cohort_config: CohortConfig) -> (active: Endorser<Active>)
        ensures
            active@.starts_instance(self@, cohort_config.key_seq()),
    {
        proof {
            use_type_invariant(&self);
        }
        let instance_id = cohort_config.config_id();
        let mut ledgers = Ledgers::new();
        ledgers.insert(0, LedgerBlock::initial());
        assert(ledgers@.dom() =~= set![0u32]);
        let message = receipts::build_activate_new_instance_message(&instance_id);
        let activation_receipt = self.state.signing_key.sign(message.as_slice());
        Endorser {
            alias: self.alias,
            verifying_key: self.verifying_key,
            state: Active {
                signing_key: self.state.signing_key,
                cohort_config,
                instance_id,
                ledgers,
                activation_receipt,
            },
        }
    }

    /// Activates via finalization data from a previous cohort.
    fn activate_from_prev(
        self,
        new_cohort_config: CohortConfig,
        prev_cohort_takeover: CohortTakeOver,
    ) -> (activated: Result<Endorser<Active>, ActivationError>)
        ensures
            match activated {
                Ok(active) => {
                    &&& prev_cohort_takeover@.is_quorum_for(new_cohort_config.id())
                    &&& active@.takes_over(
                        self@,
                        new_cohort_config.key_seq(),
                        prev_cohort_takeover@,
                    )
                },
                Err(ActivationError::NoQuorum { endorser }) => {
                    &&& !prev_cohort_takeover@.is_quorum_for(new_cohort_config.id())
                    &&& endorser == self
                },
                Err(_) => false,
            },
    {
        proof {
            use_type_invariant(&self);
        }
        if !prev_cohort_takeover.verify(&new_cohort_config) {
            return Err(ActivationError::NoQuorum { endorser: self });
        }
        let (instance_id, prev_cohort_finalization, ledgers) = prev_cohort_takeover.into_parts();
        let message = receipts::build_activate_from_prev_message(
            &instance_id,
            &prev_cohort_finalization.config_id(),
            &new_cohort_config.config_id(),
            &ledgers.hash(),
        );
        let activation_receipt = self.state.signing_key.sign(message.as_slice());
        Ok(
            Endorser {
                alias: self.alias,
                verifying_key: self.verifying_key,
                state: Active {
                    signing_key: self.state.signing_key,
                    cohort_config: new_cohort_config,
                    instance_id,
                    ledgers,
                    activation_receipt,
                },
            },
        )
    }
}

impl Endorser<Active> {
    /// The contents of this endorser.
    pub closed spec fn contents(&self) -> ActiveView {
        ActiveView {
            key: self.verifying_key@,
            secret: self.state.signing_key.secret(),
            config: self.state.cohort_config.key_seq(),
            instance_id: self.state.instance_id@,
            ledgers: self.state.ledgers@,
            activation_receipt: self.state.activation_receipt@,
        }
    }

    /// Creates a new ledger with the given ID and an empty initial block.
    ///
    /// Returns the ECDSA P-256 signature (RAW R || S) over the
    /// `create_ledger` receipt message (see [`receipts`]).
    pub fn create_ledger(&mut self, ledger_id: u32) -> (created: Result<
        Signature,
        CreateLedgerError,
    >)
        ensures
            match created {
                Ok(receipt) => {
                    &&& !old(self)@.ledgers.contains_key(ledger_id)
                    &&& old(self)@.signed(
                        receipts::create_ledger_message(old(self)@.instance_id, ledger_id),
                        receipt@,
                    )
                    &&& final(self)@.ledgers.contains_key(ledger_id)
                    &&& final(self)@.ledgers[ledger_id].is_initial()
                    &&& final(self)@ == (ActiveView {
                        ledgers: old(self)@.ledgers.insert(
                            ledger_id,
                            final(self)@.ledgers[ledger_id],
                        ),
                        ..old(self)@
                    })
                },
                Err(CreateLedgerError::AlreadyExists { ledger_id: id }) => {
                    &&& old(self)@.ledgers.contains_key(ledger_id)
                    &&& id == ledger_id
                    &&& final(self)@ == old(self)@
                },
            },
    {
        proof {
            use_type_invariant(&*self);
        }
        if self.state.ledgers.contains_key(&ledger_id) {
            return Err(CreateLedgerError::AlreadyExists { ledger_id });
        }
        self.set_latest(ledger_id, LedgerBlock::initial());
        let message = receipts::build_create_ledger_message(&self.state.instance_id, ledger_id);
        Ok(self.state.signing_key.sign(message.as_slice()))
    }

    /// Sets the latest block of a ledger.
    fn set_latest(&mut self, ledger_id: u32, block: LedgerBlock)
        ensures
            final(self)@ == (ActiveView {
                ledgers: old(self)@.ledgers.insert(ledger_id, block),
                ..old(self)@
            }),
    {
        proof {
            use_type_invariant(&*self);
        }
        let mut ledgers = Ledgers::new();
        core::mem::swap(&mut ledgers, &mut self.state.ledgers);
        ledgers.insert(ledger_id, block);
        self.state.ledgers = ledgers;
    }

    /// Returns the number of ledgers currently held by this endorser.
    pub fn ledger_count(&self) -> (count: usize)
        ensures
            count == self@.ledgers.len(),
    {
        self.state.ledgers.len()
    }

    /// Whether a ledger has reached the last index, so that nothing more can
    /// be appended to it.
    pub fn is_full(&self, ledger_id: u32) -> (full: bool)
        ensures
            full == (self@.ledgers.contains_key(ledger_id) && self@.ledgers[ledger_id].index
                == u64::MAX),
    {
        match self.state.ledgers.get(&ledger_id) {
            Some(block) => block.index == u64::MAX,
            None => false,
        }
    }

    /// Appends a new entry to a ledger.
    ///
    /// Updates the ledger block:
    ///   - `hash_chain_tail <- SHA256(old_tail || old_entry)`
    ///   - `index <- index + 1`
    ///   - `entry <- new entry`
    ///
    /// Returns the new block with its entry receipt and the append receipt,
    /// which is bound to `nonce` (see [`receipts`]).
    pub fn append_entry(
        &mut self,
        ledger_id: u32,
        entry: EntryContents,
        expected_index: u64,
        nonce: u64,
    ) -> (appended: Result<AppendedLedgerBlock, AppendEntryError>)
        requires
            old(self)@.ledgers.contains_key(ledger_id) ==> old(self)@.ledgers[ledger_id].index
                < u64::MAX,
        ensures
            match appended {
                Ok(signed) => {
                    &&& old(self)@.ledgers.contains_key(ledger_id)
                    &&& expected_index == old(self)@.ledgers[ledger_id].index + 1
                    &&& old(self)@.ledgers[ledger_id].followed_by(entry@, signed.block)
                    &&& old(self)@.signed(
                        receipts::entry_message(old(self)@.instance_id, ledger_id, signed.block),
                        signed.entry_receipt@,
                    )
                    &&& old(self)@.signed(
                        receipts::append_message(
                            old(self)@.instance_id,
                            ledger_id,
                            signed.block,
                            nonce,
                        ),
                        signed.append_receipt@,
                    )
                    &&& final(self)@ == (ActiveView {
                        ledgers: old(self)@.ledgers.insert(ledger_id, signed.block),
                        ..old(self)@
                    })
                },
                Err(AppendEntryError::LedgerNotFound(error)) => {
                    &&& !old(self)@.ledgers.contains_key(ledger_id)
                    &&& error.ledger_id == ledger_id
                    &&& final(self)@ == old(self)@
                },
                Err(AppendEntryError::WrongIndex { expected, actual }) => {
                    &&& old(self)@.ledgers.contains_key(ledger_id)
                    &&& expected == expected_index
                    &&& actual == old(self)@.ledgers[ledger_id].index + 1
                    &&& expected != actual
                    &&& final(self)@ == old(self)@
                },
            },
    {
        proof {
            use_type_invariant(&*self);
        }
        let block = match self.state.ledgers.get(&ledger_id) {
            Some(block) => *block,
            None => {
                return Err(AppendEntryError::LedgerNotFound(LedgerNotFoundError { ledger_id }));
            },
        };
        let new_index: u64 = block.index + 1;
        if expected_index != new_index {
            return Err(
                AppendEntryError::WrongIndex { expected: expected_index, actual: new_index },
            );
        }
        let block = block.next(entry);
        self.set_latest(ledger_id, block);
        let append_message = receipts::build_append_entry_message(
            &self.state.instance_id,
            ledger_id,
            &block.entry,
            block.index,
            &block.hash_chain_tail,
            nonce,
        );
        Ok(
            AppendedLedgerBlock {
                block,
                entry_receipt: self.sign_entry(ledger_id, &block),
                append_receipt: self.state.signing_key.sign(append_message.as_slice()),
            },
        )
    }

    /// Signs the entry receipt of a block.
    fn sign_entry(&self, ledger_id: u32, block: &LedgerBlock) -> (receipt: Signature)
        ensures
            self@.signed(
                receipts::entry_message(self@.instance_id, ledger_id, *block),
                receipt@,
            ),
    {
        proof {
            use_type_invariant(self);
        }
        let message = receipts::build_entry_receipt_message(
            &self.state.instance_id,
            ledger_id,
            &block.entry,
            block.index,
            &block.hash_chain_tail,
        );
        self.state.signing_key.sign(message.as_slice())
    }

    /// Reads the latest entry from a ledger.
    ///
    /// Returns a [`SignedLedgerBlock`] containing the current ledger state
    /// with its entry receipt and the read receipt, which is bound to the
    /// supplied nonce.
    pub fn read_latest(&self, ledger_id: u32, nonce: u64) -> (read: Result<
        SignedLedgerBlock,
        LedgerNotFoundError,
    >)
        ensures
            match read {
                Ok(signed) => {
                    &&& self@.ledgers.contains_key(ledger_id)
                    &&& signed.block == self@.ledgers[ledger_id]
                    &&& signed.nonce == nonce
                    &&& self@.signed(
                        receipts::entry_message(self@.instance_id, ledger_id, signed.block),
                        signed.entry_receipt@,
                    )
                    &&& self@.signed(
                        receipts::read_message(self@.instance_id, ledger_id, signed.block, nonce),
                        signed.read_receipt@,
                    )
                },
                Err(error) => {
                    &&& !self@.ledgers.contains_key(ledger_id)
                    &&& error.ledger_id == ledger_id
                },
            },
    {
        proof {
            use_type_invariant(self);
        }
        let block = match self.state.ledgers.get(&ledger_id) {
            Some(block) => *block,
            None => {
                return Err(LedgerNotFoundError { ledger_id });
            },
        };
        let read_message = receipts::build_read_latest_message(
            &self.state.instance_id,
            ledger_id,
            &block.entry,
            block.index,
            &block.hash_chain_tail,
            nonce,
        );
        Ok(
            SignedLedgerBlock {
                block,
                nonce,
                entry_receipt: self.sign_entry(ledger_id, &block),
                read_receipt: self.state.signing_key.sign(read_message.as_slice()),
            },
        )
    }

    /// Returns the activation receipt.
    ///
    /// This receipt is computed once during activation and is immutable.
    pub fn activation_receipt(&self) -> (receipt: &Signature)
        ensures
            receipt@ == self@.activation_receipt,
    {
        &self.state.activation_receipt
    }

    /// Returns the instance ID.
    pub fn instance_id(&self) -> (id: &ConfigId)
        ensures
            id@ == self@.instance_id,
    {
        &self.state.instance_id
    }

    /// Returns the cohort configuration.
    pub fn cohort_config(&self) -> (config: &CohortConfig)
        ensures
            config.key_seq() == self@.config,
    {
        &self.state.cohort_config
    }

    /// Finalizes the endorser, producing a finalization receipt and securely
    /// erasing the signing key.
    ///
    /// Consumes the `Active` endorser and returns a `Finalized` one, which
    /// holds no signing key. The signing key is dropped during the transition,
    /// which overwrites its secret with zeros.
    ///
    /// The receipt signs the `finalize` receipt message (see [`receipts`]).
    pub fn finalize(self, next_cohort_config: &CohortConfig) -> (finalized: Endorser<Finalized>)
        ensures
            self@.signed(
                self@.finalize_message(next_cohort_config.key_seq()),
                finalized@.finalization_receipt,
            ),
            finalized@ == (FinalizedView {
                key: self@.key,
                instance_id: self@.instance_id,
                ledgers: self@.ledgers,
                activation_receipt: self@.activation_receipt,
                finalization_receipt: finalized@.finalization_receipt,
            }),
    {
        proof {
            use_type_invariant(&self);
        }
        let message = receipts::build_finalize_message(
            &self.state.instance_id,
            &self.state.cohort_config.config_id(),
            &next_cohort_config.config_id(),
            &self.state.ledgers.hash(),
        );
        let finalization_receipt = self.state.signing_key.sign(message.as_slice());
        // Dropping self.state.signing_key overwrites the secret.
        Endorser {
            alias: self.alias,
            verifying_key: self.verifying_key,
            state: Finalized {
                instance_id: self.state.instance_id,
                ledgers: self.state.ledgers,
                activation_receipt: self.state.activation_receipt,
                finalization_receipt,
            },
        }
    }
}

impl Endorser<Finalized> {
    /// The contents of this endorser.
    pub closed spec fn contents(&self) -> FinalizedView {
        FinalizedView {
            key: self.verifying_key@,
            instance_id: self.state.instance_id@,
            ledgers: self.state.ledgers@,
            activation_receipt: self.state.activation_receipt@,
            finalization_receipt: self.state.finalization_receipt@,
        }
    }

    /// Returns the finalization receipt.
    pub fn finalization_receipt(&self) -> (receipt: &Signature)
        ensures
            receipt@ == self@.finalization_receipt,
    {
        &self.state.finalization_receipt
    }

    /// Returns the ledger state at finalization time.
    pub fn ledgers(&self) -> (ledgers: &Ledgers)
        ensures
            ledgers@ == self@.ledgers,
    {
        &self.state.ledgers
    }

    /// Returns the activation receipt.
    pub fn activation_receipt(&self) -> (receipt: &Signature)
        ensures
            receipt@ == self@.activation_receipt,
    {
        &self.state.activation_receipt
    }

    /// Returns the instance ID.
    pub fn instance_id(&self) -> (id: &ConfigId)
        ensures
            id@ == self@.instance_id,
    {
        &self.state.instance_id
    }
}

/// Computes the endorser alias from a verifying key.
///
/// The alias is the first 8 bytes of SHA-256(SEC1 uncompressed verifying key),
/// interpreted as a big-endian u64.
fn compute_alias(verifying_key: &VerifyingKey) -> (alias: u64)
    ensures
        alias == alias_of(verifying_key@),
{
    let digest = crypto::sha256(verifying_key.as_bytes());
    bytes::read_be8(&digest)
}

// ---------------------------------------------------------------------------
// Error types
// ---------------------------------------------------------------------------

/// Error returned by [`Endorser::activate`] when activation fails.
///
/// Contains the unconsumed `Endorser<Uninitialized>` so the caller can
/// reclaim it (e.g. put it back in a collection) rather than losing it.
pub enum ActivationError {
    /// The endorser's own verifying key is not in the cohort config.
    KeyNotInConfig { endorser: Endorser<Uninitialized> },
    /// The finalization receipts do not form a quorum (strict majority).
    /// Only returned when activating from a previous cohort.
    NoQuorum { endorser: Endorser<Uninitialized> },
}

impl ActivationError {
    /// The endorser whose activation failed.
    pub open spec fn endorser(self) -> Endorser<Uninitialized> {
        match self {
            ActivationError::KeyNotInConfig { endorser } => endorser,
            ActivationError::NoQuorum { endorser } => endorser,
        }
    }

    /// The error in words.
    pub open spec fn text(self) -> Seq<char> {
        let alias = bytes::decimal(alias_of(self.endorser().key()));
        match self {
            ActivationError::KeyNotInConfig { .. } => "endorser with alias "@ + alias
                + "'s verifying key is not in the cohort config"@,
            ActivationError::NoQuorum { .. } => "endorser with alias "@ + alias
                + ": finalization receipts do not form a quorum"@,
        }
    }

    /// Recovers the endorser whose activation failed. Consumes the error.
    pub fn reclaim_endorser(self) -> (endorser: Endorser<Uninitialized>)
        ensures
            endorser == self.endorser(),
    {
        match self {
            ActivationError::KeyNotInConfig { endorser } => endorser,
            ActivationError::NoQuorum { endorser } => endorser,
        }
    }

    /// The error in words.
    pub fn message(&self) -> (text: String)
        ensures
            text@ == self.text(),
    {
        let mut text = "endorser with alias ".to_owned();
        match self {
            ActivationError::KeyNotInConfig { endorser } => {
                bytes::push_decimal(&mut text, endorser.alias());
                text.append("'s verifying key is not in the cohort config");
            },
            ActivationError::NoQuorum { endorser } => {
                bytes::push_decimal(&mut text, endorser.alias());
                text.append(": finalization receipts do not form a quorum");
            },
        }
        text
    }
}

/// Error returned when a ledger with the given ID is not found.
#[derive(Debug, Clone, Copy, PartialEq, Eq)]
pub struct LedgerNotFoundError {
    pub ledger_id: u32,
}

/// Error returned by [`Endorser::create_ledger`].
#[derive(Debug, Clone, Copy, PartialEq, Eq)]
pub enum CreateLedgerError {
    /// A ledger with the given ID already exists.
    AlreadyExists { ledger_id: u32 },
}

/// Error returned by [`Endorser::append_entry`].
#[derive(Debug, Clone, Copy, PartialEq, Eq)]
pub enum AppendEntryError {
    /// The specified ledger does not exist.
    LedgerNotFound(LedgerNotFoundError),
    /// The expected index does not match the next block index.
    WrongIndex { expected: u64, actual: u64 },
}

} // verus!
