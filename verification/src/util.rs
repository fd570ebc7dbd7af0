//! Helper functions for driving the endorsers of a cohort together.
//!
//! Every fallible helper forwards the endorser's error so that a caller can
//! inspect it and try something else. Most have a `must_` flavour for the case
//! where the call is known to succeed.
//!
//! All helpers assume and preserve SEC1 verifying-key order so that slice
//! indices match `key_index` in a cohort configuration.

use vstd::prelude::*;

use crate::challenge;
use crate::cohort;
use crate::cohort::{
    CohortConfig, CohortFinalization, ConfigId, EndorserData, EndorserFinalization,
    InvalidConfigError,
};
use crate::crypto;
use crate::endorser::{
    ActivationError, Active, ActiveView, AppendEntryError, CreateLedgerError, Endorser, Finalized,
    FinalizedView, LedgerNotFoundError, Uninitialized,
};
use crate::handover::{CohortHandover, EndorserActivation, HandoverError, HandoverView};
use crate::keys::Sha256Digest;
use crate::ledger;
use crate::ledger::{EntryContents, Ledgers};
use crate::ledger_receipts::{LedgerReceipt, LedgerReceipts};
use crate::quorum;
use crate::quorum::ReceiptEntry;
use crate::receipts;
use crate::takeover::{CohortTakeOver, TakeOverView};
use crate::verification::VerifierView;

verus! {

/// Receipts collected from a `read_latest` call across a subset of endorsers.
pub struct ReadReceipts {
    /// Nonce-bound `"read_latest"` receipts.
    pub read: LedgerReceipts,
    /// Nonce-free `"entry"` receipts.
    pub entry: LedgerReceipts,
}

/// Receipts collected from an `append_entry` call across a subset of endorsers.
pub struct AppendReceipts {
    /// Nonce-bound `"append_entry"` receipts.
    pub append: LedgerReceipts,
    /// Nonce-free `"entry"` receipts.
    pub entry: LedgerReceipts,
}

/// Output of finalizing a cohort toward a successor config.
pub struct Finalization {
    pub finalized: Vec<Endorser<Finalized>>,
    pub entries: Vec<EndorserFinalization>,
    pub ledgers: Ledgers,
}

/// Result of handing over to a newly created cohort via
/// [`hand_over_to_fresh_cohort`].
pub struct Succession {
    pub successor: Vec<Endorser<Active>>,
    pub handover: CohortHandover,
}

/// Error from [`hand_over_to_fresh_cohort`].
pub enum SuccessionError {
    /// A cohort config, takeover or handover was malformed.
    InvalidConfig(InvalidConfigError),
    /// A successor endorser refused to activate from the takeover.
    Activation(ActivationError),
}

// ---------------------------------------------------------------------------
// Activation
// ---------------------------------------------------------------------------

/// Whether the endorser at a position is the first whose key is not in a
/// configuration.
pub open spec fn first_outside(
    endorsers: Seq<Endorser<Uninitialized>>,
    config: Seq<Seq<u8>>,
    position: int,
) -> bool {
    &&& 0 <= position < endorsers.len()
    &&& !config.contains(endorsers[position]@.key)
    &&& forall|j: int| 0 <= j < position ==> config.contains((#[trigger] endorsers[j])@.key)
}

/// Activates all endorsers as an initial cohort.
///
/// On failure the remaining endorsers are dropped; only the offending one is
/// recoverable, via [`ActivationError::reclaim_endorser`].
pub fn activate_all(endorsers: Vec<Endorser<Uninitialized>>, config: &CohortConfig) -> (activated:
    Result<Vec<Endorser<Active>>, ActivationError>)
    ensures
        match activated {
            Ok(active) => {
                &&& active@.len() == endorsers@.len()
                &&& forall|i: int|
                    0 <= i < active@.len() ==> config.key_seq().contains(
                        (#[trigger] endorsers@[i])@.key,
                    ) && active@[i]@.starts_instance(endorsers@[i]@, config.key_seq())
            },
            Err(ActivationError::KeyNotInConfig { endorser }) => exists|position: int|
                #[trigger] first_outside(endorsers@, config.key_seq(), position) && endorser
                    == endorsers@[position],
            Err(ActivationError::NoQuorum { .. }) => false,
        },
{
    let ghost all = endorsers@;
    let ghost keys = config.key_seq();
    let ghost mut i: int = 0;
    let mut activated: Vec<Endorser<Active>> = Vec::new();
    for endorser in it: endorsers.into_iter()
        invariant
            it.seq() == all,
            i == it.index(),
            keys == config.key_seq(),
            activated@.len() == i,
            forall|j: int|
                0 <= j < i ==> keys.contains((#[trigger] all[j])@.key)
                    && activated@[j]@.starts_instance(all[j]@, keys),
    {
        match endorser.activate(config.clone(), None) {
            Ok(active) => {
                activated.push(active);
            },
            Err(error) => {
                assert(first_outside(all, keys, i));
                return Err(error);
            },
        }
        proof {
            i = i + 1;
        }
    }
    Ok(activated)
}

/// [`activate_all`], where the key of every endorser is in the configuration.
pub fn must_activate_all(endorsers: Vec<Endorser<Uninitialized>>, config: &CohortConfig) -> (active:
    Vec<Endorser<Active>>)
    requires
        forall|i: int|
            0 <= i < endorsers@.len() ==> config.key_seq().contains(
                (#[trigger] endorsers@[i])@.key,
            ),
    ensures
        active@.len() == endorsers@.len(),
        forall|i: int|
            0 <= i < active@.len() ==> #[trigger] active@[i]@.starts_instance(
                endorsers@[i]@,
                config.key_seq(),
            ),
{
    activate_all(endorsers, config).ok().expect("activation of a genesis cohort must succeed")
}

/// Activates all endorsers using `takeover` from a predecessor cohort.
///
/// On failure the remaining endorsers are dropped; only the offending one is
/// recoverable, via [`ActivationError::reclaim_endorser`].
pub fn activate_all_with_takeover(
    endorsers: Vec<Endorser<Uninitialized>>,
    config: &CohortConfig,
    takeover: &CohortTakeOver,
) -> (activated: Result<Vec<Endorser<Active>>, ActivationError>)
    ensures
        match activated {
            Ok(active) => {
                &&& active@.len() == endorsers@.len()
                &&& active@.len() > 0 ==> takeover@.is_quorum_for(config.id())
                &&& forall|i: int|
                    0 <= i < active@.len() ==> config.key_seq().contains(
                        (#[trigger] endorsers@[i])@.key,
                    ) && active@[i]@.takes_over(endorsers@[i]@, config.key_seq(), takeover@)
            },
            Err(ActivationError::KeyNotInConfig { endorser }) => exists|position: int|
                {
                    &&& #[trigger] first_outside(endorsers@, config.key_seq(), position)
                    &&& position > 0 ==> takeover@.is_quorum_for(config.id())
                    &&& endorser == endorsers@[position]
                },
            Err(ActivationError::NoQuorum { endorser }) => {
                &&& endorsers@.len() > 0
                &&& config.key_seq().contains(endorsers@[0]@.key)
                &&& !takeover@.is_quorum_for(config.id())
                &&& endorser == endorsers@[0]
            },
        },
{
    let ghost all = endorsers@;
    let ghost keys = config.key_seq();
    let ghost mut i: int = 0;
    let mut activated: Vec<Endorser<Active>> = Vec::new();
    for endorser in it: endorsers.into_iter()
        invariant
            it.seq() == all,
            i == it.index(),
            keys == config.key_seq(),
            activated@.len() == i,
            i > 0 ==> takeover@.is_quorum_for(config.id()),
            forall|j: int|
                0 <= j < i ==> keys.contains((#[trigger] all[j])@.key)
                    && activated@[j]@.takes_over(all[j]@, keys, takeover@),
    {
        match endorser.activate(config.clone(), Some(takeover.clone())) {
            Ok(active) => {
                activated.push(active);
            },
            Err(error) => {
                assert(error is KeyNotInConfig ==> first_outside(all, keys, i));
                return Err(error);
            },
        }
        proof {
            i = i + 1;
        }
    }
    Ok(activated)
}

/// [`activate_all_with_takeover`], where the takeover is a quorum for the
/// configuration, and the key of every endorser is in it.
/// [`CohortTakeOver::verify`] tells whether it is a quorum.
pub fn must_activate_all_with_takeover(
    endorsers: Vec<Endorser<Uninitialized>>,
    config: &CohortConfig,
    takeover: &CohortTakeOver,
) -> (active: Vec<Endorser<Active>>)
    requires
        takeover@.is_quorum_for(config.id()),
        forall|i: int|
            0 <= i < endorsers@.len() ==> config.key_seq().contains(
                (#[trigger] endorsers@[i])@.key,
            ),
    ensures
        active@.len() == endorsers@.len(),
        forall|i: int|
            0 <= i < active@.len() ==> #[trigger] active@[i]@.takes_over(
                endorsers@[i]@,
                config.key_seq(),
                takeover@,
            ),
{
    activate_all_with_takeover(endorsers, config, takeover).ok().expect(
        "takeover activation must succeed",
    )
}

// ---------------------------------------------------------------------------
// Ledger operations
// ---------------------------------------------------------------------------

/// Whether an endorser created a ledger.
pub open spec fn created(before: ActiveView, after: ActiveView, ledger_id: u32) -> bool {
    &&& !before.ledgers.contains_key(ledger_id)
    &&& after.ledgers[ledger_id].is_initial()
    &&& after == (ActiveView {
        ledgers: before.ledgers.insert(ledger_id, after.ledgers[ledger_id]),
        ..before
    })
}

/// Creates `ledger_id` on every endorser in `endorsers`.
///
/// Stops at the first failure, leaving earlier endorsers with the new ledger.
pub fn create_ledger_on(endorsers: &mut [Endorser<Active>], ledger_id: u32) -> (result: Result<
    (),
    CreateLedgerError,
>)
    ensures
        final(endorsers)@.len() == old(endorsers)@.len(),
        match result {
            Ok(_) => forall|i: int|
                0 <= i < old(endorsers)@.len() ==> created(
                    (#[trigger] old(endorsers)@[i])@,
                    final(endorsers)@[i]@,
                    ledger_id,
                ),
            Err(CreateLedgerError::AlreadyExists { ledger_id: id }) => {
                &&& id == ledger_id
                &&& exists|n: int|
                    {
                        &&& 0 <= n < old(endorsers)@.len()
                        &&& #[trigger] old(endorsers)@[n]@.ledgers.contains_key(ledger_id)
                        &&& forall|i: int|
                            0 <= i < n ==> created(
                                (#[trigger] old(endorsers)@[i])@,
                                final(endorsers)@[i]@,
                                ledger_id,
                            )
                        &&& forall|i: int|
                            n <= i < old(endorsers)@.len() ==> (#[trigger] final(endorsers)@[i])@
                                == old(endorsers)@[i]@
                    }
            },
        },
{
    let mut i: usize = 0;
    while i < endorsers.len()
        invariant
            i <= endorsers@.len(),
            endorsers@.len() == old(endorsers)@.len(),
            forall|j: int|
                0 <= j < i ==> created(
                    (#[trigger] old(endorsers)@[j])@,
                    endorsers@[j]@,
                    ledger_id,
                ),
            forall|j: int| i <= j < endorsers@.len() ==> #[trigger] endorsers@[j] == old(endorsers)@[j],
        decreases endorsers@.len() - i,
    {
        match endorsers[i].create_ledger(ledger_id) {
            Ok(_) => {},
            Err(error) => {
                assert(old(endorsers)@[i as int]@.ledgers.contains_key(ledger_id));
                return Err(error);
            },
        }
        i += 1;
    }
    Ok(())
}

/// [`create_ledger_on`], where no endorser has the ledger.
pub fn must_create_ledger_on(endorsers: &mut [Endorser<Active>], ledger_id: u32)
    requires
        forall|i: int|
            0 <= i < old(endorsers)@.len() ==> !(#[trigger] old(endorsers)@[i])@.ledgers.contains_key(
                ledger_id,
            ),
    ensures
        final(endorsers)@.len() == old(endorsers)@.len(),
        forall|i: int|
            0 <= i < old(endorsers)@.len() ==> created(
                (#[trigger] old(endorsers)@[i])@,
                final(endorsers)@[i]@,
                ledger_id,
            ),
{
    create_ledger_on(endorsers, ledger_id).expect("ledger must not already exist");
}

/// Whether the read of a ledger at a position of `key_indices` succeeds.
pub open spec fn can_read(
    endorsers: Seq<Endorser<Active>>,
    key_indices: Seq<usize>,
    ledger_id: u32,
    k: int,
) -> bool {
    &&& key_indices[k] < endorsers.len()
    &&& endorsers[key_indices[k] as int]@.ledgers.contains_key(ledger_id)
}

/// Whether a receipt is the read receipt that an endorser signs for its latest
/// block.
pub open spec fn is_read_receipt(
    endorser: ActiveView,
    key_index: usize,
    ledger_id: u32,
    nonce: u64,
    receipt: LedgerReceipt,
) -> bool {
    &&& receipt.key_index == key_index
    &&& receipt.block == endorser.ledgers[ledger_id]
    &&& endorser.signed(
        receipts::read_message(endorser.instance_id, ledger_id, receipt.block, nonce),
        receipt.signature@,
    )
}

/// Whether a receipt is the entry receipt that an endorser signs for its latest
/// block.
pub open spec fn is_entry_receipt(
    endorser: ActiveView,
    key_index: usize,
    ledger_id: u32,
    receipt: LedgerReceipt,
) -> bool {
    &&& receipt.key_index == key_index
    &&& receipt.block == endorser.ledgers[ledger_id]
    &&& endorser.signed(
        receipts::entry_message(endorser.instance_id, ledger_id, receipt.block),
        receipt.signature@,
    )
}

/// Calls `read_latest` on the endorsers at `key_indices`.
pub fn read_latest_from(
    endorsers: &[Endorser<Active>],
    key_indices: &[usize],
    ledger_id: u32,
    nonce: u64,
) -> (result: Result<ReadReceipts, LedgerNotFoundError>)
    requires
        forall|k: int|
            0 <= k < key_indices@.len() && (forall|j: int|
                0 <= j < k ==> #[trigger] can_read(endorsers@, key_indices@, ledger_id, j))
                ==> #[trigger] key_indices@[k] < endorsers@.len(),
    ensures
        match result {
            Ok(r) => {
                &&& r.read@.len() == key_indices@.len()
                &&& r.entry@.len() == key_indices@.len()
                &&& forall|k: int|
                    0 <= k < key_indices@.len() ==> {
                        &&& #[trigger] can_read(endorsers@, key_indices@, ledger_id, k)
                        &&& is_read_receipt(
                            endorsers@[key_indices@[k] as int]@,
                            key_indices@[k],
                            ledger_id,
                            nonce,
                            r.read@[k],
                        )
                        &&& is_entry_receipt(
                            endorsers@[key_indices@[k] as int]@,
                            key_indices@[k],
                            ledger_id,
                            r.entry@[k],
                        )
                    }
                &&& forall|k: int|
                    0 <= k < key_indices@.len() ==> can_read(
                        endorsers@,
                        key_indices@,
                        ledger_id,
                        k,
                    ) && is_read_receipt(
                        endorsers@[key_indices@[k] as int]@,
                        key_indices@[k],
                        ledger_id,
                        nonce,
                        #[trigger] r.read@[k],
                    )
                &&& forall|k: int|
                    0 <= k < key_indices@.len() ==> is_entry_receipt(
                        endorsers@[key_indices@[k] as int]@,
                        key_indices@[k],
                        ledger_id,
                        #[trigger] r.entry@[k],
                    )
            },
            Err(error) => {
                &&& error.ledger_id == ledger_id
                &&& exists|k: int|
                    0 <= k < key_indices@.len() && !#[trigger] can_read(
                        endorsers@,
                        key_indices@,
                        ledger_id,
                        k,
                    )
            },
        },
{
    let mut read: Vec<LedgerReceipt> = Vec::new();
    let mut entry: Vec<LedgerReceipt> = Vec::new();
    let mut i: usize = 0;
    while i < key_indices.len()
        invariant
            i <= key_indices@.len(),
            read@.len() == i,
            entry@.len() == i,
            forall|k: int|
                0 <= k < key_indices@.len() && (forall|j: int|
                    0 <= j < k ==> #[trigger] can_read(endorsers@, key_indices@, ledger_id, j))
                    ==> #[trigger] key_indices@[k] < endorsers@.len(),
            forall|k: int|
                0 <= k < i ==> {
                    &&& #[trigger] can_read(endorsers@, key_indices@, ledger_id, k)
                    &&& is_read_receipt(
                        endorsers@[key_indices@[k] as int]@,
                        key_indices@[k],
                        ledger_id,
                        nonce,
                        read@[k],
                    )
                    &&& is_entry_receipt(
                        endorsers@[key_indices@[k] as int]@,
                        key_indices@[k],
                        ledger_id,
                        entry@[k],
                    )
                },
        decreases key_indices@.len() - i,
    {
        let key_index = key_indices[i];
        match endorsers[key_index].read_latest(ledger_id, nonce) {
            Ok(signed) => {
                read.push(
                    LedgerReceipt {
                        key_index,
                        block: signed.block,
                        signature: signed.read_receipt,
                    },
                );
                entry.push(
                    LedgerReceipt {
                        key_index,
                        block: signed.block,
                        signature: signed.entry_receipt,
                    },
                );
            },
            Err(error) => {
                assert(!can_read(endorsers@, key_indices@, ledger_id, i as int));
                return Err(error);
            },
        }
        i += 1;
    }
    proof {
        assert forall|k: int| 0 <= k < key_indices@.len() implies can_read(
            endorsers@,
            key_indices@,
            ledger_id,
            k,
        ) && is_read_receipt(
            endorsers@[key_indices@[k] as int]@,
            key_indices@[k],
            ledger_id,
            nonce,
            #[trigger] read@[k],
        ) by {
            assert(can_read(endorsers@, key_indices@, ledger_id, k));
        }
        assert forall|k: int| 0 <= k < key_indices@.len() implies is_entry_receipt(
            endorsers@[key_indices@[k] as int]@,
            key_indices@[k],
            ledger_id,
            #[trigger] entry@[k],
        ) by {
            assert(can_read(endorsers@, key_indices@, ledger_id, k));
        }
    }
    Ok(ReadReceipts { read: LedgerReceipts::new(read), entry: LedgerReceipts::new(entry) })
}

/// [`read_latest_from`], where the endorsers have the ledger.
pub fn must_read_latest_from(
    endorsers: &[Endorser<Active>],
    key_indices: &[usize],
    ledger_id: u32,
    nonce: u64,
) -> (r: ReadReceipts)
    requires
        forall|k: int|
            0 <= k < key_indices@.len() ==> #[trigger] can_read(
                endorsers@,
                key_indices@,
                ledger_id,
                k,
            ),
    ensures
        r.read@.len() == key_indices@.len(),
        r.entry@.len() == key_indices@.len(),
        forall|k: int|
            0 <= k < key_indices@.len() ==> is_read_receipt(
                endorsers@[key_indices@[k] as int]@,
                key_indices@[k],
                ledger_id,
                nonce,
                #[trigger] r.read@[k],
            ),
        forall|k: int|
            0 <= k < key_indices@.len() ==> is_entry_receipt(
                endorsers@[key_indices@[k] as int]@,
                key_indices@[k],
                ledger_id,
                #[trigger] r.entry@[k],
            ),
{
    proof {
        assert forall|k: int| 0 <= k < key_indices@.len() implies #[trigger] key_indices@[k]
            < endorsers@.len() by {
            assert(can_read(endorsers@, key_indices@, ledger_id, k));
        }
    }
    let r = read_latest_from(endorsers, key_indices, ledger_id, nonce).expect("ledger must exist");
    proof {
        assert forall|k: int| 0 <= k < key_indices@.len() implies is_read_receipt(
            endorsers@[key_indices@[k] as int]@,
            key_indices@[k],
            ledger_id,
            nonce,
            #[trigger] r.read@[k],
        ) by {
            assert(can_read(endorsers@, key_indices@, ledger_id, k));
        }
        assert forall|k: int| 0 <= k < key_indices@.len() implies is_entry_receipt(
            endorsers@[key_indices@[k] as int]@,
            key_indices@[k],
            ledger_id,
            #[trigger] r.entry@[k],
        ) by {
            assert(can_read(endorsers@, key_indices@, ledger_id, k));
        }
    }
    r
}

/// Whether an endorser appended `entry` at `expected_index`.
pub open spec fn appended(
    before: ActiveView,
    after: ActiveView,
    ledger_id: u32,
    entry: Seq<u8>,
    expected_index: u64,
) -> bool {
    &&& before.ledgers.contains_key(ledger_id)
    &&& expected_index == before.ledgers[ledger_id].index + 1
    &&& before.ledgers[ledger_id].followed_by(entry, after.ledgers[ledger_id])
    &&& after == (ActiveView {
        ledgers: before.ledgers.insert(ledger_id, after.ledgers[ledger_id]),
        ..before
    })
}

/// Whether the append at a position of `key_indices` succeeds, if those before
/// it did: the endorser has not appended already, and its next index is the
/// expected one.
pub open spec fn can_append(
    endorsers: Seq<Endorser<Active>>,
    key_indices: Seq<usize>,
    ledger_id: u32,
    expected_index: u64,
    k: int,
) -> bool {
    let endorser = endorsers[key_indices[k] as int]@;
    &&& key_indices[k] < endorsers.len()
    &&& !key_indices.take(k).contains(key_indices[k])
    &&& endorser.ledgers.contains_key(ledger_id)
    &&& expected_index == endorser.ledgers[ledger_id].index + 1
}

/// Whether the append at a position of `key_indices` can be tried, if those
/// before it succeeded: there is such an endorser, and its ledger has not
/// reached the last index.
pub open spec fn can_try(
    endorsers: Seq<Endorser<Active>>,
    key_indices: Seq<usize>,
    ledger_id: u32,
    expected_index: u64,
    k: int,
) -> bool {
    let endorser = endorsers[key_indices[k] as int]@;
    &&& key_indices[k] < endorsers.len()
    &&& endorser.ledgers.contains_key(ledger_id) ==> if key_indices.take(k).contains(
        key_indices[k],
    ) {
        expected_index < u64::MAX
    } else {
        endorser.ledgers[ledger_id].index < u64::MAX
    }
}

/// Whether every append that is reached can be tried.
pub open spec fn appends_can_be_tried(
    endorsers: Seq<Endorser<Active>>,
    key_indices: Seq<usize>,
    ledger_id: u32,
    expected_index: u64,
) -> bool {
    forall|k: int|
        0 <= k < key_indices.len() && (forall|j: int|
            0 <= j < k ==> #[trigger] can_append(
                endorsers,
                key_indices,
                ledger_id,
                expected_index,
                j,
            )) ==> #[trigger] can_try(endorsers, key_indices, ledger_id, expected_index, k)
}

/// Whether exactly the endorsers at the first `n` of `key_indices` appended
/// `entry`.
pub open spec fn first_appended(
    before: Seq<Endorser<Active>>,
    after: Seq<Endorser<Active>>,
    key_indices: Seq<usize>,
    ledger_id: u32,
    entry: Seq<u8>,
    expected_index: u64,
    n: int,
) -> bool {
    &&& after.len() == before.len()
    &&& forall|k: int|
        0 <= k < n ==> #[trigger] can_append(before, key_indices, ledger_id, expected_index, k)
    &&& forall|i: int|
        0 <= i < before.len() ==> if key_indices.take(n).contains(i as usize) {
            appended((#[trigger] before[i])@, after[i]@, ledger_id, entry, expected_index)
        } else {
            after[i]@ == before[i]@
        }
}

/// Whether a receipt is the append receipt that an endorser signs for its
/// latest block.
pub open spec fn is_append_receipt(
    endorser: ActiveView,
    key_index: usize,
    ledger_id: u32,
    nonce: u64,
    receipt: LedgerReceipt,
) -> bool {
    &&& receipt.key_index == key_index
    &&& receipt.block == endorser.ledgers[ledger_id]
    &&& endorser.signed(
        receipts::append_message(endorser.instance_id, ledger_id, receipt.block, nonce),
        receipt.signature@,
    )
}

/// Calls `append_entry` on the endorsers at `key_indices`.
///
/// Stops at the first failure, leaving earlier endorsers with the entry
/// appended.
pub fn append_to(
    endorsers: &mut [Endorser<Active>],
    key_indices: &[usize],
    ledger_id: u32,
    entry: EntryContents,
    expected_index: u64,
    nonce: u64,
) -> (result: Result<AppendReceipts, AppendEntryError>)
    requires
        appends_can_be_tried(old(endorsers)@, key_indices@, ledger_id, expected_index),
    ensures
        match result {
            Ok(r) => {
                &&& first_appended(
                    old(endorsers)@,
                    final(endorsers)@,
                    key_indices@,
                    ledger_id,
                    entry@,
                    expected_index,
                    key_indices@.len() as int,
                )
                &&& r.append@.len() == key_indices@.len()
                &&& r.entry@.len() == key_indices@.len()
                &&& forall|k: int|
                    0 <= k < key_indices@.len() ==> is_append_receipt(
                        final(endorsers)@[key_indices@[k] as int]@,
                        key_indices@[k],
                        ledger_id,
                        nonce,
                        #[trigger] r.append@[k],
                    )
                &&& forall|k: int|
                    0 <= k < key_indices@.len() ==> is_entry_receipt(
                        final(endorsers)@[key_indices@[k] as int]@,
                        key_indices@[k],
                        ledger_id,
                        #[trigger] r.entry@[k],
                    )
            },
            Err(error) => exists|n: int|
                {
                    &&& 0 <= n < key_indices@.len()
                    &&& #[trigger] first_appended(
                        old(endorsers)@,
                        final(endorsers)@,
                        key_indices@,
                        ledger_id,
                        entry@,
                        expected_index,
                        n,
                    )
                    &&& !can_append(old(endorsers)@, key_indices@, ledger_id, expected_index, n)
                    &&& append_error(
                        final(endorsers)@[key_indices@[n] as int]@,
                        ledger_id,
                        expected_index,
                        error,
                    )
                },
        },
{
    let ghost before = endorsers@;
    let mut append: Vec<LedgerReceipt> = Vec::new();
    let mut entries: Vec<LedgerReceipt> = Vec::new();
    let mut i: usize = 0;
    proof {
        assert(key_indices@.take(0) =~= Seq::empty());
    }
    while i < key_indices.len()
        invariant
            i <= key_indices@.len(),
            before == old(endorsers)@,
            appends_can_be_tried(before, key_indices@, ledger_id, expected_index),
            first_appended(
                before,
                endorsers@,
                key_indices@,
                ledger_id,
                entry@,
                expected_index,
                i as int,
            ),
            append@.len() == i,
            entries@.len() == i,
            forall|k: int|
                0 <= k < i ==> is_append_receipt(
                    endorsers@[key_indices@[k] as int]@,
                    key_indices@[k],
                    ledger_id,
                    nonce,
                    #[trigger] append@[k],
                ),
            forall|k: int|
                0 <= k < i ==> is_entry_receipt(
                    endorsers@[key_indices@[k] as int]@,
                    key_indices@[k],
                    ledger_id,
                    #[trigger] entries@[k],
                ),
        decreases key_indices@.len() - i,
    {
        let key_index = key_indices[i];
        let ghost now = endorsers@;
        let ghost taken = key_indices@.take(i as int);
        proof {
            assert(can_try(before, key_indices@, ledger_id, expected_index, i as int));
            assert(before[key_index as int] == before[key_index as int]);
            if taken.contains(key_index) {
                assert(appended(
                    before[key_index as int]@,
                    now[key_index as int]@,
                    ledger_id,
                    entry@,
                    expected_index,
                ));
            }
        }
        match endorsers[key_index].append_entry(ledger_id, entry, expected_index, nonce) {
            Ok(signed) => {
                append.push(
                    LedgerReceipt {
                        key_index,
                        block: signed.block,
                        signature: signed.append_receipt,
                    },
                );
                entries.push(
                    LedgerReceipt {
                        key_index,
                        block: signed.block,
                        signature: signed.entry_receipt,
                    },
                );
                proof {
                    assert(!taken.contains(key_index));
                    assert(can_append(
                        before,
                        key_indices@,
                        ledger_id,
                        expected_index,
                        i as int,
                    ));
                    lemma_first_appended_step(
                        before,
                        now,
                        endorsers@,
                        key_indices@,
                        ledger_id,
                        entry@,
                        expected_index,
                        i as int,
                    );
                    assert forall|k: int| 0 <= k < i implies endorsers@[(
                    #[trigger] key_indices@[k]) as int]@ == now[key_indices@[k] as int]@ by {
                        assert(can_append(before, key_indices@, ledger_id, expected_index, k));
                        assert(taken[k] == key_indices@[k]);
                    }
                }
            },
            Err(error) => {
                proof {
                    assert(endorsers@ =~= now.update(key_index as int, endorsers@[key_index as int]));
                    assert(first_appended(
                        before,
                        endorsers@,
                        key_indices@,
                        ledger_id,
                        entry@,
                        expected_index,
                        i as int,
                    ));
                }
                return Err(error);
            },
        }
        i += 1;
    }
    Ok(AppendReceipts { append: LedgerReceipts::new(append), entry: LedgerReceipts::new(entries) })
}

/// Whether `error` is what appending to a ledger of an endorser fails with.
pub open spec fn append_error(
    endorser: ActiveView,
    ledger_id: u32,
    expected_index: u64,
    error: AppendEntryError,
) -> bool {
    match error {
        AppendEntryError::LedgerNotFound(e) => {
            &&& !endorser.ledgers.contains_key(ledger_id)
            &&& e.ledger_id == ledger_id
        },
        AppendEntryError::WrongIndex { expected, actual } => {
            &&& endorser.ledgers.contains_key(ledger_id)
            &&& expected == expected_index
            &&& actual == endorser.ledgers[ledger_id].index + 1
            &&& expected != actual
        },
    }
}

/// One more endorser appended.
proof fn lemma_first_appended_step(
    before: Seq<Endorser<Active>>,
    now: Seq<Endorser<Active>>,
    after: Seq<Endorser<Active>>,
    key_indices: Seq<usize>,
    ledger_id: u32,
    entry: Seq<u8>,
    expected_index: u64,
    n: int,
)
    requires
        0 <= n < key_indices.len(),
        first_appended(before, now, key_indices, ledger_id, entry, expected_index, n),
        can_append(before, key_indices, ledger_id, expected_index, n),
        after.len() == now.len(),
        forall|i: int|
            0 <= i < now.len() && i != key_indices[n] ==> #[trigger] after[i] == now[i],
        appended(
            now[key_indices[n] as int]@,
            after[key_indices[n] as int]@,
            ledger_id,
            entry,
            expected_index,
        ),
        before.len() <= usize::MAX,
    ensures
        first_appended(before, after, key_indices, ledger_id, entry, expected_index, n + 1),
{
    let taken = key_indices.take(n);
    let more = key_indices.take(n + 1);
    assert(more =~= taken.push(key_indices[n]));
    assert forall|i: int| 0 <= i < before.len() implies if more.contains(i as usize) {
        appended((#[trigger] before[i])@, after[i]@, ledger_id, entry, expected_index)
    } else {
        after[i]@ == before[i]@
    } by {
        if i == key_indices[n] {
            assert(more[n] == i as usize);
        } else {
            if more.contains(i as usize) {
                let k = choose|k: int| 0 <= k < more.len() && more[k] == i as usize;
                assert(taken[k] == i as usize);
            }
            if taken.contains(i as usize) {
                let k = choose|k: int| 0 <= k < taken.len() && taken[k] == i as usize;
                assert(more[k] == i as usize);
            }
            assert(after[i] == now[i]);
        }
    }
}

/// [`append_to`], where every append succeeds.
pub fn must_append_to(
    endorsers: &mut [Endorser<Active>],
    key_indices: &[usize],
    ledger_id: u32,
    entry: EntryContents,
    expected_index: u64,
    nonce: u64,
) -> (r: AppendReceipts)
    requires
        forall|k: int|
            0 <= k < key_indices@.len() ==> #[trigger] can_append(
                old(endorsers)@,
                key_indices@,
                ledger_id,
                expected_index,
                k,
            ),
    ensures
        first_appended(
            old(endorsers)@,
            final(endorsers)@,
            key_indices@,
            ledger_id,
            entry@,
            expected_index,
            key_indices@.len() as int,
        ),
        r.append@.len() == key_indices@.len(),
        r.entry@.len() == key_indices@.len(),
        forall|k: int|
            0 <= k < key_indices@.len() ==> is_append_receipt(
                final(endorsers)@[key_indices@[k] as int]@,
                key_indices@[k],
                ledger_id,
                nonce,
                #[trigger] r.append@[k],
            ),
        forall|k: int|
            0 <= k < key_indices@.len() ==> is_entry_receipt(
                final(endorsers)@[key_indices@[k] as int]@,
                key_indices@[k],
                ledger_id,
                #[trigger] r.entry@[k],
            ),
{
    proof {
        assert forall|k: int| 0 <= k < key_indices@.len() implies #[trigger] can_try(
            old(endorsers)@,
            key_indices@,
            ledger_id,
            expected_index,
            k,
        ) by {
            assert(can_append(old(endorsers)@, key_indices@, ledger_id, expected_index, k));
        }
    }
    append_to(endorsers, key_indices, ledger_id, entry, expected_index, nonce).expect(
        "append must succeed",
    )
}

/// Returns `0, 1, .., n - 1`.
pub fn all_indices(n: usize) -> (indices: Vec<usize>)
    ensures
        indices@.len() == n,
        forall|i: int| 0 <= i < n ==> indices@[i] == i,
{
    let mut indices: Vec<usize> = Vec::new();
    let mut i: usize = 0;
    while i < n
        invariant
            i <= n,
            indices@.len() == i,
            forall|j: int| 0 <= j < i ==> indices@[j] == j,
        decreases n - i,
    {
        indices.push(i);
        i += 1;
    }
    indices
}

// ---------------------------------------------------------------------------
// Handover
// ---------------------------------------------------------------------------

/// Whether an endorser finalized in favour of the configuration `next`.
pub open spec fn finalized_toward(
    before: ActiveView,
    after: FinalizedView,
    next: Seq<Seq<u8>>,
) -> bool {
    &&& before.signed(before.finalize_message(next), after.finalization_receipt)
    &&& after == (FinalizedView {
        key: before.key,
        instance_id: before.instance_id,
        ledgers: before.ledgers,
        activation_receipt: before.activation_receipt,
        finalization_receipt: after.finalization_receipt,
    })
}

/// Whether an entry holds the key and the finalization receipt of an endorser
/// that finalized in favour of the configuration `next`.
pub open spec fn is_finalization_entry(
    before: ActiveView,
    next: Seq<Seq<u8>>,
    entry: ReceiptEntry,
) -> bool {
    &&& entry.key == before.key
    &&& entry.receipt matches Some(receipt)
    &&& before.signed(before.finalize_message(next), receipt)
}

/// Finalizes all endorsers in `active` toward `next`. The ledgers are those of
/// the first endorser.
pub fn finalize_all_toward(active: Vec<Endorser<Active>>, next: &CohortConfig) -> (finalization:
    Finalization)
    requires
        active@.len() > 0,
    ensures
        finalization.finalized@.len() == active@.len(),
        finalization.entries@.len() == active@.len(),
        forall|i: int|
            0 <= i < active@.len() ==> finalized_toward(
                (#[trigger] active@[i])@,
                finalization.finalized@[i]@,
                next.key_seq(),
            ),
        forall|i: int|
            0 <= i < active@.len() ==> is_finalization_entry(
                active@[i]@,
                next.key_seq(),
                (#[trigger] finalization.entries@[i])@,
            ) && finalization.entries@[i]@.receipt
                == Some(finalization.finalized@[i]@.finalization_receipt),
        finalization.ledgers@ == active@[0]@.ledgers,
{
    let ghost all = active@;
    let ghost keys = next.key_seq();
    let ghost mut i: int = 0;
    let mut finalized: Vec<Endorser<Finalized>> = Vec::new();
    let mut entries: Vec<EndorserFinalization> = Vec::new();
    for endorser in it: active.into_iter()
        invariant
            it.seq() == all,
            i == it.index(),
            keys == next.key_seq(),
            finalized@.len() == i,
            entries@.len() == i,
            forall|j: int|
                0 <= j < i ==> finalized_toward((#[trigger] all[j])@, finalized@[j]@, keys),
            forall|j: int|
                0 <= j < i ==> is_finalization_entry(
                    all[j]@,
                    keys,
                    (#[trigger] entries@[j])@,
                ) && entries@[j]@.receipt == Some(finalized@[j]@.finalization_receipt),
    {
        let done = endorser.finalize(next);
        entries.push(
            EndorserData {
                endorser_key: *done.verifying_key(),
                maybe_receipt: Some(*done.finalization_receipt()),
            },
        );
        finalized.push(done);
        proof {
            i = i + 1;
        }
    }
    assert(finalized_toward(all[0]@, finalized@[0]@, keys));
    let ledgers = finalized[0].ledgers().clone();
    Finalization { finalized, entries, ledgers }
}

/// Copies entries to a vector.
fn copy_entries(entries: &[EndorserFinalization]) -> (copy: Vec<EndorserFinalization>)
    ensures
        copy@ == entries@,
{
    let mut copy: Vec<EndorserFinalization> = Vec::new();
    let mut i: usize = 0;
    while i < entries.len()
        invariant
            i <= entries@.len(),
            copy@ == entries@.take(i as int),
        decreases entries@.len() - i,
    {
        copy.push(entries[i]);
        i += 1;
    }
    assert(entries@.take(entries@.len() as int) =~= entries@);
    copy
}

/// Builds a [`CohortTakeOver`] for activating a successor cohort.
pub fn takeover_from(
    instance_id: ConfigId,
    entries: &[EndorserFinalization],
    ledgers: &Ledgers,
) -> (takeover: Result<CohortTakeOver, InvalidConfigError>)
    ensures
        takeover is Ok <==> cohort::valid_cohort(cohort::keys_of(entries@)),
        takeover matches Ok(t) ==> t@ == (TakeOverView {
            instance_id: instance_id@,
            finalization: quorum::receipt_entries(entries@),
            ledgers: ledgers@,
        }),
{
    match CohortFinalization::try_new(copy_entries(entries)) {
        Ok(cohort_finalization) => Ok(
            CohortTakeOver::new(instance_id, cohort_finalization, ledgers.clone()),
        ),
        Err(error) => Err(error),
    }
}

/// [`takeover_from`], where the entries are in key order.
pub fn must_takeover_from(
    instance_id: ConfigId,
    entries: &[EndorserFinalization],
    ledgers: &Ledgers,
) -> (takeover: CohortTakeOver)
    requires
        cohort::valid_cohort(cohort::keys_of(entries@)),
    ensures
        takeover@ == (TakeOverView {
            instance_id: instance_id@,
            finalization: quorum::receipt_entries(entries@),
            ledgers: ledgers@,
        }),
{
    takeover_from(instance_id, entries, ledgers).expect("entries are in key order")
}

/// Whether an entry holds the key and the activation receipt of an endorser.
pub open spec fn is_activation_entry(endorser: ActiveView, entry: ReceiptEntry) -> bool {
    &&& entry.key == endorser.key
    &&& entry.receipt == Some(endorser.activation_receipt)
}

/// Whether a handover holds the finalization entries, the activation receipts
/// of the successors, and the ledgers hash.
pub open spec fn is_handover_of(
    handover: HandoverView,
    entries: Seq<ReceiptEntry>,
    successor: Seq<Endorser<Active>>,
    ledgers_hash: Seq<u8>,
) -> bool {
    &&& handover.finalization == entries
    &&& handover.activation.len() == successor.len()
    &&& forall|i: int|
        0 <= i < successor.len() ==> is_activation_entry(
            successor[i]@,
            #[trigger] handover.activation[i],
        )
    &&& handover.ledgers_hash == ledgers_hash
}

/// Builds a [`CohortHandover`] for evolving a verifier.
pub fn handover_from(
    entries: &[EndorserFinalization],
    successor: &[Endorser<Active>],
    ledgers_hash: Sha256Digest,
) -> (handover: Result<CohortHandover, InvalidConfigError>)
    ensures
        handover is Ok <==> cohort::valid_cohort(cohort::keys_of(entries@))
            && cohort::valid_cohort(challenge::endorser_keys(successor@)),
        handover matches Ok(h) ==> is_handover_of(
            h@,
            quorum::receipt_entries(entries@),
            successor@,
            ledgers_hash@,
        ),
{
    let mut activations: Vec<EndorserActivation> = Vec::new();
    let mut i: usize = 0;
    while i < successor.len()
        invariant
            i <= successor@.len(),
            activations@.len() == i,
            forall|j: int|
                0 <= j < i ==> is_activation_entry(
                    successor@[j]@,
                    (#[trigger] activations@[j])@,
                ),
        decreases successor@.len() - i,
    {
        activations.push(
            EndorserData {
                endorser_key: *successor[i].verifying_key(),
                maybe_receipt: Some(*successor[i].activation_receipt()),
            },
        );
        i += 1;
    }
    assert(cohort::keys_of(activations@) =~= challenge::endorser_keys(successor@));
    CohortHandover::try_new(copy_entries(entries), activations, ledgers_hash)
}

/// [`handover_from`], where entries and successors are in key order.
pub fn must_handover_from(
    entries: &[EndorserFinalization],
    successor: &[Endorser<Active>],
    ledgers_hash: Sha256Digest,
) -> (handover: CohortHandover)
    requires
        cohort::valid_cohort(cohort::keys_of(entries@)),
        cohort::valid_cohort(challenge::endorser_keys(successor@)),
    ensures
        is_handover_of(
            handover@,
            quorum::receipt_entries(entries@),
            successor@,
            ledgers_hash@,
        ),
{
    handover_from(entries, successor, ledgers_hash).expect("entries are in key order")
}

/// The entries of endorsers that finalized in favour of the configuration
/// `next`.
pub open spec fn finalization_entries(active: Seq<Endorser<Active>>, next: Seq<Seq<u8>>) -> Seq<
    ReceiptEntry,
> {
    active.map_values(
        |endorser: Endorser<Active>|
            ReceiptEntry {
                key: endorser@.key,
                receipt: Some(
                    crypto::ecdsa_signature(
                        endorser@.secret,
                        endorser@.finalize_message(next),
                    ),
                ),
            },
    )
}

/// The takeover for which `active` finalizes in favour of the configuration
/// `next`, with the ledgers of the first endorser.
pub open spec fn takeover_toward(
    active: Seq<Endorser<Active>>,
    instance_id: Seq<u8>,
    next: Seq<Seq<u8>>,
) -> TakeOverView {
    TakeOverView {
        instance_id,
        finalization: finalization_entries(active, next),
        ledgers: active[0]@.ledgers,
    }
}

/// Whether a succession is a handover from `active` to `successor`: the former
/// finalized in favour of the latter, and these took the instance over with the
/// ledgers of the first of the former.
pub open spec fn is_succession(
    active: Seq<Endorser<Active>>,
    instance_id: Seq<u8>,
    successor: Seq<Endorser<Uninitialized>>,
    succession: Succession,
) -> bool {
    let next = challenge::endorser_keys(successor);
    let takeover = takeover_toward(active, instance_id, next);
    &&& succession.successor@.len() == successor.len()
    &&& forall|i: int|
        0 <= i < successor.len() ==> succession.successor@[i]@.takes_over(
            (#[trigger] successor[i])@,
            next,
            takeover,
        )
    &&& is_handover_of(
        succession.handover@,
        takeover.finalization,
        succession.successor@,
        ledger::ledgers_hash(takeover.ledgers),
    )
}

/// Whether a verifier that trusts `active` comes to trust `successor` by the
/// handover of a succession.
pub open spec fn is_followed(
    active: Seq<Endorser<Active>>,
    instance_id: Seq<u8>,
    successor: Seq<Endorser<Uninitialized>>,
    succession: Succession,
) -> bool {
    let current = VerifierView { config: challenge::endorser_keys(active), instance_id };
    current.handover_verdict(succession.handover@) == Ok::<_, HandoverError>(
        VerifierView { config: challenge::endorser_keys(successor), instance_id },
    )
}

/// Whether the endorsers of a cohort agree: each has the cohort's keys as its
/// configuration and serves the instance, and all have the same ledgers.
pub open spec fn in_agreement(active: Seq<Endorser<Active>>, instance_id: Seq<u8>) -> bool {
    forall|i: int|
        0 <= i < active.len() ==> {
            &&& (#[trigger] active[i])@.config == challenge::endorser_keys(active)
            &&& active[i]@.instance_id == instance_id
            &&& active[i]@.ledgers == active[0]@.ledgers
        }
}

/// Where all entries hold a receipt for a message, the count is that of the
/// entries.
proof fn lemma_all_hold_receipts(entries: Seq<ReceiptEntry>, message: Seq<u8>)
    requires
        forall|i: int|
            0 <= i < entries.len() ==> quorum::holds_receipt(#[trigger] entries[i], message),
    ensures
        quorum::receipt_count(entries, message) == entries.len(),
    decreases entries.len(),
{
    if entries.len() > 0 {
        let earlier = entries.drop_last();
        assert forall|i: int| 0 <= i < earlier.len() implies quorum::holds_receipt(
            #[trigger] earlier[i],
            message,
        ) by {
            assert(earlier[i] == entries[i]);
        }
        lemma_all_hold_receipts(earlier, message);
        assert(entries.last() == entries[entries.len() - 1]);
    }
}

/// Finalizes `active` and hands over to the endorsers in `successor`.
///
/// A cohort whose endorsers agree always succeeds, given a successor, and a
/// verifier that trusts it follows the handover.
///
/// Returns `InvalidConfig` if either does not make up a cohort, and
/// `Activation` if the finalization receipts are not a quorum for the takeover.
pub fn hand_over_to(
    active: Vec<Endorser<Active>>,
    instance_id: ConfigId,
    successor: Vec<Endorser<Uninitialized>>,
) -> (result: Result<Succession, SuccessionError>)
    requires
        active@.len() > 0 || !cohort::valid_cohort(challenge::endorser_keys(successor@)),
    ensures
        ({
            let outgoing = challenge::endorser_keys(active@);
            let next = challenge::endorser_keys(successor@);
            if !cohort::valid_cohort(next) || !cohort::valid_cohort(outgoing) {
                result matches Err(SuccessionError::InvalidConfig(_))
            } else if !takeover_toward(active@, instance_id@, next).is_quorum_for(
                cohort::config_id_of(next),
            ) {
                &&& result matches Err(
                    SuccessionError::Activation(ActivationError::NoQuorum { endorser }),
                )
                &&& endorser == successor@[0]
            } else {
                &&& result matches Ok(succession)
                &&& is_succession(active@, instance_id@, successor@, succession)
            }
        }),
        ({
            let outgoing = challenge::endorser_keys(active@);
            let next = challenge::endorser_keys(successor@);
            &&& cohort::valid_cohort(outgoing)
            &&& cohort::valid_cohort(next)
            &&& in_agreement(active@, instance_id@)
        }) ==> {
            &&& result matches Ok(succession)
            &&& is_followed(active@, instance_id@, successor@, succession)
        },
{
    let ghost fresh = successor@;
    let next_config = match challenge::cohort_config(successor.as_slice()) {
        Ok(config) => config,
        Err(error) => {
            return Err(SuccessionError::InvalidConfig(error));
        },
    };
    let ghost next = next_config.key_seq();
    let finalization = finalize_all_toward(active, &next_config);
    proof {
        let entries = finalization.entries@;
        assert(cohort::keys_of(entries) =~= challenge::endorser_keys(active@));
        assert(quorum::receipt_entries(entries) =~= finalization_entries(active@, next)) by {
            assert forall|i: int| 0 <= i < entries.len() implies (#[trigger] entries[i])@
                == finalization_entries(active@, next)[i] by {
                assert(is_finalization_entry(active@[i]@, next, entries[i]@));
            }
        }
        assert forall|i: int| 0 <= i < fresh.len() implies next.contains(
            (#[trigger] fresh[i])@.key,
        ) by {
            assert(next[i] == fresh[i]@.key);
        }
        let plan = takeover_toward(active@, instance_id@, next);
        quorum::lemma_entry_keys(entries);
        if in_agreement(active@, instance_id@) {
            let message = plan.message_for(cohort::config_id_of(next));
            assert forall|i: int| 0 <= i < plan.finalization.len() implies quorum::holds_receipt(
                #[trigger] plan.finalization[i],
                message,
            ) by {
                assert(is_finalization_entry(active@[i]@, next, entries[i]@));
                assert(plan.finalization[i] == entries[i]@);
                assert(active@[i]@.finalize_message(next) == message);
            }
            lemma_all_hold_receipts(plan.finalization, message);
            assert(plan.is_quorum_for(cohort::config_id_of(next)));
        }
    }
    let takeover = match takeover_from(
        instance_id,
        finalization.entries.as_slice(),
        &finalization.ledgers,
    ) {
        Ok(takeover) => takeover,
        Err(error) => {
            return Err(SuccessionError::InvalidConfig(error));
        },
    };
    if !takeover.verify(&next_config) {
        // The first successor refuses, and the others are not tried.
        let mut successor = successor;
        let endorser = successor.remove(0);
        return Err(SuccessionError::Activation(ActivationError::NoQuorum { endorser }));
    }
    let successor = must_activate_all_with_takeover(successor, &next_config, &takeover);
    assert(challenge::endorser_keys(successor@) =~= next) by {
        assert forall|i: int| 0 <= i < fresh.len() implies successor@[i]@.key
            == #[trigger] next[i] by {
            assert(successor@[i]@.takes_over(fresh[i]@, next, takeover@));
        }
    }
    let handover = match handover_from(
        finalization.entries.as_slice(),
        successor.as_slice(),
        finalization.ledgers.hash(),
    ) {
        Ok(handover) => handover,
        Err(error) => {
            return Err(SuccessionError::InvalidConfig(error));
        },
    };
    let succession = Succession { successor, handover };
    proof {
        if in_agreement(active@, instance_id@) {
            let plan = takeover_toward(active@, instance_id@, next);
            let view = succession.handover@;
            let message = view.activate_message(instance_id@);
            assert(view.outgoing() =~= challenge::endorser_keys(active@));
            assert(view.incoming() =~= next) by {
                assert forall|i: int| 0 <= i < fresh.len() implies view.activation[i].key
                    == #[trigger] next[i] by {
                    assert(is_activation_entry(succession.successor@[i]@, view.activation[i]));
                    assert(next.contains(fresh[i]@.key));
                }
            }
            assert forall|i: int| 0 <= i < view.activation.len() implies quorum::holds_receipt(
                #[trigger] view.activation[i],
                message,
            ) by {
                assert(is_activation_entry(succession.successor@[i]@, view.activation[i]));
                assert(next.contains(fresh[i]@.key));
                assert(succession.successor@[i]@.takes_over(fresh[i]@, next, plan));
            }
            lemma_all_hold_receipts(view.activation, message);
            assert(view.finalized(instance_id@));
            assert(view.activated(instance_id@));
            assert(is_followed(active@, instance_id@, fresh, succession));
        }
    }
    Ok(succession)
}

/// Finalizes `active` and hands over to a fresh cohort of `size` endorsers, as
/// [`hand_over_to`] does.
///
/// The keys of the fresh cohort are random. A cohort whose endorsers agree
/// fails only if the fresh endorsers do not make up a cohort: none was asked
/// for, or two of their keys are the same. So it always hands over to one
/// endorser.
pub fn hand_over_to_fresh_cohort(
    active: Vec<Endorser<Active>>,
    instance_id: ConfigId,
    size: usize,
) -> (result: Result<Succession, SuccessionError>)
    requires
        active@.len() > 0 || size == 0,
    ensures
        size == 0 || !cohort::valid_cohort(challenge::endorser_keys(active@)) ==> result matches Err(
            SuccessionError::InvalidConfig(_),
        ),
        match result {
            Ok(succession) => exists|successor: Vec<Endorser<Uninitialized>>|
                {
                    let next = challenge::endorser_keys(successor@);
                    &&& #[trigger] call_ensures(
                        challenge::new_sorted_endorsers,
                        (size,),
                        successor,
                    )
                    &&& cohort::valid_cohort(next)
                    &&& takeover_toward(active@, instance_id@, next).is_quorum_for(
                        cohort::config_id_of(next),
                    )
                    &&& is_succession(active@, instance_id@, successor@, succession)
                    &&& in_agreement(active@, instance_id@) ==> is_followed(
                        active@,
                        instance_id@,
                        successor@,
                        succession,
                    )
                },
            Err(SuccessionError::InvalidConfig(_)) => {
                ||| !cohort::valid_cohort(challenge::endorser_keys(active@))
                ||| exists|successor: Vec<Endorser<Uninitialized>>|
                    {
                        &&& #[trigger] call_ensures(
                            challenge::new_sorted_endorsers,
                            (size,),
                            successor,
                        )
                        &&& size == 0 || challenge::has_repeated_key(
                            challenge::endorser_keys(successor@),
                        )
                    }
            },
            Err(SuccessionError::Activation(error)) => {
                &&& !in_agreement(active@, instance_id@)
                &&& error matches ActivationError::NoQuorum { endorser }
                &&& exists|successor: Vec<Endorser<Uninitialized>>|
                    {
                        let next = challenge::endorser_keys(successor@);
                        &&& #[trigger] call_ensures(
                            challenge::new_sorted_endorsers,
                            (size,),
                            successor,
                        )
                        &&& cohort::valid_cohort(next)
                        &&& !takeover_toward(active@, instance_id@, next).is_quorum_for(
                            cohort::config_id_of(next),
                        )
                        &&& endorser == successor@[0]
                    }
            },
        },
        size == 1 && cohort::valid_cohort(challenge::endorser_keys(active@)) && in_agreement(
            active@,
            instance_id@,
        ) ==> result is Ok,
{
    let successor = challenge::new_sorted_endorsers(size);
    proof {
        assert(call_ensures(challenge::new_sorted_endorsers, (size,), successor));
        challenge::lemma_sorted_cohort(challenge::endorser_keys(successor@));
    }
    hand_over_to(active, instance_id, successor)
}

} // verus!
