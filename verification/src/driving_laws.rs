//! Driving the endorsers of a cohort together does to each what its own
//! operations do.

use vstd::prelude::*;

use crate::challenge;
use crate::cohort::{CohortConfig, ConfigId, EndorserFinalization, InvalidConfigError};
use crate::endorser::{
    ActivationError, Active, AppendEntryError, CreateLedgerError, Endorser, Finalized,
    LedgerNotFoundError, Uninitialized,
};
use crate::endorser_laws;
use crate::handover::{CohortHandover, HandoverError};
use crate::keys::Sha256Digest;
use crate::ledger;
use crate::ledger::{AppendedLedgerBlock, EntryContents, Ledgers, SignedLedgerBlock};
use crate::takeover::CohortTakeOver;
use crate::util;
use crate::util::{AppendReceipts, Finalization, ReadReceipts, Succession, SuccessionError};
use crate::verification::Verifier;

verus! {

/// Activating an initial cohort succeeds exactly if every endorser can be
/// activated by itself, and makes of each what that makes of it.
pub proof fn law_cohort_is_activated_one_by_one(
    endorsers: Vec<Endorser<Uninitialized>>,
    config: &CohortConfig,
    activated: Result<Vec<Endorser<Active>>, ActivationError>,
    i: int,
    one: Result<Endorser<Active>, ActivationError>,
)
    requires
        call_ensures(util::activate_all, (endorsers, config), activated),
        0 <= i < endorsers@.len(),
        call_ensures(
            Endorser::<Uninitialized>::activate,
            (endorsers@[i], *config, None::<CohortTakeOver>),
            one,
        ),
    ensures
        activated is Ok ==> {
            &&& one is Ok
            &&& activated->Ok_0@.len() == endorsers@.len()
            &&& endorser_laws::same_identity(activated->Ok_0@[i]@, one->Ok_0@)
        },
        activated is Ok <==> forall|j: int|
            0 <= j < endorsers@.len() ==> config.key_seq().contains(
                (#[trigger] endorsers@[j])@.key,
            ),
        activated matches Err(error) ==> error is KeyNotInConfig && !config.key_seq().contains(
            error.endorser()@.key,
        ),
{
    if activated is Ok {
        assert(config.key_seq().contains(endorsers@[i]@.key));
    }
}

/// Activating a cohort with a takeover succeeds only if every endorser can be
/// activated with it by itself, and makes of each what that makes of it.
pub proof fn law_cohort_takes_over_one_by_one(
    endorsers: Vec<Endorser<Uninitialized>>,
    config: &CohortConfig,
    takeover: &CohortTakeOver,
    activated: Result<Vec<Endorser<Active>>, ActivationError>,
    i: int,
    one: Result<Endorser<Active>, ActivationError>,
    valid: bool,
)
    requires
        call_ensures(util::activate_all_with_takeover, (endorsers, config, takeover), activated),
        0 <= i < endorsers@.len(),
        call_ensures(
            Endorser::<Uninitialized>::activate,
            (endorsers@[i], *config, Some(*takeover)),
            one,
        ),
        call_ensures(CohortTakeOver::verify, (takeover, config), valid),
    ensures
        activated is Ok ==> {
            &&& one is Ok
            &&& activated->Ok_0@.len() == endorsers@.len()
            &&& activated->Ok_0@[i]@ == one->Ok_0@
        },
        activated is Ok <==> valid && forall|j: int|
            0 <= j < endorsers@.len() ==> config.key_seq().contains(
                (#[trigger] endorsers@[j])@.key,
            ),
        activated matches Err(error) ==> (error is NoQuorum ==> !valid),
{
    if activated is Ok {
        assert(config.key_seq().contains(endorsers@[i]@.key));
    }
}

/// Creating a ledger on a cohort creates it on every endorser.
pub proof fn law_cohort_creates_a_ledger_one_by_one(
    endorsers: &mut [Endorser<Active>],
    ledger_id: u32,
    created: Result<(), CreateLedgerError>,
    i: int,
    nonce: u64,
    before: Result<SignedLedgerBlock, LedgerNotFoundError>,
    after: Result<SignedLedgerBlock, LedgerNotFoundError>,
)
    requires
        call_ensures(util::create_ledger_on, (endorsers, ledger_id), created),
        0 <= i < old(endorsers)@.len(),
        call_ensures(
            Endorser::<Active>::read_latest,
            (&old(endorsers)@[i], ledger_id, nonce),
            before,
        ),
        call_ensures(
            Endorser::<Active>::read_latest,
            (&final(endorsers)@[i], ledger_id, nonce),
            after,
        ),
    ensures
        final(endorsers)@.len() == old(endorsers)@.len(),
        endorser_laws::same_identity(old(endorsers)@[i]@, final(endorsers)@[i]@),
        created is Ok ==> {
            &&& before is Err
            &&& after is Ok
            &&& after->Ok_0.block.index == 0
            &&& after->Ok_0.block.entry@ == Seq::new(32, |j: int| 0u8)
            &&& after->Ok_0.block.hash_chain_tail@ == Seq::new(32, |j: int| 0u8)
        },
        before is Ok ==> created is Err && endorser_laws::same_read(before, after),
        created is Ok <==> forall|j: int|
            0 <= j < old(endorsers)@.len() ==> !(#[trigger] old(
                endorsers,
            )@[j])@.ledgers.contains_key(ledger_id),
{
    if created is Ok {
        assert(util::created(old(endorsers)@[i]@, final(endorsers)@[i]@, ledger_id));
        assert forall|j: int| 0 <= j < old(endorsers)@.len() implies !(#[trigger] old(
            endorsers,
        )@[j])@.ledgers.contains_key(ledger_id) by {
            assert(util::created(old(endorsers)@[j]@, final(endorsers)@[j]@, ledger_id));
        }
    } else {
        let n = choose|n: int|
            {
                &&& 0 <= n < old(endorsers)@.len()
                &&& #[trigger] old(endorsers)@[n]@.ledgers.contains_key(ledger_id)
                &&& forall|j: int|
                    0 <= j < n ==> util::created(
                        (#[trigger] old(endorsers)@[j])@,
                        final(endorsers)@[j]@,
                        ledger_id,
                    )
                &&& forall|j: int|
                    n <= j < old(endorsers)@.len() ==> (#[trigger] final(endorsers)@[j])@
                        == old(endorsers)@[j]@
            };
        if i < n {
            assert(util::created(old(endorsers)@[i]@, final(endorsers)@[i]@, ledger_id));
        } else {
            assert(final(endorsers)@[i]@ == old(endorsers)@[i]@);
        }
    }
}

/// The receipts that are collected from endorsers for a read are those that each
/// gives by itself, under its place in the cohort.
pub proof fn law_reads_are_collected_one_by_one(
    endorsers: &[Endorser<Active>],
    key_indices: &[usize],
    ledger_id: u32,
    nonce: u64,
    collected: ReadReceipts,
    k: int,
    one: Result<SignedLedgerBlock, LedgerNotFoundError>,
)
    requires
        call_ensures(
            util::read_latest_from,
            (endorsers, key_indices, ledger_id, nonce),
            Ok::<_, LedgerNotFoundError>(collected),
        ),
        0 <= k < key_indices@.len(),
        call_ensures(
            Endorser::<Active>::read_latest,
            (&endorsers@[key_indices@[k] as int], ledger_id, nonce),
            one,
        ),
    ensures
        collected.read@.len() == key_indices@.len(),
        collected.entry@.len() == key_indices@.len(),
        one is Ok,
        ({
            let signed = one->Ok_0;
            &&& collected.read@[k].key_index == key_indices@[k]
            &&& collected.read@[k].block == signed.block
            &&& collected.read@[k].signature@ == signed.read_receipt@
            &&& collected.entry@[k].key_index == key_indices@[k]
            &&& collected.entry@[k].block == signed.block
            &&& collected.entry@[k].signature@ == signed.entry_receipt@
        }),
{
    assert(util::is_read_receipt(
        endorsers@[key_indices@[k] as int]@,
        key_indices@[k],
        ledger_id,
        nonce,
        collected.read@[k],
    ));
    assert(util::is_entry_receipt(
        endorsers@[key_indices@[k] as int]@,
        key_indices@[k],
        ledger_id,
        collected.entry@[k],
    ));
}

/// Appending to endorsers of a cohort does to each that is named what it does to
/// one by itself, collects its receipts under its place in the cohort, and leaves
/// the others as they were.
pub proof fn law_appends_are_collected_one_by_one(
    endorsers: &mut [Endorser<Active>],
    key_indices: &[usize],
    ledger_id: u32,
    entry: EntryContents,
    expected_index: u64,
    nonce: u64,
    collected: AppendReceipts,
    k: int,
    by_itself: &mut Endorser<Active>,
    one: Result<AppendedLedgerBlock, AppendEntryError>,
)
    requires
        call_ensures(
            util::append_to,
            (endorsers, key_indices, ledger_id, entry, expected_index, nonce),
            Ok::<_, AppendEntryError>(collected),
        ),
        0 <= k < key_indices@.len(),
        old(by_itself)@ == old(endorsers)@[key_indices@[k] as int]@,
        call_ensures(
            Endorser::<Active>::append_entry,
            (by_itself, ledger_id, entry, expected_index, nonce),
            one,
        ),
    ensures
        collected.append@.len() == key_indices@.len(),
        collected.entry@.len() == key_indices@.len(),
        one is Ok,
        ({
            let signed = one->Ok_0;
            &&& collected.append@[k].key_index == key_indices@[k]
            &&& collected.append@[k].block == signed.block
            &&& collected.append@[k].signature@ == signed.append_receipt@
            &&& collected.entry@[k].key_index == key_indices@[k]
            &&& collected.entry@[k].block == signed.block
            &&& collected.entry@[k].signature@ == signed.entry_receipt@
        }),
        final(endorsers)@[key_indices@[k] as int]@ == final(by_itself)@,
        final(endorsers)@.len() == old(endorsers)@.len(),
        forall|i: int|
            0 <= i < old(endorsers)@.len() && !key_indices@.contains(i as usize) ==> (
            #[trigger] final(endorsers)@[i])@ == old(endorsers)@[i]@,
{
    let n = key_indices@.len() as int;
    let before = old(endorsers)@;
    let after = final(endorsers)@;
    assert(key_indices@.take(n) =~= key_indices@);
    assert(util::can_append(before, key_indices@, ledger_id, expected_index, k));
    let at = key_indices@[k] as int;
    assert(key_indices@.contains(at as usize));
    assert(util::appended(before[at]@, after[at]@, ledger_id, entry@, expected_index));
    assert(util::is_append_receipt(
        after[at]@,
        key_indices@[k],
        ledger_id,
        nonce,
        collected.append@[k],
    ));
    assert(util::is_entry_receipt(after[at]@, key_indices@[k], ledger_id, collected.entry@[k]));
    if one is Ok {
        one->Ok_0.block.lemma_ext(after[at]@.ledgers[ledger_id]);
    }
    assert forall|i: int|
        0 <= i < before.len() && !key_indices@.contains(i as usize) implies (
    #[trigger] after[i])@ == before[i]@ by {
        assert(before[i] == before[i]);
    }
}

/// Finalizing a cohort makes of each endorser what finalizing it by itself makes
/// of it, collects the keys and receipts in order, and takes the ledgers from the
/// first endorser.
pub proof fn law_cohort_is_finalized_one_by_one(
    active: Vec<Endorser<Active>>,
    next: &CohortConfig,
    finalization: Finalization,
    i: int,
    one: Endorser<Finalized>,
)
    requires
        active@.len() > 0,
        call_ensures(util::finalize_all_toward, (active, next), finalization),
        0 <= i < active@.len(),
        call_ensures(Endorser::<Active>::finalize, (active@[i], next), one),
    ensures
        finalization.finalized@.len() == active@.len(),
        finalization.entries@.len() == active@.len(),
        finalization.finalized@[i]@ == one@,
        finalization.entries@[i]@.key == one@.key,
        finalization.entries@[i]@.receipt == Some(one@.finalization_receipt),
        finalization.ledgers@ == active@[0]@.ledgers,
{
    assert(util::finalized_toward(
        active@[i]@,
        finalization.finalized@[i]@,
        next.key_seq(),
    ));
    assert(util::is_finalization_entry(
        active@[i]@,
        next.key_seq(),
        finalization.entries@[i]@,
    ));
}

/// A takeover that is built from entries holds them in order, with the instance
/// and the ledgers that are given.
pub proof fn law_takeover_holds_its_parts(
    instance_id: ConfigId,
    entries: &[EndorserFinalization],
    ledgers: &Ledgers,
    takeover: CohortTakeOver,
    i: int,
)
    requires
        call_ensures(
            util::takeover_from,
            (instance_id, entries, ledgers),
            Ok::<_, InvalidConfigError>(takeover),
        ),
        0 <= i < entries@.len(),
    ensures
        takeover@.instance_id == instance_id@,
        takeover@.ledgers == ledgers@,
        takeover@.finalization.len() == entries@.len(),
        takeover@.finalization[i].key == entries@[i].endorser_key@,
        match entries@[i].maybe_receipt {
            Some(receipt) => takeover@.finalization[i].receipt == Some(receipt@),
            None => takeover@.finalization[i].receipt is None,
        },
{
}

/// A handover that is built from entries and successors holds the entries in
/// order, the successors' keys and activation receipts in order, and the digest
/// that is given.
pub proof fn law_handover_holds_its_parts(
    entries: &[EndorserFinalization],
    successor: &[Endorser<Active>],
    ledgers_hash: Sha256Digest,
    handover: CohortHandover,
)
    requires
        call_ensures(
            util::handover_from,
            (entries, successor, ledgers_hash),
            Ok::<_, InvalidConfigError>(handover),
        ),
    ensures
        handover@.finalization.len() == entries@.len(),
        forall|i: int|
            0 <= i < entries@.len() ==> handover@.finalization[i].key == (
            #[trigger] entries@[i]).endorser_key@,
        forall|i: int|
            0 <= i < entries@.len() ==> match (#[trigger] entries@[i]).maybe_receipt {
                Some(receipt) => handover@.finalization[i].receipt == Some(receipt@),
                None => handover@.finalization[i].receipt is None,
            },
        handover@.activation.len() == successor@.len(),
        forall|i: int|
            0 <= i < successor@.len() ==> handover@.activation[i].key == (
            #[trigger] successor@[i])@.key,
        forall|i: int|
            0 <= i < successor@.len() ==> handover@.activation[i].receipt == Some(
                (#[trigger] successor@[i])@.activation_receipt,
            ),
        handover@.ledgers_hash == ledgers_hash@,
{
    assert forall|i: int| 0 <= i < successor@.len() implies handover@.activation[i].key == (
    #[trigger] successor@[i])@.key && handover@.activation[i].receipt == Some(
        successor@[i]@.activation_receipt,
    ) by {
        assert(util::is_activation_entry(successor@[i]@, handover@.activation[i]));
    }
}

/// A cohort whose endorsers agree can always hand over to another: a client that
/// trusts the cohort follows the handover and comes to trust the successors,
/// which have the instance and the ledgers.
pub proof fn law_clients_follow_a_succession(
    active: Vec<Endorser<Active>>,
    active_slice: &[Endorser<Active>],
    instance_id: ConfigId,
    successor: Vec<Endorser<Uninitialized>>,
    successor_slice: &[Endorser<Uninitialized>],
    handed_over: Result<Succession, SuccessionError>,
    outgoing: CohortConfig,
    incoming: CohortConfig,
    client: &mut Verifier,
    applied: Result<(), HandoverError>,
)
    requires
        active@.len() > 0,
        call_ensures(util::hand_over_to, (active, instance_id, successor), handed_over),
        call_ensures(
            challenge::cohort_config::<Active>,
            (active_slice,),
            Ok::<_, InvalidConfigError>(outgoing),
        ),
        active_slice@ == active@,
        call_ensures(
            challenge::cohort_config::<Uninitialized>,
            (successor_slice,),
            Ok::<_, InvalidConfigError>(incoming),
        ),
        successor_slice@ == successor@,
        forall|i: int|
            0 <= i < active@.len() ==> {
                &&& (#[trigger] active@[i])@.config == outgoing.key_seq()
                &&& active@[i]@.instance_id == instance_id@
                &&& active@[i]@.ledgers == active@[0]@.ledgers
            },
        old(client)@.config == outgoing.key_seq(),
        old(client)@.instance_id == instance_id@,
        handed_over is Ok ==> call_ensures(
            Verifier::apply_handover,
            (client, handed_over->Ok_0.handover),
            applied,
        ),
    ensures
        handed_over is Ok,
        applied is Ok,
        final(client)@.instance_id == instance_id@,
        final(client)@.config.len() == successor@.len(),
        forall|i: int|
            0 <= i < successor@.len() ==> #[trigger] final(client)@.config[i]
                == successor@[i]@.key,
        handed_over->Ok_0.successor@.len() == successor@.len(),
        forall|i: int|
            0 <= i < successor@.len() ==> {
                let after = (#[trigger] handed_over->Ok_0.successor@[i])@;
                &&& after.key == successor@[i]@.key
                &&& after.config == incoming.key_seq()
                &&& after.instance_id == instance_id@
                &&& after.ledgers == active@[0]@.ledgers
            },
{
    let keys = challenge::endorser_keys(successor@);
    assert(util::in_agreement(active@, instance_id@));
    let succession = handed_over->Ok_0;
    assert(util::is_succession(active@, instance_id@, successor@, succession));
    assert forall|i: int| 0 <= i < successor@.len() implies {
        let after = (#[trigger] succession.successor@[i])@;
        &&& after.key == successor@[i]@.key
        &&& after.config == incoming.key_seq()
        &&& after.instance_id == instance_id@
        &&& after.ledgers == active@[0]@.ledgers
    } by {
        assert(successor@[i] == successor@[i]);
    }
    assert forall|i: int| 0 <= i < successor@.len() implies #[trigger] final(client)@.config[i]
        == successor@[i]@.key by {
        assert(keys[i] == successor@[i]@.key);
    }
}

} // verus!
