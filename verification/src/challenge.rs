//! The split-view challenge: an attempt to make a verifier accept two views of
//! a ledger that contradict each other.
//!
//! Implement [`Falsifier`] and pass it to [`run`].

use vstd::prelude::*;

use crate::bytes;
use crate::cohort;
use crate::cohort::{CohortConfig, InvalidConfigError};
use crate::crypto;
use crate::endorser::{Endorser, Phase, Uninitialized};
use crate::handover::{CohortHandover, HandoverError, HandoverView};
use crate::keys::VerifyingKey;
use crate::ledger::{EntryContents, LedgerBlock};
use crate::ledger_receipts::{LedgerReceipt, LedgerReceipts};
use crate::verification::{Claim, Verifier, VerifierView, VerifyError};

verus! {

/// Cohort size used unless a [`Falsifier`] overrides it (2-of-3 quorum).
pub const DEFAULT_COHORT_SIZE: usize = 3;

/// An attempt to produce two conflicting views accepted by [`Verifier`].
pub trait Falsifier: Sized {
    /// Size of the initial cohort, at least one. Successor cohorts you build
    /// yourself can be any size.
    fn cohort_size(&self) -> (size: usize)
        default_ensures
            size == DEFAULT_COHORT_SIZE,
    {
        DEFAULT_COHORT_SIZE
    }

    /// Given a fresh uninitialized cohort (sorted by SEC1 verifying key so
    /// `endorsers[i]` has `key_index == i`), returns two views to verify.
    fn attempt(self, endorsers: Vec<Endorser<Uninitialized>>) -> (LedgerView, LedgerView);
}

/// A ledger view to be verified by a [`Verifier`].
pub struct LedgerView {
    /// Handovers to apply in order from the initial cohort config.
    pub handovers: Vec<CohortHandover>,
    /// Receipts to verify against the resulting cohort config.
    pub receipts: LedgerReceipts,
    /// Target ledger ID.
    pub ledger_id: u32,
    /// Verification method and parameters.
    pub verification: Verification,
}

/// Which [`Verifier`] method to invoke on a [`LedgerView`].
#[derive(Debug, Clone, Copy, PartialEq, Eq)]
pub enum Verification {
    /// [`Verifier::verify_read_latest`].
    ReadLatest { nonce: u64 },
    /// [`Verifier::verify_append`].
    Append { entry: EntryContents, nonce: u64 },
    /// [`Verifier::verify_entry`].
    Entry { requested_index: u64 },
}

/// Result of running a [`Falsifier`]. Only
/// [`SplitViewAchieved`](Outcome::SplitViewAchieved) is a win.
#[derive(Debug)]
#[allow(inconsistent_fields)]
pub enum Outcome {
    /// Both views verified at the same index on the same ledger but differ.
    SplitViewAchieved { ledger_id: u32, block_a: LedgerBlock, block_b: LedgerBlock },
    /// A handover in `which` view's chain failed at `position`.
    HandoverRejected { which: WhichView, position: usize, error: HandoverError },
    /// Receipt verification failed for `which` view.
    ViewRejected { which: WhichView, error: VerifyError },
    /// Both views verified, but they are mutually consistent.
    NotAFork { reason: NotAForkReason },
    /// Both views verified and returned the exact same block.
    ViewsAgree,
    /// `Falsifier::attempt` panicked, with the panic message if it was a
    /// string. Reported by callers that catch the panic.
    Panicked { message: String },
}

impl Outcome {
    /// Returns true if this outcome is [`Outcome::SplitViewAchieved`].
    pub fn is_split_view(&self) -> (split: bool)
        ensures
            split == (self is SplitViewAchieved),
    {
        match self {
            Outcome::SplitViewAchieved { .. } => true,
            _ => false,
        }
    }
}

/// Identifies one of the two submitted views.
#[derive(Debug, Clone, Copy, PartialEq, Eq)]
pub enum WhichView {
    A,
    B,
}

/// Why two verified views do not contradict each other.
#[derive(Debug, Clone, Copy, PartialEq, Eq)]
pub enum NotAForkReason {
    /// The views target different ledgers.
    DifferentLedger,
    /// The blocks sit at different indices, so they make no competing claim.
    DifferentIndex,
}

// ---------------------------------------------------------------------------
// The harness
// ---------------------------------------------------------------------------

/// The keys of some endorsers, in order.
pub open spec fn endorser_keys<S: Phase>(endorsers: Seq<Endorser<S>>) -> Seq<Seq<u8>> {
    endorsers.map_values(|endorser: Endorser<S>| endorser.key())
}

/// Whether no key comes before an earlier one.
pub open spec fn ascending(keys: Seq<Seq<u8>>) -> bool {
    forall|i: int, j: int| 0 <= i < j < keys.len() ==> !bytes::lex_less(keys[j], keys[i])
}

/// Builds a [`CohortConfig`] from `endorsers` (must be sorted by SEC1 key bytes).
pub fn cohort_config<S: Phase>(endorsers: &[Endorser<S>]) -> (config: Result<
    CohortConfig,
    InvalidConfigError,
>)
    ensures
        config is Ok <==> cohort::valid_cohort(endorser_keys(endorsers@)),
        config matches Ok(c) ==> c.key_seq() == endorser_keys(endorsers@),
{
    let mut keys: Vec<VerifyingKey> = Vec::new();
    let mut i: usize = 0;
    while i < endorsers.len()
        invariant
            i <= endorsers@.len(),
            keys@.len() == i,
            forall|j: int| 0 <= j < i ==> (#[trigger] keys@[j])@ == endorsers@[j].key(),
        decreases endorsers@.len() - i,
    {
        keys.push(*endorsers[i].verifying_key());
        i += 1;
    }
    assert(cohort::encodings(keys@) =~= endorser_keys(endorsers@));
    CohortConfig::try_from_keys(keys)
}

/// Whether an endorser holds a key pair.
pub open spec fn holds_key_pair(endorser: Endorser<Uninitialized>) -> bool {
    &&& crypto::is_scalar(endorser@.secret)
    &&& endorser@.key == crypto::public_key_of(endorser@.secret)
}

/// Creates `n` endorsers sorted by SEC1 verifying key so array index equals
/// `key_index`. Each has a random key pair.
pub fn new_sorted_endorsers(n: usize) -> (endorsers: Vec<Endorser<Uninitialized>>)
    ensures
        endorsers@.len() == n,
        ascending(endorser_keys(endorsers@)),
        forall|i: int| 0 <= i < n ==> holds_key_pair(#[trigger] endorsers@[i]),
{
    let mut endorsers: Vec<Endorser<Uninitialized>> = Vec::new();
    let mut i: usize = 0;
    while i < n
        invariant
            i <= n,
            endorsers@.len() == i,
            ascending(endorser_keys(endorsers@)),
            forall|j: int| 0 <= j < i ==> holds_key_pair(#[trigger] endorsers@[j]),
        decreases n - i,
    {
        let endorser = Endorser::new();
        assert(holds_key_pair(endorser));
        insert_sorted(&mut endorsers, endorser);
        i += 1;
    }
    endorsers
}

/// Inserts an endorser behind those whose keys do not come after its own.
fn insert_sorted(endorsers: &mut Vec<Endorser<Uninitialized>>, endorser: Endorser<Uninitialized>)
    requires
        ascending(endorser_keys(old(endorsers)@)),
    ensures
        exists|position: int|
            {
                &&& 0 <= position <= old(endorsers)@.len()
                &&& final(endorsers)@ == #[trigger] old(endorsers)@.insert(position, endorser)
            },
        ascending(endorser_keys(final(endorsers)@)),
{
    let ghost keys = endorser_keys(endorsers@);
    let mut position: usize = endorsers.len();
    while position > 0 && bytes::comes_before(
        endorser.verifying_key().as_bytes(),
        endorsers[position - 1].verifying_key().as_bytes(),
    )
        invariant
            position <= endorsers@.len(),
            endorsers@ == old(endorsers)@,
            keys == endorser_keys(endorsers@),
            forall|j: int|
                position <= j < keys.len() ==> bytes::lex_less(endorser.key(), #[trigger] keys[j]),
        decreases position,
    {
        assert(keys[position - 1] == endorsers@[position - 1].key());
        position -= 1;
    }
    proof {
        let key = endorser.key();
        let inserted = endorser_keys(endorsers@.insert(position as int, endorser));
        assert(inserted =~= keys.insert(position as int, key));
        assert forall|i: int, j: int| 0 <= i < j < inserted.len() implies !bytes::lex_less(
            inserted[j],
            inserted[i],
        ) by {
            if position > 0 {
                let last = keys[position - 1];
                assert(last == endorsers@[position - 1].key());
                assert(!bytes::lex_less(key, last));
            }
            if i == position {
                assert(bytes::lex_less(key, keys[j - 1]));
                if bytes::lex_less(keys[j - 1], key) {
                    bytes::lemma_lex_transitive(key, keys[j - 1], key);
                    bytes::lemma_lex_irreflexive(key);
                }
            } else if j == position {
                if bytes::lex_less(key, keys[i]) {
                    let last = keys[position - 1];
                    if i < position - 1 {
                        bytes::lemma_lex_total(keys[i], last);
                        if keys[i] != last {
                            bytes::lemma_lex_transitive(key, keys[i], last);
                        }
                    }
                }
            }
        }
    }
    endorsers.insert(position, endorser);
}

/// Compares two verified blocks on the same ledger for a contradiction.
///
/// Two blocks contradict each other only if they sit at the same index and
/// differ. Bring both views to a common index to compare them; the timeless
/// [`Verification::Entry`] can request any index a cohort holds.
pub fn evaluate_split(
    ledger_a: u32,
    block_a: LedgerBlock,
    ledger_b: u32,
    block_b: LedgerBlock,
) -> (outcome: Outcome)
    ensures
        outcome == split_outcome(ledger_a, block_a, ledger_b, block_b),
{
    if ledger_a != ledger_b {
        return Outcome::NotAFork { reason: NotAForkReason::DifferentLedger };
    }
    if block_a.index != block_b.index {
        return Outcome::NotAFork { reason: NotAForkReason::DifferentIndex };
    }
    if block_a.same_as(&block_b) {
        return Outcome::ViewsAgree;
    }
    Outcome::SplitViewAchieved { ledger_id: ledger_a, block_a, block_b }
}

/// What two verified blocks come to.
pub open spec fn split_outcome(
    ledger_a: u32,
    block_a: LedgerBlock,
    ledger_b: u32,
    block_b: LedgerBlock,
) -> Outcome {
    if ledger_a != ledger_b {
        Outcome::NotAFork { reason: NotAForkReason::DifferentLedger }
    } else if block_a.index != block_b.index {
        Outcome::NotAFork { reason: NotAForkReason::DifferentIndex }
    } else if block_a == block_b {
        Outcome::ViewsAgree
    } else {
        Outcome::SplitViewAchieved { ledger_id: ledger_a, block_a, block_b }
    }
}

/// What a submitted view says.
pub struct SubmittedView {
    pub handovers: Seq<HandoverView>,
    pub receipts: Seq<LedgerReceipt>,
    pub ledger_id: u32,
    pub verification: Verification,
}

impl View for LedgerView {
    type V = SubmittedView;

    open spec fn view(&self) -> SubmittedView {
        SubmittedView {
            handovers: self.handovers@.map_values(|handover: CohortHandover| handover@),
            receipts: self.receipts@,
            ledger_id: self.ledger_id,
            verification: self.verification,
        }
    }
}

/// What a chain of handovers makes of a verifier: one that trusts the last
/// cohort, or the position of the first handover that fails and its error.
pub open spec fn follow(verifier: VerifierView, handovers: Seq<HandoverView>) -> Result<
    VerifierView,
    (usize, HandoverError),
>
    decreases handovers.len(),
{
    if handovers.len() == 0 {
        Ok(verifier)
    } else {
        match follow(verifier, handovers.drop_last()) {
            Err(failure) => Err(failure),
            Ok(current) => match current.handover_verdict(handovers.last()) {
                Ok(next) => Ok(next),
                Err(error) => Err(((handovers.len() - 1) as usize, error)),
            },
        }
    }
}

/// A verifier that trusts an initial cohort.
pub open spec fn genesis_verifier(genesis: Seq<Seq<u8>>) -> VerifierView {
    VerifierView { config: genesis, instance_id: cohort::config_id_of(genesis) }
}

impl SubmittedView {
    /// What the view's receipts are presented for.
    pub open spec fn claim(self) -> Claim {
        match self.verification {
            Verification::ReadLatest { nonce } => Claim::Read { nonce },
            Verification::Append { entry, nonce } => Claim::Append { entry, nonce },
            Verification::Entry { .. } => Claim::Entry,
        }
    }

    /// What the view's receipts come to for a verifier.
    pub open spec fn checked_by(self, current: VerifierView) -> Result<LedgerBlock, VerifyError> {
        match self.verification {
            Verification::ReadLatest { nonce } => current.read_verdict(
                self.receipts,
                nonce,
                self.ledger_id,
            ),
            Verification::Append { entry, nonce } => current.append_verdict(
                self.receipts,
                entry,
                nonce,
                self.ledger_id,
            ),
            Verification::Entry { requested_index } => current.entry_verdict(
                self.receipts,
                requested_index,
                self.ledger_id,
            ),
        }
    }

    /// The block that the view shows to a verifier that trusts `genesis`, or
    /// why it shows none.
    pub open spec fn resolved(self, genesis: Seq<Seq<u8>>, which: WhichView) -> Result<
        LedgerBlock,
        Outcome,
    > {
        match follow(genesis_verifier(genesis), self.handovers) {
            Err((position, error)) => Err(Outcome::HandoverRejected { which, position, error }),
            Ok(current) => match self.checked_by(current) {
                Ok(block) => Ok(block),
                Err(error) => Err(Outcome::ViewRejected { which, error }),
            },
        }
    }
}

/// What two submitted views come to for verifiers that trust `genesis`.
pub open spec fn judgement(
    genesis: Seq<Seq<u8>>,
    view_a: SubmittedView,
    view_b: SubmittedView,
) -> Outcome {
    match view_a.resolved(genesis, WhichView::A) {
        Err(outcome) => outcome,
        Ok(block_a) => match view_b.resolved(genesis, WhichView::B) {
            Err(outcome) => outcome,
            Ok(block_b) => split_outcome(view_a.ledger_id, block_a, view_b.ledger_id, block_b),
        },
    }
}

proof fn lemma_follow_failure_persists(
    verifier: VerifierView,
    handovers: Seq<HandoverView>,
    n: int,
)
    requires
        0 <= n <= handovers.len(),
        follow(verifier, handovers.take(n)) is Err,
    ensures
        follow(verifier, handovers) == follow(verifier, handovers.take(n)),
    decreases handovers.len(),
{
    if n < handovers.len() {
        assert(handovers.drop_last().take(n) =~= handovers.take(n));
        lemma_follow_failure_persists(verifier, handovers.drop_last(), n);
    } else {
        assert(handovers.take(n) =~= handovers);
    }
}

/// Applies handovers in order. On failure gives the position of the first one
/// that fails, and its error.
fn apply_handovers(current: &mut Verifier, handovers: Vec<CohortHandover>) -> (applied: Result<
    (),
    (usize, HandoverError),
>)
    ensures
        match applied {
            Ok(_) => follow(
                old(current)@,
                handovers@.map_values(|handover: CohortHandover| handover@),
            ) == Ok::<_, (usize, HandoverError)>(final(current)@),
            Err(failure) => follow(
                old(current)@,
                handovers@.map_values(|handover: CohortHandover| handover@),
            ) == Err::<VerifierView, _>(failure),
        },
{
    let count = handovers.len();
    let ghost start = current@;
    let ghost all = handovers@;
    let ghost views = handovers@.map_values(|handover: CohortHandover| handover@);
    let mut position: usize = 0;
    assert(views.take(0) =~= Seq::empty());
    for handover in it: handovers.into_iter()
        invariant
            it.seq() == all,
            position == it.index(),
            all.len() == count,
            views == all.map_values(|handover: CohortHandover| handover@),
            start == old(current)@,
            follow(start, views.take(position as int)) == Ok::<_, (usize, HandoverError)>(
                current@,
            ),
    {
        proof {
            assert(views.take(position + 1).drop_last() =~= views.take(position as int));
            assert(views.take(position + 1).last() == handover@);
        }
        match current.apply_handover(handover) {
            Ok(_) => {},
            Err(error) => {
                proof {
                    lemma_follow_failure_persists(start, views, position + 1);
                }
                return Err((position, error));
            },
        }
        position += 1;
    }
    assert(views.take(views.len() as int) =~= views);
    Ok(())
}

/// Initializes a [`Verifier`] from `genesis`, applies `view.handovers`, and
/// verifies `view.receipts`.
///
/// If verification passes, returns the resolved [`LedgerBlock`]. If verification
/// fails, returns [`Outcome::ViewRejected`] (or [`Outcome::HandoverRejected`] if a
/// handover fails).
pub fn resolve_block(genesis: &CohortConfig, view: LedgerView, which: WhichView) -> (resolved:
    Result<LedgerBlock, Outcome>)
    ensures
        resolved == view@.resolved(genesis.key_seq(), which),
{
    let mut current = Verifier::new(genesis.clone());
    let LedgerView { handovers, receipts, ledger_id, verification } = view;
    match apply_handovers(&mut current, handovers) {
        Ok(_) => {},
        Err((position, error)) => {
            return Err(Outcome::HandoverRejected { which, position, error });
        },
    }
    let verified = match verification {
        Verification::ReadLatest { nonce } => current.verify_read_latest(
            &receipts,
            nonce,
            ledger_id,
        ),
        Verification::Append { entry, nonce } => current.verify_append(
            &receipts,
            &entry,
            nonce,
            ledger_id,
        ),
        Verification::Entry { requested_index } => current.verify_entry(
            &receipts,
            requested_index,
            ledger_id,
        ),
    };
    match verified {
        Ok(block) => Ok(block),
        Err(error) => Err(Outcome::ViewRejected { which, error }),
    }
}

/// Judges two views, each on its own [`Verifier`] initialized from `genesis`.
pub fn judge(genesis: &CohortConfig, view_a: LedgerView, view_b: LedgerView) -> (outcome: Outcome)
    ensures
        outcome == judgement(genesis.key_seq(), view_a@, view_b@),
{
    let ledger_a = view_a.ledger_id;
    let ledger_b = view_b.ledger_id;
    let block_a = match resolve_block(genesis, view_a, WhichView::A) {
        Ok(block) => block,
        Err(outcome) => {
            return outcome;
        },
    };
    let block_b = match resolve_block(genesis, view_b, WhichView::B) {
        Ok(block) => block,
        Err(outcome) => {
            return outcome;
        },
    };
    evaluate_split(ledger_a, block_a, ledger_b, block_b)
}

/// Whether a key occurs twice.
pub open spec fn has_repeated_key(keys: Seq<Seq<u8>>) -> bool {
    exists|i: int, j: int| 0 <= i < j < keys.len() && #[trigger] keys[i] == #[trigger] keys[j]
}

/// Keys that are sorted make up a cohort, unless there are none or one occurs
/// twice.
pub proof fn lemma_sorted_cohort(keys: Seq<Seq<u8>>)
    requires
        ascending(keys),
    ensures
        cohort::valid_cohort(keys) <==> keys.len() > 0 && !has_repeated_key(keys),
{
    if !has_repeated_key(keys) {
        assert forall|i: int, j: int| 0 <= i < j < keys.len() implies bytes::lex_less(
            keys[i],
            keys[j],
        ) by {
            bytes::lemma_lex_total(keys[i], keys[j]);
        }
    } else {
        let (i, j) = choose|i: int, j: int|
            0 <= i < j < keys.len() && #[trigger] keys[i] == #[trigger] keys[j];
        bytes::lemma_lex_irreflexive(keys[i]);
    }
}

/// Runs `falsifier` against the given endorsers (must be sorted by SEC1 key
/// bytes), and judges the two views that it returns by their cohort.
///
/// Returns an error, and attempts nothing, if the endorsers do not make up a
/// cohort.
pub fn run_against<F: Falsifier>(
    falsifier: F,
    endorsers: Vec<Endorser<Uninitialized>>,
) -> (outcome: Result<Outcome, InvalidConfigError>)
    ensures
        outcome is Ok <==> cohort::valid_cohort(endorser_keys(endorsers@)),
        outcome matches Ok(o) ==> exists|views: (LedgerView, LedgerView)|
            {
                &&& #[trigger] call_ensures(F::attempt, (falsifier, endorsers), views)
                &&& o == judgement(endorser_keys(endorsers@), views.0@, views.1@)
            },
{
    let genesis = match cohort_config(endorsers.as_slice()) {
        Ok(config) => config,
        Err(error) => {
            return Err(error);
        },
    };
    let (view_a, view_b) = falsifier.attempt(endorsers);
    Ok(judge(&genesis, view_a, view_b))
}

/// Runs `falsifier` against a fresh cohort of [`Falsifier::cohort_size`]
/// endorsers, and judges the two views that it returns.
///
/// Returns an error only where the endorsers do not make up a cohort: none was
/// asked for, or two of the random keys are the same. So an attempt on a cohort
/// of one is always judged. The attempt is given what [`new_sorted_endorsers`]
/// made of the asked number, and its views are judged by that cohort.
pub fn run<F: Falsifier>(falsifier: F) -> (outcome: Result<Outcome, InvalidConfigError>)
    ensures
        match outcome {
            Ok(o) => exists|
                size: usize,
                endorsers: Vec<Endorser<Uninitialized>>,
                views: (LedgerView, LedgerView),
            |
                {
                    &&& #[trigger] call_ensures(F::cohort_size, (&falsifier,), size)
                    &&& call_ensures(new_sorted_endorsers, (size,), endorsers)
                    &&& cohort::valid_cohort(endorser_keys(endorsers@))
                    &&& #[trigger] call_ensures(F::attempt, (falsifier, endorsers), views)
                    &&& o == judgement(endorser_keys(endorsers@), views.0@, views.1@)
                },
            Err(_) => exists|size: usize, endorsers: Vec<Endorser<Uninitialized>>|
                {
                    &&& call_ensures(F::cohort_size, (&falsifier,), size)
                    &&& #[trigger] call_ensures(new_sorted_endorsers, (size,), endorsers)
                    &&& size == 0 || has_repeated_key(endorser_keys(endorsers@))
                },
        },
{
    let size = falsifier.cohort_size();
    let endorsers = new_sorted_endorsers(size);
    proof {
        lemma_sorted_cohort(endorser_keys(endorsers@));
        assert(call_ensures(new_sorted_endorsers, (size,), endorsers));
    }
    run_against(falsifier, endorsers)
}

} // verus!
