//! What the split-view challenge decides, stated on the views themselves.

use vstd::prelude::*;

use crate::bytes;
use crate::challenge;
use crate::challenge::{Falsifier, LedgerView, NotAForkReason, Outcome, Verification, WhichView};
use crate::cohort::{CohortConfig, InvalidConfigError};
use crate::crypto;
use crate::encoding_laws;
use crate::endorser::{Endorser, Phase, Uninitialized};
use crate::handover::{CohortHandover, HandoverError, HandoverView};
use crate::ledger::LedgerBlock;
use crate::verification::{Verifier, VerifierView, VerifyError};

verus! {

/// Whether two blocks have the same contents: entry, index and tail.
pub open spec fn same_contents(a: LedgerBlock, b: LedgerBlock) -> bool {
    &&& a.index == b.index
    &&& a.entry@ == b.entry@
    &&& a.hash_chain_tail@ == b.hash_chain_tail@
}

/// Two verified blocks agree exactly if they are of the same ledger and have the
/// same contents. They are a split view exactly if they are at one index of one
/// ledger and their entries or their tails differ. Of other ledgers, or at other
/// indices, they are no fork.
pub proof fn law_split_is_two_blocks_at_one_place(
    ledger_a: u32,
    block_a: LedgerBlock,
    ledger_b: u32,
    block_b: LedgerBlock,
    outcome: Outcome,
)
    requires
        call_ensures(
            challenge::evaluate_split,
            (ledger_a, block_a, ledger_b, block_b),
            outcome,
        ),
    ensures
        outcome is ViewsAgree <==> ledger_a == ledger_b && same_contents(block_a, block_b),
        outcome is SplitViewAchieved <==> ledger_a == ledger_b && block_a.index == block_b.index
            && (block_a.entry@ != block_b.entry@ || block_a.hash_chain_tail@
            != block_b.hash_chain_tail@),
        outcome matches Outcome::SplitViewAchieved {
            ledger_id,
            block_a: first,
            block_b: second,
        } ==> {
            &&& ledger_id == ledger_a
            &&& same_contents(first, block_a)
            &&& same_contents(second, block_b)
        },
        ledger_a != ledger_b <==> outcome == (Outcome::NotAFork {
            reason: NotAForkReason::DifferentLedger,
        }),
        ledger_a == ledger_b && block_a.index != block_b.index <==> outcome
            == (Outcome::NotAFork { reason: NotAForkReason::DifferentIndex }),
{
    if same_contents(block_a, block_b) {
        block_a.lemma_ext(block_b);
    }
}

/// Which view comes first does not matter to what two blocks come to.
pub proof fn law_split_is_symmetric(
    ledger_a: u32,
    block_a: LedgerBlock,
    ledger_b: u32,
    block_b: LedgerBlock,
    outcome: Outcome,
    swapped: Outcome,
)
    requires
        call_ensures(
            challenge::evaluate_split,
            (ledger_a, block_a, ledger_b, block_b),
            outcome,
        ),
        call_ensures(
            challenge::evaluate_split,
            (ledger_b, block_b, ledger_a, block_a),
            swapped,
        ),
    ensures
        match outcome {
            Outcome::SplitViewAchieved { ledger_id, block_a: first, block_b: second } => swapped
                == (Outcome::SplitViewAchieved { ledger_id, block_a: second, block_b: first }),
            _ => swapped == outcome,
        },
{
}

/// An outcome is a win only if it is a split view.
pub proof fn law_only_a_split_is_a_win(outcome: &Outcome, split: bool)
    requires
        call_ensures(Outcome::is_split_view, (outcome,), split),
    ensures
        split <==> exists|ledger_id: u32, block_a: LedgerBlock, block_b: LedgerBlock|
            *outcome == (Outcome::SplitViewAchieved { ledger_id, block_a, block_b }),
{
    if split {
        match *outcome {
            Outcome::SplitViewAchieved { ledger_id, block_a, block_b } => {
                assert(*outcome == (Outcome::SplitViewAchieved { ledger_id, block_a, block_b }));
            },
            _ => {},
        }
    }
}

/// Judging two views resolves each from the same initial cohort, reports the
/// first that resolves to no block, and else compares the two blocks.
pub proof fn law_judging_compares_resolved_blocks(
    genesis: &CohortConfig,
    view_a: LedgerView,
    view_b: LedgerView,
    outcome: Outcome,
    resolved_a: Result<LedgerBlock, Outcome>,
    resolved_b: Result<LedgerBlock, Outcome>,
    compared: Outcome,
)
    requires
        call_ensures(challenge::judge, (genesis, view_a, view_b), outcome),
        call_ensures(challenge::resolve_block, (genesis, view_a, WhichView::A), resolved_a),
        call_ensures(challenge::resolve_block, (genesis, view_b, WhichView::B), resolved_b),
        resolved_a is Ok && resolved_b is Ok ==> call_ensures(
            challenge::evaluate_split,
            (view_a.ledger_id, resolved_a->Ok_0, view_b.ledger_id, resolved_b->Ok_0),
            compared,
        ),
    ensures
        resolved_a matches Err(rejected) ==> outcome == rejected,
        resolved_a is Ok ==> (resolved_b matches Err(rejected) ==> outcome == rejected),
        resolved_a is Ok && resolved_b is Ok ==> outcome == compared,
{
}

/// What a verifier says of a view's receipts is what the view resolves to, or
/// its error, with the view that it is about.
pub open spec fn reports(
    resolved: Result<LedgerBlock, Outcome>,
    which: WhichView,
    verified: Result<LedgerBlock, VerifyError>,
) -> bool {
    match verified {
        Ok(block) => resolved == Ok::<_, Outcome>(block),
        Err(error) => resolved == Err::<LedgerBlock, _>(Outcome::ViewRejected { which, error }),
    }
}

/// A chain of handovers that a verifier follows leads through the verifiers
/// `steps`.
pub open spec fn leads_through(
    steps: Seq<VerifierView>,
    handovers: Seq<CohortHandover>,
    n: int,
) -> bool {
    forall|i: int|
        0 <= i < n ==> steps[i].handover_verdict((#[trigger] handovers[i])@)
            == Ok::<_, HandoverError>(steps[i + 1])
}

proof fn lemma_follow(
    steps: Seq<VerifierView>,
    handovers: Seq<CohortHandover>,
    views: Seq<HandoverView>,
    n: int,
)
    requires
        0 <= n <= handovers.len(),
        steps.len() > n,
        views == handovers.map_values(|handover: CohortHandover| handover@),
        leads_through(steps, handovers, n),
    ensures
        challenge::follow(steps[0], views.take(n)) == Ok::<_, (usize, HandoverError)>(steps[n]),
    decreases n,
{
    if n == 0 {
        assert(views.take(0) =~= Seq::empty());
    } else {
        lemma_follow(steps, handovers, views, n - 1);
        assert(views.take(n).drop_last() =~= views.take(n - 1));
        assert(views.take(n).last() == handovers[n - 1]@);
    }
}

proof fn lemma_follow_stops(
    start: VerifierView,
    views: Seq<HandoverView>,
    n: int,
)
    requires
        0 <= n <= views.len(),
        challenge::follow(start, views.take(n)) is Err,
    ensures
        challenge::follow(start, views) == challenge::follow(start, views.take(n)),
    decreases views.len(),
{
    if n < views.len() {
        assert(views.drop_last().take(n) =~= views.take(n));
        lemma_follow_stops(start, views.drop_last(), n);
    } else {
        assert(views.take(n) =~= views);
    }
}

/// A view resolves to what a verifier of the initial cohort says of its
/// receipts, once the verifier has followed every handover of the view in order.
pub proof fn law_view_is_checked_after_its_handovers(
    genesis: &CohortConfig,
    first: Verifier,
    last: &Verifier,
    steps: Seq<VerifierView>,
    view: LedgerView,
    which: WhichView,
    resolved: Result<LedgerBlock, Outcome>,
    verified: Result<LedgerBlock, VerifyError>,
)
    requires
        call_ensures(challenge::resolve_block, (genesis, view, which), resolved),
        call_ensures(Verifier::new, (*genesis,), first),
        steps.len() == view.handovers@.len() + 1,
        steps[0] == first@,
        leads_through(steps, view.handovers@, view.handovers@.len() as int),
        last@ == steps.last(),
        match view.verification {
            Verification::ReadLatest { nonce } => call_ensures(
                Verifier::verify_read_latest,
                (last, &view.receipts, nonce, view.ledger_id),
                verified,
            ),
            Verification::Append { entry, nonce } => call_ensures(
                Verifier::verify_append,
                (last, &view.receipts, &entry, nonce, view.ledger_id),
                verified,
            ),
            Verification::Entry { requested_index } => call_ensures(
                Verifier::verify_entry,
                (last, &view.receipts, requested_index, view.ledger_id),
                verified,
            ),
        },
    ensures
        reports(resolved, which, verified),
{
    let n = view.handovers@.len() as int;
    lemma_follow(steps, view.handovers@, view@.handovers, n);
    assert(view@.handovers.take(n) =~= view@.handovers);
}

/// A view is rejected at the first of its handovers that the verifier does not
/// follow, with that handover's error.
pub proof fn law_first_rejected_handover_is_reported(
    genesis: &CohortConfig,
    first: Verifier,
    steps: Seq<VerifierView>,
    view: LedgerView,
    which: WhichView,
    resolved: Result<LedgerBlock, Outcome>,
    position: usize,
    error: HandoverError,
)
    requires
        call_ensures(challenge::resolve_block, (genesis, view, which), resolved),
        call_ensures(Verifier::new, (*genesis,), first),
        position < view.handovers@.len(),
        steps.len() == position + 1,
        steps[0] == first@,
        leads_through(steps, view.handovers@, position as int),
        steps.last().handover_verdict(view.handovers@[position as int]@) == Err::<
            VerifierView,
            _,
        >(error),
    ensures
        resolved == Err::<LedgerBlock, _>(Outcome::HandoverRejected { which, position, error }),
{
    let views = view@.handovers;
    let n = position as int;
    lemma_follow(steps, view.handovers@, views, n);
    assert(views.take(n + 1).drop_last() =~= views.take(n));
    assert(views.take(n + 1).last() == view.handovers@[n]@);
    lemma_follow_stops(first@, views, n + 1);
}

/// A run against endorsers is judged exactly if they make up a cohort, and comes
/// to what judging the two views of the attempt, in order, by that cohort comes
/// to.
pub proof fn law_run_judges_the_attempt<F: Falsifier>(
    falsifier: F,
    endorsers: Vec<Endorser<Uninitialized>>,
    outcome: Result<Outcome, InvalidConfigError>,
    slice: &[Endorser<Uninitialized>],
    genesis: Result<CohortConfig, InvalidConfigError>,
)
    requires
        call_ensures(challenge::run_against::<F>, (falsifier, endorsers), outcome),
        slice@ == endorsers@,
        call_ensures(challenge::cohort_config::<Uninitialized>, (slice,), genesis),
    ensures
        outcome is Ok <==> genesis is Ok,
        outcome is Ok ==> exists|views: (LedgerView, LedgerView)|
            {
                &&& #[trigger] call_ensures(F::attempt, (falsifier, endorsers), views)
                &&& forall|judged: Outcome| #[trigger]
                    call_ensures(
                        challenge::judge,
                        (&genesis->Ok_0, views.0, views.1),
                        judged,
                    ) ==> judged == outcome->Ok_0
            },
{
    if outcome is Ok {
        let o = outcome->Ok_0;
        let views = choose|views: (LedgerView, LedgerView)|
            {
                &&& #[trigger] call_ensures(F::attempt, (falsifier, endorsers), views)
                &&& o == challenge::judgement(
                    challenge::endorser_keys(endorsers@),
                    views.0@,
                    views.1@,
                )
            };
        assert(call_ensures(F::attempt, (falsifier, endorsers), views));
    }
}

/// Endorsers make up a configuration exactly if there is one and each key comes
/// before every later one; the configuration has their keys in order.
pub proof fn law_config_of_endorsers<S: Phase>(
    endorsers: &[Endorser<S>],
    config: Result<CohortConfig, InvalidConfigError>,
)
    requires
        call_ensures(challenge::cohort_config::<S>, (endorsers,), config),
    ensures
        config is Ok <==> endorsers@.len() > 0 && forall|i: int, j: int|
            0 <= i < j < endorsers@.len() ==> encoding_laws::precedes(
                (#[trigger] endorsers@[i]).key(),
                (#[trigger] endorsers@[j]).key(),
            ),
        config matches Ok(c) ==> {
            &&& c.key_seq().len() == endorsers@.len()
            &&& forall|i: int|
                0 <= i < endorsers@.len() ==> #[trigger] c.key_seq()[i] == endorsers@[i].key()
        },
{
    let keys = challenge::endorser_keys(endorsers@);
    assert forall|i: int, j: int| 0 <= i < j < endorsers@.len() implies bytes::lex_less(
        keys[i],
        keys[j],
    ) == encoding_laws::precedes(
        (#[trigger] endorsers@[i]).key(),
        (#[trigger] endorsers@[j]).key(),
    ) by {
        encoding_laws::lemma_precedes(keys[i], keys[j]);
    }
    if config is Ok {
        assert forall|i: int, j: int| 0 <= i < j < endorsers@.len() implies
            encoding_laws::precedes(
            (#[trigger] endorsers@[i]).key(),
            (#[trigger] endorsers@[j]).key(),
        ) by {
            assert(bytes::lex_less(keys[i], keys[j]));
        }
    } else if endorsers@.len() > 0 {
        let (i, j) = choose|i: int, j: int|
            0 <= i < j < keys.len() && !bytes::lex_less(keys[i], keys[j]);
        assert(!encoding_laws::precedes(endorsers@[i].key(), endorsers@[j].key()));
    }
}

/// New endorsers are as many as were asked for, hold key pairs, and are sorted:
/// none comes before an earlier one.
pub proof fn law_new_endorsers_are_sorted(n: usize, endorsers: Vec<Endorser<Uninitialized>>)
    requires
        call_ensures(challenge::new_sorted_endorsers, (n,), endorsers),
    ensures
        endorsers@.len() == n,
        forall|i: int, j: int|
            0 <= i < j < endorsers@.len() ==> !encoding_laws::precedes(
                (#[trigger] endorsers@[j]).key(),
                (#[trigger] endorsers@[i]).key(),
            ),
        forall|i: int|
            0 <= i < n ==> (#[trigger] endorsers@[i])@.key == crypto::public_key_of(
                endorsers@[i]@.secret,
            ),
{
    let keys = challenge::endorser_keys(endorsers@);
    assert forall|i: int, j: int| 0 <= i < j < endorsers@.len() implies
        !encoding_laws::precedes(
        (#[trigger] endorsers@[j]).key(),
        (#[trigger] endorsers@[i]).key(),
    ) by {
        encoding_laws::lemma_precedes(keys[j], keys[i]);
        assert(!bytes::lex_less(keys[j], keys[i]));
    }
    assert forall|i: int| 0 <= i < n implies (#[trigger] endorsers@[i])@.key
        == crypto::public_key_of(endorsers@[i]@.secret) by {
        assert(challenge::holds_key_pair(endorsers@[i]));
    }
}

} // verus!
