//! What an endorser does over its life, and what it can have signed.
//!
//! A [`History`] is what an endorser did from its activation on, with the
//! ledger states that it went through, and the finalization that ends it. The
//! laws say that each operation of an endorser extends its history, and that
//! what it signs is what the history says; and that a history never holds two
//! blocks at one index of a ledger.

use vstd::prelude::*;

use crate::cohort;
use crate::endorser::{ActiveView, UninitializedView};
use crate::ledger;
use crate::ledger::LedgerBlock;
use crate::receipts::Receipt;
use crate::takeover::TakeOverView;

verus! {

/// The latest block of each ledger.
pub type LedgerState = Map<u32, LedgerBlock>;

/// How an endorser came to be active.
#[verifier::ext_equal]
pub enum Origin {
    /// It started a new instance.
    New,
    /// It took an instance over from the cohort with this config ID.
    From { prev_config_id: Seq<u8> },
}

/// An operation that an endorser carried out.
#[verifier::ext_equal]
pub enum Event {
    /// It created a ledger.
    Create { ledger_id: u32 },
    /// It appended an entry to a ledger, for a nonce.
    Append { ledger_id: u32, entry: Seq<u8>, nonce: u64 },
    /// It read the latest block of a ledger, for a nonce.
    Read { ledger_id: u32, nonce: u64 },
}

/// The life of an endorser from its activation on.
#[verifier::ext_equal]
pub struct History {
    /// The instance it serves.
    pub instance_id: Seq<u8>,
    /// The keys of its cohort.
    pub config: Seq<Seq<u8>>,
    /// How it came to be active.
    pub origin: Origin,
    /// What it did, in order.
    pub events: Seq<Event>,
    /// Its ledger states: that at activation, then that after each event.
    pub states: Seq<LedgerState>,
    /// The keys of the cohort in favour of which it finalized, if it has.
    pub next: Option<Seq<Seq<u8>>>,
}

/// Whether a ledger state follows from another by the creation of a ledger.
pub open spec fn creates(before: LedgerState, after: LedgerState, ledger_id: u32) -> bool {
    &&& !before.contains_key(ledger_id)
    &&& after[ledger_id].is_initial()
    &&& after == before.insert(ledger_id, after[ledger_id])
}

/// Whether a ledger state follows from another by an append to a ledger.
pub open spec fn appends(
    before: LedgerState,
    after: LedgerState,
    ledger_id: u32,
    entry: Seq<u8>,
) -> bool {
    &&& before.contains_key(ledger_id)
    &&& before[ledger_id].followed_by(entry, after[ledger_id])
    &&& after == before.insert(ledger_id, after[ledger_id])
}

/// Whether an event leads from one ledger state to another.
pub open spec fn leads(before: LedgerState, event: Event, after: LedgerState) -> bool {
    match event {
        Event::Create { ledger_id } => creates(before, after, ledger_id),
        Event::Append { ledger_id, entry, nonce } => appends(before, after, ledger_id, entry),
        Event::Read { ledger_id, nonce } => before.contains_key(ledger_id) && after == before,
    }
}

/// Whether a ledger state is that of a new instance.
pub open spec fn is_first_state(state: LedgerState) -> bool {
    state.dom() == set![0u32] && state[0].is_initial()
}

impl History {
    /// Whether the event at a position leads from the state before it to that
    /// after it.
    pub open spec fn leads_at(self, i: int) -> bool {
        leads(self.states[i], self.events[i], self.states[i + 1])
    }

    /// Whether this is the history of an endorser: each event leads from the
    /// state before it to that after it, and a new instance starts as it should.
    pub open spec fn well_formed(self) -> bool {
        &&& self.states.len() == self.events.len() + 1
        &&& forall|i: int| 0 <= i < self.events.len() ==> #[trigger] self.leads_at(i)
        &&& self.origin is New ==> is_first_state(self.states[0])
    }

    /// Whether the ledger was at the block at some time.
    pub open spec fn holds(self, ledger_id: u32, block: LedgerBlock) -> bool {
        exists|i: int| self.holds_at(ledger_id, block, i)
    }

    /// Whether the ledger was at the block in the state at a position.
    pub open spec fn holds_at(self, ledger_id: u32, block: LedgerBlock, i: int) -> bool {
        &&& 0 <= i < self.states.len()
        &&& self.states[i].contains_key(ledger_id)
        &&& self.states[i][ledger_id] == block
    }

    /// Whether the event at a position left the ledger at the block.
    pub open spec fn left_at(self, ledger_id: u32, block: LedgerBlock, i: int) -> bool {
        0 <= i < self.events.len() && self.holds_at(ledger_id, block, i + 1)
    }

    /// Whether the ledger was created at some time.
    pub open spec fn created(self, ledger_id: u32) -> bool {
        exists|i: int| self.created_at(ledger_id, i)
    }

    /// Whether the event at a position created the ledger.
    pub open spec fn created_at(self, ledger_id: u32, i: int) -> bool {
        &&& 0 <= i < self.events.len()
        &&& self.events[i] == Event::Create { ledger_id }
    }

    /// Whether an append for the nonce gave the block at some time.
    pub open spec fn appended(self, ledger_id: u32, block: LedgerBlock, nonce: u64) -> bool {
        exists|i: int| self.appended_at(ledger_id, block, nonce, i)
    }

    /// Whether the event at a position was an append for the nonce that gave
    /// the block.
    pub open spec fn appended_at(
        self,
        ledger_id: u32,
        block: LedgerBlock,
        nonce: u64,
        i: int,
    ) -> bool {
        &&& self.left_at(ledger_id, block, i)
        &&& self.events[i] == Event::Append { ledger_id, entry: block.entry@, nonce }
    }

    /// Whether a read for the nonce gave the block at some time.
    pub open spec fn read(self, ledger_id: u32, block: LedgerBlock, nonce: u64) -> bool {
        exists|i: int| self.read_at(ledger_id, block, nonce, i)
    }

    /// Whether the event at a position was a read for the nonce that gave the
    /// block.
    pub open spec fn read_at(self, ledger_id: u32, block: LedgerBlock, nonce: u64, i: int) -> bool {
        &&& self.left_at(ledger_id, block, i)
        &&& self.events[i] == Event::Read { ledger_id, nonce }
    }

    /// Whether an append or a read gave the block at some time, for whatever
    /// nonce.
    pub open spec fn attested(self, ledger_id: u32, block: LedgerBlock) -> bool {
        exists|nonce: u64| self.attested_for(ledger_id, block, nonce)
    }

    /// Whether an append or a read for the nonce gave the block at some time.
    pub open spec fn attested_for(self, ledger_id: u32, block: LedgerBlock, nonce: u64) -> bool {
        self.appended(ledger_id, block, nonce) || self.read(ledger_id, block, nonce)
    }

    /// Whether the endorser signs the receipt at some time in its life.
    pub open spec fn signs(self, receipt: Receipt) -> bool {
        match receipt {
            Receipt::ActivateNew { instance_id } => {
                &&& instance_id == self.instance_id
                &&& self.origin is New
            },
            Receipt::ActivateFromPrev {
                instance_id,
                prev_config_id,
                new_config_id,
                ledgers_hash,
            } => {
                &&& instance_id == self.instance_id
                &&& self.origin == Origin::From { prev_config_id }
                &&& new_config_id == cohort::config_id_of(self.config)
                &&& ledgers_hash == ledger::ledgers_hash(self.states[0])
            },
            Receipt::CreateLedger { instance_id, ledger_id } => {
                &&& instance_id == self.instance_id
                &&& self.created(ledger_id)
            },
            Receipt::Entry { instance_id, ledger_id, block } => {
                &&& instance_id == self.instance_id
                &&& self.attested(ledger_id, block)
            },
            Receipt::Append { instance_id, ledger_id, block, nonce } => {
                &&& instance_id == self.instance_id
                &&& self.appended(ledger_id, block, nonce)
            },
            Receipt::Read { instance_id, ledger_id, block, nonce } => {
                &&& instance_id == self.instance_id
                &&& self.read(ledger_id, block, nonce)
            },
            Receipt::Finalize {
                instance_id,
                cohort_config_id,
                next_cohort_config_id,
                ledgers_hash,
            } => {
                &&& instance_id == self.instance_id
                &&& cohort_config_id == cohort::config_id_of(self.config)
                &&& self.next matches Some(next)
                &&& next_cohort_config_id == cohort::config_id_of(next)
                &&& ledgers_hash == ledger::ledgers_hash(self.states.last())
            },
        }
    }

    /// Whether this is the history, so far, of an active endorser.
    pub open spec fn tells(self, endorser: ActiveView) -> bool {
        &&& self.well_formed()
        &&& self.instance_id == endorser.instance_id
        &&& self.config == endorser.config
        &&& self.states.last() == endorser.ledgers
        &&& self.next is None
    }

    /// The history after one more event.
    pub open spec fn and_then(self, event: Event, state: LedgerState) -> History {
        History { events: self.events.push(event), states: self.states.push(state), ..self }
    }

    /// The history as it was after the first `count` events.
    pub open spec fn until(self, count: nat) -> History {
        History {
            events: self.events.take(count as int),
            states: self.states.take(count as int + 1),
            next: None,
            ..self
        }
    }

    /// Whether no append and no read was for the nonce.
    pub open spec fn has_not_seen(self, nonce: u64) -> bool {
        forall|i: int|
            0 <= i < self.events.len() ==> match #[trigger] self.events[i] {
                Event::Create { .. } => true,
                Event::Append { nonce: used, .. } => used != nonce,
                Event::Read { nonce: used, .. } => used != nonce,
            }
    }

    /// The history that finalization in favour of `next` ends.
    pub open spec fn ended(self, next: Seq<Seq<u8>>) -> History {
        History { next: Some(next), ..self }
    }
}

/// The history of an endorser that was just activated.
pub open spec fn just_activated(endorser: ActiveView, origin: Origin) -> History {
    History {
        instance_id: endorser.instance_id,
        config: endorser.config,
        origin,
        events: Seq::empty(),
        states: seq![endorser.ledgers],
        next: None,
    }
}

// ---------------------------------------------------------------------------
// What the endorser's operations do to its history
// ---------------------------------------------------------------------------

/// Activation as a new instance starts a history, which signs the activation
/// receipt.
pub proof fn law_activation_starts_history(
    endorser: UninitializedView,
    config: Seq<Seq<u8>>,
    active: ActiveView,
)
    ensures
        active.starts_instance(endorser, config) ==> {
            let history = just_activated(active, Origin::New);
            let receipt = Receipt::ActivateNew { instance_id: active.instance_id };
            &&& history.tells(active)
            &&& history.signs(receipt)
            &&& active.signed(receipt.encoding(), active.activation_receipt)
        },
{
}

/// Activation from a previous cohort starts a history, which signs the
/// activation receipt.
pub proof fn law_takeover_starts_history(
    endorser: UninitializedView,
    config: Seq<Seq<u8>>,
    takeover: TakeOverView,
    active: ActiveView,
)
    ensures
        active.takes_over(endorser, config, takeover) ==> {
            let history = just_activated(
                active,
                Origin::From { prev_config_id: takeover.prev_config_id() },
            );
            let receipt = Receipt::ActivateFromPrev {
                instance_id: takeover.instance_id,
                prev_config_id: takeover.prev_config_id(),
                new_config_id: cohort::config_id_of(config),
                ledgers_hash: ledger::ledgers_hash(takeover.ledgers),
            };
            &&& history.tells(active)
            &&& history.signs(receipt)
            &&& active.signed(receipt.encoding(), active.activation_receipt)
        },
{
}

proof fn lemma_and_then(
    history: History,
    endorser: ActiveView,
    event: Event,
    after: ActiveView,
)
    requires
        history.tells(endorser),
        leads(endorser.ledgers, event, after.ledgers),
        after == (ActiveView { ledgers: after.ledgers, ..endorser }),
    ensures
        history.and_then(event, after.ledgers).tells(after),
{
    let later = history.and_then(event, after.ledgers);
    assert forall|i: int| 0 <= i < later.events.len() implies #[trigger] later.leads_at(i) by {
        if i < history.events.len() {
            assert(history.leads_at(i));
        }
    }
}

/// Creating a ledger extends the history of the endorser, which signs the
/// create-ledger receipt from then on.
pub proof fn law_create_ledger_extends_history(
    history: History,
    endorser: ActiveView,
    ledger_id: u32,
    after: ActiveView,
)
    requires
        history.tells(endorser),
        creates(endorser.ledgers, after.ledgers, ledger_id),
        after == (ActiveView { ledgers: after.ledgers, ..endorser }),
    ensures
        ({
            let later = history.and_then(Event::Create { ledger_id }, after.ledgers);
            &&& later.tells(after)
            &&& later.signs(
                Receipt::CreateLedger { instance_id: endorser.instance_id, ledger_id },
            )
        }),
{
    let event = Event::Create { ledger_id };
    lemma_and_then(history, endorser, event, after);
    let later = history.and_then(event, after.ledgers);
    assert(later.created_at(ledger_id, history.events.len() as int));
    assert(later.created(ledger_id));
}

/// Appending an entry extends the history of the endorser, which signs the
/// entry receipt and the append receipt from then on.
pub proof fn law_append_extends_history(
    history: History,
    endorser: ActiveView,
    ledger_id: u32,
    entry: Seq<u8>,
    nonce: u64,
    after: ActiveView,
)
    requires
        history.tells(endorser),
        appends(endorser.ledgers, after.ledgers, ledger_id, entry),
        after == (ActiveView { ledgers: after.ledgers, ..endorser }),
    ensures
        ({
            let later = history.and_then(
                Event::Append { ledger_id, entry, nonce },
                after.ledgers,
            );
            let block = after.ledgers[ledger_id];
            let instance_id = endorser.instance_id;
            &&& later.tells(after)
            &&& later.signs(Receipt::Entry { instance_id, ledger_id, block })
            &&& later.signs(Receipt::Append { instance_id, ledger_id, block, nonce })
        }),
{
    let event = Event::Append { ledger_id, entry, nonce };
    let block = after.ledgers[ledger_id];
    lemma_and_then(history, endorser, event, after);
    let later = history.and_then(event, after.ledgers);
    assert(later.appended_at(ledger_id, block, nonce, history.events.len() as int));
    assert(later.appended(ledger_id, block, nonce));
    assert(later.attested_for(ledger_id, block, nonce));
    assert(later.attested(ledger_id, block));
}

/// Reading the latest block extends the history of the endorser, which signs
/// the entry receipt and the read receipt from then on.
pub proof fn law_read_extends_history(
    history: History,
    endorser: ActiveView,
    ledger_id: u32,
    nonce: u64,
)
    requires
        history.tells(endorser),
        endorser.ledgers.contains_key(ledger_id),
    ensures
        ({
            let later = history.and_then(Event::Read { ledger_id, nonce }, endorser.ledgers);
            let block = endorser.ledgers[ledger_id];
            let instance_id = endorser.instance_id;
            &&& later.tells(endorser)
            &&& later.signs(Receipt::Entry { instance_id, ledger_id, block })
            &&& later.signs(Receipt::Read { instance_id, ledger_id, block, nonce })
        }),
{
    let event = Event::Read { ledger_id, nonce };
    let block = endorser.ledgers[ledger_id];
    lemma_and_then(history, endorser, event, endorser);
    let later = history.and_then(event, endorser.ledgers);
    assert(later.read_at(ledger_id, block, nonce, history.events.len() as int));
    assert(later.read(ledger_id, block, nonce));
    assert(later.attested_for(ledger_id, block, nonce));
    assert(later.attested(ledger_id, block));
}

/// Finalization ends the history of the endorser, which signs the finalization
/// receipt, whose message is the one that finalization signs.
pub proof fn law_finalization_ends_history(
    history: History,
    endorser: ActiveView,
    next: Seq<Seq<u8>>,
)
    requires
        history.tells(endorser),
    ensures
        ({
            let receipt = Receipt::Finalize {
                instance_id: endorser.instance_id,
                cohort_config_id: cohort::config_id_of(endorser.config),
                next_cohort_config_id: cohort::config_id_of(next),
                ledgers_hash: ledger::ledgers_hash(endorser.ledgers),
            };
            &&& history.ended(next).well_formed()
            &&& history.ended(next).signs(receipt)
            &&& receipt.encoding() == endorser.finalize_message(next)
        }),
{
    let over = history.ended(next);
    assert forall|i: int| 0 <= i < over.events.len() implies #[trigger] over.leads_at(i) by {
        assert(history.leads_at(i));
    }
}

/// What an endorser signed stays signed: whatever a history signs, each
/// extension of it signs too.
pub proof fn law_signatures_are_for_good(
    history: History,
    event: Event,
    state: LedgerState,
    next: Seq<Seq<u8>>,
    receipt: Receipt,
)
    ensures
        history.well_formed() && history.next is None && history.signs(receipt) ==> {
            &&& history.and_then(event, state).signs(receipt)
            &&& history.ended(next).signs(receipt)
        },
{
    if history.well_formed() && history.next is None && history.signs(receipt) {
        let later = history.and_then(event, state);
        let over = history.ended(next);
        match receipt {
            Receipt::CreateLedger { instance_id, ledger_id } => {
                let i = choose|i: int| history.created_at(ledger_id, i);
                assert(later.created_at(ledger_id, i));
                assert(over.created_at(ledger_id, i));
                assert(later.created(ledger_id));
                assert(over.created(ledger_id));
            },
            Receipt::Append { instance_id, ledger_id, block, nonce } => {
                lemma_append_is_for_good(history, event, state, next, ledger_id, block, nonce);
            },
            Receipt::Read { instance_id, ledger_id, block, nonce } => {
                lemma_read_is_for_good(history, event, state, next, ledger_id, block, nonce);
            },
            Receipt::Entry { instance_id, ledger_id, block } => {
                let nonce = choose|nonce: u64| history.attested_for(ledger_id, block, nonce);
                if history.appended(ledger_id, block, nonce) {
                    lemma_append_is_for_good(history, event, state, next, ledger_id, block, nonce);
                } else {
                    lemma_read_is_for_good(history, event, state, next, ledger_id, block, nonce);
                }
                assert(later.attested_for(ledger_id, block, nonce));
                assert(over.attested_for(ledger_id, block, nonce));
            },
            _ => {},
        }
    }
}

proof fn lemma_append_is_for_good(
    history: History,
    event: Event,
    state: LedgerState,
    next: Seq<Seq<u8>>,
    ledger_id: u32,
    block: LedgerBlock,
    nonce: u64,
)
    requires
        history.well_formed(),
        history.appended(ledger_id, block, nonce),
    ensures
        history.and_then(event, state).appended(ledger_id, block, nonce),
        history.ended(next).appended(ledger_id, block, nonce),
{
    let i = choose|i: int| history.appended_at(ledger_id, block, nonce, i);
    assert(history.and_then(event, state).appended_at(ledger_id, block, nonce, i));
    assert(history.ended(next).appended_at(ledger_id, block, nonce, i));
}

proof fn lemma_read_is_for_good(
    history: History,
    event: Event,
    state: LedgerState,
    next: Seq<Seq<u8>>,
    ledger_id: u32,
    block: LedgerBlock,
    nonce: u64,
)
    requires
        history.well_formed(),
        history.read(ledger_id, block, nonce),
    ensures
        history.and_then(event, state).read(ledger_id, block, nonce),
        history.ended(next).read(ledger_id, block, nonce),
{
    let i = choose|i: int| history.read_at(ledger_id, block, nonce, i);
    assert(history.and_then(event, state).read_at(ledger_id, block, nonce, i));
    assert(history.ended(next).read_at(ledger_id, block, nonce, i));
}

// ---------------------------------------------------------------------------
// What no history holds
// ---------------------------------------------------------------------------

/// Whether a block is at or after another of the same ledger: its index is
/// greater, or it is the same block.
pub open spec fn at_or_after(later: LedgerBlock, earlier: LedgerBlock) -> bool {
    later.index > earlier.index || later == earlier
}

/// Ledgers are append-only: a ledger never goes away, its index never goes
/// back, and while its index stays its block stays.
pub proof fn law_ledgers_only_grow(history: History, ledger_id: u32, i: int, j: int)
    requires
        history.well_formed(),
        0 <= i <= j < history.states.len(),
        history.states[i].contains_key(ledger_id),
    ensures
        history.states[j].contains_key(ledger_id),
        at_or_after(history.states[j][ledger_id], history.states[i][ledger_id]),
    decreases j - i,
{
    if i < j {
        law_ledgers_only_grow(history, ledger_id, i, j - 1);
        assert(history.leads_at(j - 1));
        let before = history.states[j - 1];
        let after = history.states[j];
        match history.events[j - 1] {
            Event::Create { ledger_id: id } => {
                if id != ledger_id {
                    assert(after[ledger_id] == before[ledger_id]);
                }
            },
            Event::Append { ledger_id: id, .. } => {
                if id != ledger_id {
                    assert(after[ledger_id] == before[ledger_id]);
                }
            },
            Event::Read { .. } => {},
        }
    }
}

/// An endorser held whatever block it attested.
pub proof fn law_attested_blocks_were_held(history: History, ledger_id: u32, block: LedgerBlock)
    requires
        history.attested(ledger_id, block),
    ensures
        history.holds(ledger_id, block),
{
    let nonce = choose|nonce: u64| history.attested_for(ledger_id, block, nonce);
    if history.appended(ledger_id, block, nonce) {
        let i = choose|i: int| history.appended_at(ledger_id, block, nonce, i);
        assert(history.holds_at(ledger_id, block, i + 1));
    } else {
        let i = choose|i: int| history.read_at(ledger_id, block, nonce, i);
        assert(history.holds_at(ledger_id, block, i + 1));
    }
}

/// An endorser commits to one block per index: a history never holds two
/// different blocks at the same index of a ledger.
pub proof fn law_one_block_per_index(
    history: History,
    ledger_id: u32,
    block_a: LedgerBlock,
    block_b: LedgerBlock,
)
    requires
        history.well_formed(),
        history.holds(ledger_id, block_a),
        history.holds(ledger_id, block_b),
        block_a.index == block_b.index,
    ensures
        block_a == block_b,
{
    let i = choose|i: int| history.holds_at(ledger_id, block_a, i);
    let j = choose|j: int| history.holds_at(ledger_id, block_b, j);
    if i <= j {
        law_ledgers_only_grow(history, ledger_id, i, j);
    } else {
        law_ledgers_only_grow(history, ledger_id, j, i);
    }
}

/// An endorser finalizes once: a history signs one finalization at most.
pub proof fn law_one_finalization(history: History, first: Receipt, second: Receipt)
    ensures
        history.signs(first) && history.signs(second) && first is Finalize && second is Finalize
            ==> first == second,
{
}

/// An endorser is activated once: a history signs one activation at most.
pub proof fn law_one_activation(history: History, first: Receipt, second: Receipt)
    ensures
        history.signs(first) && history.signs(second) && (first is ActivateNew
            || first is ActivateFromPrev) && (second is ActivateNew || second is ActivateFromPrev)
            ==> first == second,
{
}

} // verus!
