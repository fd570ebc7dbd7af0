//! Ledgers: the latest block of each, and the digest of them all.

use std::collections::BTreeMap;
use vstd::prelude::*;

use crate::bytes;
use crate::crypto;
use crate::keys::{Sha256Digest, Signature};

verus! {

/// The contents of a ledger entry, 32 opaque bytes.
pub type EntryContents = [u8; 32];

/// A ledger block: the entry, index, and hash chain tail.
#[derive(Debug, Clone, Copy, PartialEq, Eq)]
pub struct LedgerBlock {
    /// Entry contents (32 bytes).
    pub entry: [u8; 32],
    /// Index of the entry in the ledger.
    pub index: u64,
    /// Hash chain tail (32 bytes).
    pub hash_chain_tail: [u8; 32],
}

impl LedgerBlock {
    /// The hash chain tail of the block that follows this one.
    pub open spec fn next_tail(self) -> Seq<u8> {
        crypto::sha256_digest(self.hash_chain_tail@ + self.entry@)
    }

    /// Whether `next` is the block that appending `entry` to a ledger whose
    /// latest block is this one gives.
    pub open spec fn followed_by(self, entry: Seq<u8>, next: LedgerBlock) -> bool {
        &&& next.entry@ == entry
        &&& next.index == self.index + 1
        &&& next.hash_chain_tail@ == self.next_tail()
    }

    /// Whether this is the empty block that a ledger starts with.
    pub open spec fn is_initial(self) -> bool {
        &&& self.entry@ == zeros()
        &&& self.index == 0
        &&& self.hash_chain_tail@ == zeros()
    }

    /// Two blocks with the same contents are the same block.
    pub proof fn lemma_ext(self, other: LedgerBlock)
        requires
            self.entry@ == other.entry@,
            self.index == other.index,
            self.hash_chain_tail@ == other.hash_chain_tail@,
        ensures
            self == other,
    {
        bytes::lemma_array_ext(self.entry, other.entry);
        bytes::lemma_array_ext(self.hash_chain_tail, other.hash_chain_tail);
    }

    /// The empty block that a ledger starts with.
    pub fn initial() -> (block: LedgerBlock)
        ensures
            block.is_initial(),
    {
        let empty: [u8; 32] = [0u8; 32];
        proof {
            let filled = vstd::array::spec_array_fill_for_copy_type::<u8, 32>(0);
            assert forall|i: int| 0 <= i < 32 implies empty@[i] == 0 by {
                assert(filled@[i] == 0);
            }
        }
        assert(empty@ =~= zeros());
        LedgerBlock { entry: empty, index: 0, hash_chain_tail: empty }
    }

    /// The block that appending `entry` to a ledger whose latest block is this
    /// one gives: its tail is SHA-256 of this block's tail and entry.
    pub fn next(&self, entry: EntryContents) -> (next: LedgerBlock)
        requires
            self.index < u64::MAX,
        ensures
            self.followed_by(entry@, next),
    {
        let mut message: Vec<u8> = Vec::new();
        bytes::push_bytes(&mut message, self.hash_chain_tail.as_slice());
        bytes::push_bytes(&mut message, self.entry.as_slice());
        assert(message@ =~= self.hash_chain_tail@ + self.entry@);
        LedgerBlock {
            entry,
            index: self.index + 1,
            hash_chain_tail: crypto::sha256(message.as_slice()),
        }
    }

    /// Whether this is the same block as `other`.
    pub fn same_as(&self, other: &LedgerBlock) -> (same: bool)
        ensures
            same == (*self == *other),
    {
        let same = self.index == other.index && bytes::same_bytes(
            self.entry.as_slice(),
            other.entry.as_slice(),
        ) && bytes::same_bytes(self.hash_chain_tail.as_slice(), other.hash_chain_tail.as_slice());
        proof {
            if same {
                self.lemma_ext(*other);
            }
        }
        same
    }
}

/// The contents of an empty entry.
pub open spec fn zeros() -> Seq<u8> {
    Seq::new(32, |i: int| 0u8)
}

// ---------------------------------------------------------------------------
// Signed blocks
// ---------------------------------------------------------------------------

/// What an endorser returns for an append: the new block, with the entry
/// receipt and the append receipt.
#[derive(Debug, Clone, Copy)]
pub struct AppendedLedgerBlock {
    /// The new block (entry, index, hash chain tail).
    pub block: LedgerBlock,
    /// Entry receipt (nonce-free). Proves the entry is committed at this index.
    pub entry_receipt: Signature,
    /// Append receipt (nonce-bound). Proves that an append produced this block.
    pub append_receipt: Signature,
}

impl core::ops::Deref for AppendedLedgerBlock {
    type Target = LedgerBlock;

    fn deref(&self) -> (block: &LedgerBlock)
        ensures
            *block == self.block,
    {
        &self.block
    }
}

/// What an endorser returns for a read: the latest block, with the entry
/// receipt and the read receipt.
#[derive(Debug, Clone, Copy)]
pub struct SignedLedgerBlock {
    /// The latest block (entry, index, hash chain tail).
    pub block: LedgerBlock,
    /// The nonce that the read receipt is bound to.
    pub nonce: u64,
    /// Entry receipt (nonce-free). Proves the entry is committed at this index.
    pub entry_receipt: Signature,
    /// Read receipt (nonce-bound). Proves the ledger was at this block when it
    /// was read.
    pub read_receipt: Signature,
}

impl core::ops::Deref for SignedLedgerBlock {
    type Target = LedgerBlock;

    fn deref(&self) -> (block: &LedgerBlock)
        ensures
            *block == self.block,
    {
        &self.block
    }
}

// ---------------------------------------------------------------------------
// Ledger store
// ---------------------------------------------------------------------------

/// The encoding of one ledger:
/// `ledger_id (4 bytes, BE) || entry (32 bytes) || index (8 bytes, BE) ||
///  hash_chain_tail (32 bytes)`.
pub open spec fn ledger_item(ledger_id: u32, block: LedgerBlock) -> Seq<u8> {
    bytes::be4(ledger_id) + block.entry@ + bytes::be8(block.index) + block.hash_chain_tail@
}

/// The encodings of the ledgers with IDs below `bound`, in ascending ID order.
pub open spec fn items_below(ledgers: Map<u32, LedgerBlock>, bound: nat) -> Seq<u8>
    decreases bound,
{
    if bound == 0 {
        Seq::empty()
    } else {
        let below = (bound - 1) as nat;
        let ledger_id = below as u32;
        if ledgers.contains_key(ledger_id) {
            items_below(ledgers, below) + ledger_item(ledger_id, ledgers[ledger_id])
        } else {
            items_below(ledgers, below)
        }
    }
}

/// The number of ledger IDs.
pub open spec fn id_count() -> nat {
    0x1_0000_0000
}

/// The encoding of a ledger store: the number of ledgers (4 bytes, BE), then
/// each ledger in ascending ID order.
pub open spec fn ledgers_encoding(ledgers: Map<u32, LedgerBlock>) -> Seq<u8> {
    bytes::be4(ledgers.len() as u32) + items_below(ledgers, id_count())
}

/// The digest of a ledger store.
pub open spec fn ledgers_hash(ledgers: Map<u32, LedgerBlock>) -> Seq<u8> {
    crypto::sha256_digest(ledgers_encoding(ledgers))
}

/// No ledger in a gap between IDs means no items from it.
proof fn lemma_gap_adds_nothing(ledgers: Map<u32, LedgerBlock>, low: nat, high: nat)
    requires
        low <= high <= id_count(),
        forall|id: u32| low <= id < high ==> !ledgers.contains_key(id),
    ensures
        items_below(ledgers, high) == items_below(ledgers, low),
    decreases high,
{
    if low < high {
        assert(!ledgers.contains_key((high - 1) as u32));
        lemma_gap_adds_nothing(ledgers, low, (high - 1) as nat);
    }
}

/// Ledger store: maps ledger ID to the latest block of that ledger.
pub struct Ledgers {
    blocks: BTreeMap<u32, LedgerBlock>,
}

impl View for Ledgers {
    type V = Map<u32, LedgerBlock>;

    closed spec fn view(&self) -> Map<u32, LedgerBlock> {
        self.blocks@
    }
}

impl Ledgers {
    /// Creates a new, empty ledger store.
    pub fn new() -> (ledgers: Self)
        ensures
            ledgers@ == Map::<u32, LedgerBlock>::empty(),
    {
        Ledgers { blocks: BTreeMap::new() }
    }

    /// Creates a ledger store from blocks with their ledger IDs. Of two with
    /// the same ID the later one is kept.
    pub fn from_entries(entries: &[(u32, LedgerBlock)]) -> (ledgers: Self)
        ensures
            ledgers@ == from_pairs(entries@),
    {
        broadcast use vstd::std_specs::btree::group_btree_axioms;

        let mut ledgers = Ledgers::new();
        let mut i: usize = 0;
        while i < entries.len()
            invariant
                i <= entries@.len(),
                ledgers@ == from_pairs(entries@.take(i as int)),
            decreases entries@.len() - i,
        {
            let (ledger_id, block) = entries[i];
            ledgers.insert(ledger_id, block);
            assert(entries@.take(i + 1).drop_last() =~= entries@.take(i as int));
            i += 1;
        }
        assert(entries@.take(entries@.len() as int) =~= entries@);
        ledgers
    }

    /// Sets the latest block of a ledger.
    pub fn insert(&mut self, ledger_id: u32, block: LedgerBlock)
        ensures
            final(self)@ == old(self)@.insert(ledger_id, block),
    {
        broadcast use vstd::std_specs::btree::group_btree_axioms;

        self.blocks.insert(ledger_id, block);
    }

    /// Returns the latest block of a ledger.
    pub fn get(&self, ledger_id: &u32) -> (block: Option<&LedgerBlock>)
        ensures
            block is Some <==> self@.contains_key(*ledger_id),
            block matches Some(b) ==> *b == self@[*ledger_id],
    {
        broadcast use vstd::std_specs::btree::group_btree_axioms;

        self.blocks.get(ledger_id)
    }

    /// Whether there is a ledger with this ID.
    pub fn contains_key(&self, ledger_id: &u32) -> (found: bool)
        ensures
            found == self@.contains_key(*ledger_id),
    {
        broadcast use vstd::std_specs::btree::group_btree_axioms;

        self.blocks.contains_key(ledger_id)
    }

    /// Returns the number of ledgers.
    pub fn len(&self) -> (len: usize)
        ensures
            len == self@.len(),
    {
        broadcast use vstd::std_specs::btree::group_btree_axioms;

        self.blocks.len()
    }

    /// Returns the ledgers with their IDs, in ascending ID order.
    pub fn entries(&self) -> (entries: Vec<(u32, LedgerBlock)>)
        ensures
            lists(entries@, self@),
    {
        broadcast use vstd::std_specs::btree::group_btree_axioms;

        let ghost all = vstd::std_specs::iter::IteratorSpec::remaining(
            &vstd::std_specs::btree::spec_btree_map_iter(&self.blocks),
        );
        let mut entries: Vec<(u32, LedgerBlock)> = Vec::new();
        for (ledger_id, block) in it: self.blocks.iter()
            invariant
                it.seq() == all,
                entries@.len() == it.index(),
                forall|i: int|
                    0 <= i < entries@.len() ==> (#[trigger] entries@[i]).0 == *all[i].0
                        && entries@[i].1 == *all[i].1,
        {
            entries.push((*ledger_id, *block));
        }
        proof {
            let ids = all.map_values(|pair: (&u32, &LedgerBlock)| *pair.0);
            assert(vstd::std_specs::btree::increasing_seq(ids));
            assert forall|i: int, j: int| 0 <= i < j < entries@.len() implies entries@[i].0
                < entries@[j].0 by {
                assert(vstd::std_specs::cmp::OrdSpec::cmp_spec(&ids[i], &ids[j]) is Less);
            }
            assert forall|i: int| 0 <= i < entries@.len() implies self@.contains_key(
                (#[trigger] entries@[i]).0,
            ) && self@[entries@[i].0] == entries@[i].1 by {
                assert(self.blocks@.contains_key(*all[i].0));
            }
            assert forall|id: u32| #[trigger] self@.contains_key(id) implies entries@.contains(
                (id, self@[id]),
            ) by {
                assert(self.blocks@.contains_key(id));
                assert(all.contains((&id, &self.blocks@[id])));
                let i = choose|i: int| 0 <= i < all.len() && all[i] == (&id, &self.blocks@[id]);
                assert(entries@[i] == (id, self@[id]));
            }
        }
        entries
    }

    /// Computes a deterministic SHA-256 hash of the full ledger state.
    ///
    /// Format hashed:
    ///   `num_ledgers (4 bytes, BE) || ledger items...`
    ///
    /// Each ledger item (in ascending `ledger_id` order):
    ///   `ledger_id (4 bytes, BE) || entry (32 bytes) || index (8 bytes, BE) ||
    ///    hash_chain_tail (32 bytes)`
    pub fn hash(&self) -> (digest: Sha256Digest)
        ensures
            digest@ == ledgers_hash(self@),
    {
        let entries = self.entries();
        let ghost all = entries@;
        let mut message: Vec<u8> = Vec::new();
        bytes::push_be4(&mut message, self.len() as u32);
        let ghost mut bound: nat = 0;
        let mut i: usize = 0;
        while i < entries.len()
            invariant
                i <= entries@.len(),
                entries@ == all,
                lists(all, self@),
                bound == (if i == 0 {
                    0
                } else {
                    all[i - 1].0 + 1
                }) as nat,
                message@ == bytes::be4(self@.len() as u32) + items_below(self@, bound),
            decreases entries@.len() - i,
        {
            let (ledger_id, block) = entries[i];
            bytes::push_be4(&mut message, ledger_id);
            bytes::push_bytes(&mut message, block.entry.as_slice());
            bytes::push_be8(&mut message, block.index);
            bytes::push_bytes(&mut message, block.hash_chain_tail.as_slice());
            proof {
                lemma_gap_between(all, self@, i as int, bound, ledger_id as nat);
                assert(self@.contains_key(all[i as int].0));
                assert((ledger_id as nat) as u32 == ledger_id);
                bound = ledger_id as nat + 1;
                assert(message@ =~= bytes::be4(self@.len() as u32) + items_below(self@, bound));
            }
            i += 1;
        }
        proof {
            lemma_gap_between(all, self@, i as int, bound, id_count());
        }
        crypto::sha256(message.as_slice())
    }
}

impl Clone for Ledgers {
    fn clone(&self) -> (copy: Self)
        ensures
            copy@ == self@,
    {
        broadcast use vstd::std_specs::btree::group_btree_axioms;

        Ledgers { blocks: self.blocks.clone() }
    }
}

/// Between two consecutive listed IDs there is no ledger.
pub proof fn lemma_gap_between(
    entries: Seq<(u32, LedgerBlock)>,
    ledgers: Map<u32, LedgerBlock>,
    i: int,
    low: nat,
    high: nat,
)
    requires
        lists(entries, ledgers),
        0 <= i <= entries.len(),
        low == (if i == 0 {
            0
        } else {
            entries[i - 1].0 + 1
        }),
        high == (if i < entries.len() {
            entries[i].0 as nat
        } else {
            id_count()
        }),
    ensures
        items_below(ledgers, high) == items_below(ledgers, low),
{
    assert forall|id: u32| low <= id < high implies !ledgers.contains_key(id) by {
        if ledgers.contains_key(id) {
            let k = choose|k: int|
                0 <= k < entries.len() && entries[k] == (id, ledgers[id]);
            if k < i - 1 {
                assert(entries[k].0 < entries[i - 1].0);
            } else if i < k {
                assert(entries[i].0 < entries[k].0);
            }
        }
    }
    lemma_gap_adds_nothing(ledgers, low, high);
}

/// The store that results from setting each block in turn.
pub open spec fn from_pairs(entries: Seq<(u32, LedgerBlock)>) -> Map<u32, LedgerBlock>
    decreases entries.len(),
{
    if entries.len() == 0 {
        Map::empty()
    } else {
        from_pairs(entries.drop_last()).insert(entries.last().0, entries.last().1)
    }
}

/// There are no more ledgers than blocks were set.
pub proof fn lemma_from_pairs_len(entries: Seq<(u32, LedgerBlock)>)
    ensures
        from_pairs(entries).dom().finite(),
        from_pairs(entries).len() <= entries.len(),
    decreases entries.len(),
{
    if entries.len() > 0 {
        lemma_from_pairs_len(entries.drop_last());
    }
}

/// Whether `entries` lists exactly the ledgers of a store, in ascending ID order.
pub open spec fn lists(
    entries: Seq<(u32, LedgerBlock)>,
    ledgers: Map<u32, LedgerBlock>,
) -> bool {
    &&& forall|i: int, j: int| 0 <= i < j < entries.len() ==> entries[i].0 < entries[j].0
    &&& forall|i: int|
        0 <= i < entries.len() ==> ledgers.contains_key((#[trigger] entries[i]).0)
            && ledgers[entries[i].0] == entries[i].1
    &&& forall|id: u32| #[trigger]
        ledgers.contains_key(id) ==> entries.contains((id, ledgers[id]))
}

// ---------------------------------------------------------------------------
// Laws
// ---------------------------------------------------------------------------

/// What setting blocks of a store in turn gives is part of the store.
proof fn lemma_from_pairs_within(
    entries: Seq<(u32, LedgerBlock)>,
    ledgers: Map<u32, LedgerBlock>,
)
    requires
        forall|i: int|
            0 <= i < entries.len() ==> ledgers.contains_key((#[trigger] entries[i]).0)
                && ledgers[entries[i].0] == entries[i].1,
    ensures
        from_pairs(entries).submap_of(ledgers),
        forall|i: int|
            0 <= i < entries.len() ==> from_pairs(entries).contains_key(
                (#[trigger] entries[i]).0,
            ),
    decreases entries.len(),
{
    if entries.len() > 0 {
        let earlier = entries.drop_last();
        assert forall|i: int| 0 <= i < earlier.len() implies ledgers.contains_key(
            (#[trigger] earlier[i]).0,
        ) && ledgers[earlier[i].0] == earlier[i].1 by {
            assert(earlier[i] == entries[i]);
        }
        lemma_from_pairs_within(earlier, ledgers);
        assert(entries.last() == entries[entries.len() - 1]);
        assert forall|i: int| 0 <= i < entries.len() implies from_pairs(entries).contains_key(
            (#[trigger] entries[i]).0,
        ) by {
            if i < earlier.len() {
                assert(earlier[i] == entries[i]);
            }
        }
    }
}

/// Listing a store and setting the listed blocks in turn gives the store back.
pub proof fn law_listed_ledgers_rebuild_the_store(
    entries: Seq<(u32, LedgerBlock)>,
    ledgers: Map<u32, LedgerBlock>,
)
    requires
        lists(entries, ledgers),
    ensures
        from_pairs(entries) == ledgers,
{
    lemma_from_pairs_within(entries, ledgers);
    assert forall|id: u32| #[trigger] ledgers.contains_key(id) implies from_pairs(
        entries,
    ).contains_key(id) by {
        let i = choose|i: int| 0 <= i < entries.len() && entries[i] == (id, ledgers[id]);
        assert(entries[i].0 == id);
    }
    assert(from_pairs(entries) =~= ledgers);
}

proof fn lemma_item_len(ledger_id: u32, block: LedgerBlock)
    ensures
        ledger_item(ledger_id, block).len() == 76,
{
    bytes::lemma_be4(ledger_id);
    bytes::lemma_be8(block.index);
}

/// The encoding of a ledger can be read back.
proof fn lemma_item_is_injective(id_a: u32, block_a: LedgerBlock, id_b: u32, block_b: LedgerBlock)
    requires
        ledger_item(id_a, block_a) == ledger_item(id_b, block_b),
    ensures
        id_a == id_b,
        block_a == block_b,
{
    let item = ledger_item(id_a, block_a);
    bytes::lemma_be4(id_a);
    bytes::lemma_be4(id_b);
    bytes::lemma_be8(block_a.index);
    bytes::lemma_be8(block_b.index);
    assert(item.subrange(0, 4) =~= bytes::be4(id_a));
    assert(item.subrange(0, 4) =~= bytes::be4(id_b));
    assert(item.subrange(4, 36) =~= block_a.entry@);
    assert(item.subrange(4, 36) =~= block_b.entry@);
    assert(item.subrange(36, 44) =~= bytes::be8(block_a.index));
    assert(item.subrange(36, 44) =~= bytes::be8(block_b.index));
    assert(item.subrange(44, 76) =~= block_a.hash_chain_tail@);
    assert(item.subrange(44, 76) =~= block_b.hash_chain_tail@);
    block_a.lemma_ext(block_b);
}

/// Items end with that of the greatest ID below the bound.
proof fn lemma_last_item(ledgers: Map<u32, LedgerBlock>, bound: nat) -> (last: Option<u32>)
    requires
        bound <= id_count(),
    ensures
        match last {
            None => items_below(ledgers, bound).len() == 0,
            Some(id) => {
                &&& id < bound
                &&& ledgers.contains_key(id)
                &&& items_below(ledgers, bound) == items_below(ledgers, id as nat) + ledger_item(
                    id,
                    ledgers[id],
                )
            },
        },
    decreases bound,
{
    if bound == 0 {
        None
    } else {
        let id = (bound - 1) as u32;
        if ledgers.contains_key(id) {
            Some(id)
        } else {
            lemma_last_item(ledgers, (bound - 1) as nat)
        }
    }
}

/// Where one store has a ledger with the ID just below the bound and another
/// has not, their items differ.
proof fn lemma_items_differ(a: Map<u32, LedgerBlock>, b: Map<u32, LedgerBlock>, bound: nat)
    requires
        0 < bound <= id_count(),
        a.contains_key((bound - 1) as u32),
        !b.contains_key((bound - 1) as u32),
    ensures
        items_below(a, bound) != items_below(b, bound),
{
    let id = (bound - 1) as u32;
    lemma_item_len(id, a[id]);
    let last = lemma_last_item(b, bound);
    match last {
        None => {},
        Some(other) => {
            lemma_item_len(other, b[other]);
            if items_below(a, bound) == items_below(b, bound) {
                let all = items_below(a, bound);
                let n = all.len() - 76;
                assert(all.skip(n) =~= ledger_item(id, a[id]));
                assert(all.skip(n) =~= ledger_item(other, b[other]));
                lemma_item_is_injective(id, a[id], other, b[other]);
            }
        },
    }
}

/// Whether two stores hold the same for a ledger ID.
spec fn agree_on(a: Map<u32, LedgerBlock>, b: Map<u32, LedgerBlock>, id: u32) -> bool {
    &&& a.contains_key(id) == b.contains_key(id)
    &&& a.contains_key(id) ==> a[id] == b[id]
}

/// Stores with the same items below a bound agree below the bound.
proof fn lemma_items_determine(a: Map<u32, LedgerBlock>, b: Map<u32, LedgerBlock>, bound: nat)
    requires
        bound <= id_count(),
        items_below(a, bound) == items_below(b, bound),
    ensures
        forall|id: u32| id < bound ==> #[trigger] agree_on(a, b, id),
    decreases bound,
{
    if bound > 0 {
        let below = (bound - 1) as nat;
        let last = below as u32;
        if a.contains_key(last) && !b.contains_key(last) {
            lemma_items_differ(a, b, bound);
        } else if b.contains_key(last) && !a.contains_key(last) {
            lemma_items_differ(b, a, bound);
        } else if a.contains_key(last) {
            lemma_item_len(last, a[last]);
            lemma_item_len(last, b[last]);
            let all = items_below(a, bound);
            let n = all.len() - 76;
            assert(all.skip(n) =~= ledger_item(last, a[last]));
            assert(all.skip(n) =~= ledger_item(last, b[last]));
            assert(all.take(n) =~= items_below(a, below));
            assert(all.take(n) =~= items_below(b, below));
            lemma_item_is_injective(last, a[last], last, b[last]);
            lemma_items_determine(a, b, below);
        } else {
            lemma_items_determine(a, b, below);
        }
        assert forall|id: u32| id < bound implies #[trigger] agree_on(a, b, id) by {
            if id >= below {
                assert(id == last);
            }
        }
    }
}

/// The hash of a ledger store is the digest of one store only: two stores with
/// the same encoding have the same ledgers with the same blocks.
pub proof fn law_ledgers_encoding_is_injective(a: Map<u32, LedgerBlock>, b: Map<u32, LedgerBlock>)
    requires
        ledgers_encoding(a) == ledgers_encoding(b),
    ensures
        a == b,
{
    bytes::lemma_be4(a.len() as u32);
    bytes::lemma_be4(b.len() as u32);
    let all = ledgers_encoding(a);
    assert(all.skip(4) =~= items_below(a, id_count()));
    assert(all.skip(4) =~= items_below(b, id_count()));
    lemma_items_determine(a, b, id_count());
    assert forall|id: u32| a.dom().contains(id) == b.dom().contains(id) by {
        assert(agree_on(a, b, id));
    }
    assert forall|id: u32| a.dom().contains(id) implies a[id] == b[id] by {
        assert(agree_on(a, b, id));
    }
    assert(a =~= b);
}

/// Whether blocks are those of a ledger from its start on, each the successor
/// of the one before.
pub open spec fn is_chain(blocks: Seq<LedgerBlock>) -> bool {
    &&& blocks.len() > 0
    &&& blocks[0].is_initial()
    &&& forall|i: int| 0 < i < blocks.len() ==> #[trigger] succeeds(blocks, i)
}

/// Whether the block at a position is the successor of the one before.
pub open spec fn succeeds(blocks: Seq<LedgerBlock>, i: int) -> bool {
    blocks[i - 1].followed_by(blocks[i].entry@, blocks[i])
}

/// What is hashed to give the tail of the block after this one.
pub open spec fn tail_input(block: LedgerBlock) -> Seq<u8> {
    block.hash_chain_tail@ + block.entry@
}

/// Whether no two blocks of two chains give the same tail without what is
/// hashed being the same.
pub open spec fn distinct_tails(a: Seq<LedgerBlock>, b: Seq<LedgerBlock>) -> bool {
    forall|i: int, j: int|
        #![trigger a[i], b[j]]
        0 <= i < a.len() && 0 <= j < b.len() && a[i].next_tail() == b[j].next_tail()
            ==> tail_input(a[i]) == tail_input(b[j])
}

/// The index of a block is its position in the ledger.
pub proof fn law_index_is_position(blocks: Seq<LedgerBlock>, i: int)
    requires
        is_chain(blocks),
        0 <= i < blocks.len(),
    ensures
        blocks[i].index == i,
    decreases i,
{
    if i > 0 {
        law_index_is_position(blocks, i - 1);
        assert(succeeds(blocks, i));
    }
}

/// A block commits to everything before it: two ledgers whose latest blocks are
/// the same have the same blocks from the start on, as long as no two digests
/// collide.
pub proof fn law_tail_commits_to_the_past(a: Seq<LedgerBlock>, b: Seq<LedgerBlock>)
    ensures
        is_chain(a) && is_chain(b) && a.last() == b.last() && distinct_tails(a, b) ==> a == b,
{
    if is_chain(a) && is_chain(b) && a.last() == b.last() && distinct_tails(a, b) {
        law_index_is_position(a, a.len() - 1);
        law_index_is_position(b, b.len() - 1);
        assert forall|i: int| 0 <= i < a.len() implies a[i] == b[i] by {
            lemma_same_past(a, b, i);
        }
        assert(a =~= b);
    }
}

proof fn lemma_same_past(a: Seq<LedgerBlock>, b: Seq<LedgerBlock>, i: int)
    requires
        is_chain(a),
        is_chain(b),
        a.len() == b.len(),
        a.last() == b.last(),
        distinct_tails(a, b),
        0 <= i < a.len(),
    ensures
        a[i] == b[i],
    decreases a.len() - i,
{
    if i < a.len() - 1 {
        lemma_same_past(a, b, i + 1);
        assert(succeeds(a, i + 1));
        assert(succeeds(b, i + 1));
        assert(a[i].next_tail() == b[i].next_tail());
        let input = tail_input(a[i]);
        assert(input.take(32) =~= a[i].hash_chain_tail@);
        assert(input.take(32) =~= b[i].hash_chain_tail@);
        assert(input.skip(32) =~= a[i].entry@);
        assert(input.skip(32) =~= b[i].entry@);
        a[i].lemma_ext(b[i]);
    }
}

} // verus!
