//! What endorsers sign and hash, byte by byte.

use vstd::prelude::*;

use crate::bytes;
use crate::cohort;
use crate::cohort::{CohortData, ConfigId, EndorserData, InvalidConfigError};
use crate::crypto;
use crate::endorser::{Endorser, Phase};
use crate::keys::{Sha256Digest, Signature, SignatureError, SigningKey, VerifyingKey};
use crate::ledger;
use crate::ledger::{EntryContents, LedgerBlock, Ledgers};
use crate::receipts;

verus! {

/// The four bytes of a number, most significant first.
pub open spec fn four_bytes(n: u32) -> Seq<u8> {
    seq![
        (n / 0x100_0000) as u8,
        (n / 0x1_0000 % 0x100) as u8,
        (n / 0x100 % 0x100) as u8,
        (n % 0x100) as u8,
    ]
}

/// The eight bytes of a number, most significant first.
pub open spec fn eight_bytes(n: u64) -> Seq<u8> {
    four_bytes((n / 0x1_0000_0000) as u32) + four_bytes((n % 0x1_0000_0000) as u32)
}

proof fn lemma_four_bytes(n: u32)
    ensures
        bytes::be4(n) == four_bytes(n),
{
    reveal_with_fuel(bytes::be_bytes, 5);
    assert(bytes::be4(n) =~= four_bytes(n));
}

/// The digits of a number above and below a middle position.
proof fn lemma_split_digits(n: nat, high: nat, low: nat)
    requires
        n == high * 0x1_0000_0000 + low,
        low < 0x1_0000_0000,
    ensures
        n / 256 / 256 / 256 / 256 == high,
        n / 256 / 256 / 256 % 256 == low / 256 / 256 / 256 % 256,
        n / 256 / 256 % 256 == low / 256 / 256 % 256,
        n / 256 % 256 == low / 256 % 256,
        n % 256 == low % 256,
{
    let n1 = high * 0x100_0000 + low / 256;
    assert(n / 256 == n1 && n % 256 == low % 256);
    let n2 = high * 0x1_0000 + low / 256 / 256;
    assert(n1 / 256 == n2 && n1 % 256 == low / 256 % 256);
    let n3 = high * 0x100 + low / 256 / 256 / 256;
    assert(n2 / 256 == n3 && n2 % 256 == low / 256 / 256 % 256);
    assert(n3 / 256 == high && n3 % 256 == low / 256 / 256 / 256 % 256);
}

/// The digits of a number are those of its upper half, followed by those of its
/// lower half.
proof fn lemma_halves(n: u64)
    ensures
        bytes::be8(n) == bytes::be4((n / 0x1_0000_0000) as u32) + bytes::be4(
            (n % 0x1_0000_0000) as u32,
        ),
{
    let high = (n / 0x1_0000_0000) as nat;
    let low = (n % 0x1_0000_0000) as nat;
    lemma_split_digits(n as nat, high, low);
    lemma_append_digits(n as nat, high, low);
}

/// Four more digits after those of the upper half.
proof fn lemma_append_digits(n: nat, high: nat, low: nat)
    requires
        n / 256 / 256 / 256 / 256 == high,
        n / 256 / 256 / 256 % 256 == low / 256 / 256 / 256 % 256,
        n / 256 / 256 % 256 == low / 256 / 256 % 256,
        n / 256 % 256 == low / 256 % 256,
        n % 256 == low % 256,
    ensures
        bytes::be_bytes(n, 8) == bytes::be_bytes(high, 4) + bytes::be_bytes(low, 4),
{
    let top = bytes::be_bytes(high, 4);
    let l1 = low / 256;
    let l2 = l1 / 256;
    let l3 = l2 / 256;
    let end = seq![
        (l3 % 256) as u8,
        (l2 % 256) as u8,
        (l1 % 256) as u8,
        (low % 256) as u8,
    ];
    assert(bytes::be_bytes(low, 4) =~= end) by {
        reveal_with_fuel(bytes::be_bytes, 5);
    }
    assert(bytes::be_bytes(n, 8) == top.push(end[0]).push(end[1]).push(end[2]).push(end[3])) by {
        let d1 = n / 256;
        let d2 = d1 / 256;
        let d3 = d2 / 256;
        assert(bytes::be_bytes(n, 8) == bytes::be_bytes(d1, 7).push(end[3]));
        assert(bytes::be_bytes(d1, 7) == bytes::be_bytes(d2, 6).push(end[2]));
        assert(bytes::be_bytes(d2, 6) == bytes::be_bytes(d3, 5).push(end[1]));
        assert(bytes::be_bytes(d3, 5) == top.push(end[0]));
    }
    assert(bytes::be_bytes(n, 8) =~= top + end);
}

proof fn lemma_eight_bytes(n: u64)
    ensures
        bytes::be8(n) == eight_bytes(n),
{
    lemma_halves(n);
    lemma_four_bytes((n / 0x1_0000_0000) as u32);
    lemma_four_bytes((n % 0x1_0000_0000) as u32);
}

// ---------------------------------------------------------------------------
// Messages
// ---------------------------------------------------------------------------

/// What is signed for the activation of a new instance.
pub proof fn law_new_instance_message(instance_id: &ConfigId, message: Vec<u8>)
    requires
        call_ensures(
            receipts::build_activate_new_instance_message,
            (instance_id,),
            message,
        ),
    ensures
        message@ == seq![97u8, 99, 116, 105, 118, 97, 116, 101] + instance_id@,
{
    reveal_strlit("activate");
}

/// What is signed for the activation from a previous cohort: the IDs of the
/// instance, the previous and the new cohort, and the digest of the ledgers.
pub proof fn law_takeover_message(
    instance_id: &ConfigId,
    prev_config_id: &ConfigId,
    new_config_id: &ConfigId,
    ledgers_hash: &Sha256Digest,
    message: Vec<u8>,
)
    requires
        call_ensures(
            receipts::build_activate_from_prev_message,
            (instance_id, prev_config_id, new_config_id, ledgers_hash),
            message,
        ),
    ensures
        message@ == seq![97u8, 99, 116, 105, 118, 97, 116, 101] + instance_id@ + prev_config_id@
            + new_config_id@ + ledgers_hash@,
{
    reveal_strlit("activate");
}

/// What is signed for the creation of a ledger.
pub proof fn law_create_ledger_message(
    instance_id: &ConfigId,
    ledger_id: u32,
    message: Vec<u8>,
)
    requires
        call_ensures(
            receipts::build_create_ledger_message,
            (instance_id, ledger_id),
            message,
        ),
    ensures
        message@ == seq![99u8, 114, 101, 97, 116, 101, 95, 108, 101, 100, 103, 101, 114] + instance_id@
            + four_bytes(ledger_id),
{
    reveal_strlit("create_ledger");
    lemma_four_bytes(ledger_id);
}

/// What is signed for an entry at a position.
pub proof fn law_entry_message(
    instance_id: &ConfigId,
    ledger_id: u32,
    entry: &EntryContents,
    index: u64,
    hash_chain_tail: &Sha256Digest,
    message: Vec<u8>,
)
    requires
        call_ensures(
            receipts::build_entry_receipt_message,
            (instance_id, ledger_id, entry, index, hash_chain_tail),
            message,
        ),
    ensures
        message@ == seq![101u8, 110, 116, 114, 121] + instance_id@ + four_bytes(ledger_id)
            + entry@ + eight_bytes(index) + hash_chain_tail@,
{
    reveal_strlit("entry");
    lemma_four_bytes(ledger_id);
    lemma_eight_bytes(index);
}

/// What is signed for an append, bound to the nonce.
pub proof fn law_append_message(
    instance_id: &ConfigId,
    ledger_id: u32,
    entry: &EntryContents,
    index: u64,
    hash_chain_tail: &Sha256Digest,
    nonce: u64,
    message: Vec<u8>,
)
    requires
        call_ensures(
            receipts::build_append_entry_message,
            (instance_id, ledger_id, entry, index, hash_chain_tail, nonce),
            message,
        ),
    ensures
        message@ == seq![97u8, 112, 112, 101, 110, 100, 95, 101, 110, 116, 114, 121]
            + instance_id@ + four_bytes(ledger_id) + entry@ + eight_bytes(index)
            + hash_chain_tail@ + eight_bytes(nonce),
{
    reveal_strlit("append_entry");
    lemma_four_bytes(ledger_id);
    lemma_eight_bytes(index);
    lemma_eight_bytes(nonce);
}

/// What is signed for a read, bound to the nonce.
pub proof fn law_read_message(
    instance_id: &ConfigId,
    ledger_id: u32,
    entry: &EntryContents,
    index: u64,
    hash_chain_tail: &Sha256Digest,
    nonce: u64,
    message: Vec<u8>,
)
    requires
        call_ensures(
            receipts::build_read_latest_message,
            (instance_id, ledger_id, entry, index, hash_chain_tail, nonce),
            message,
        ),
    ensures
        message@ == seq![114u8, 101, 97, 100, 95, 108, 97, 116, 101, 115, 116]
            + instance_id@ + four_bytes(ledger_id) + entry@ + eight_bytes(index)
            + hash_chain_tail@ + eight_bytes(nonce),
{
    reveal_strlit("read_latest");
    lemma_four_bytes(ledger_id);
    lemma_eight_bytes(index);
    lemma_eight_bytes(nonce);
}

/// What is signed for finalization: the IDs of the instance, the finalized and
/// the next cohort, and the digest of the ledgers.
pub proof fn law_finalize_message(
    instance_id: &ConfigId,
    cohort_config_id: &ConfigId,
    next_cohort_config_id: &ConfigId,
    ledgers_hash: &Sha256Digest,
    message: Vec<u8>,
)
    requires
        call_ensures(
            receipts::build_finalize_message,
            (instance_id, cohort_config_id, next_cohort_config_id, ledgers_hash),
            message,
        ),
    ensures
        message@ == seq![102u8, 105, 110, 97, 108, 105, 122, 101] + instance_id@ + cohort_config_id@
            + next_cohort_config_id@ + ledgers_hash@,
{
    reveal_strlit("finalize");
}

// ---------------------------------------------------------------------------
// Cohorts
// ---------------------------------------------------------------------------

/// Whether one byte string comes before another: they agree up to a position at
/// which the first ends or has the smaller byte.
pub open spec fn precedes(a: Seq<u8>, b: Seq<u8>) -> bool {
    exists|k: int|
        {
            &&& 0 <= k <= a.len()
            &&& k < b.len()
            &&& #[trigger] a.take(k) == b.take(k)
            &&& k < a.len() ==> a[k] < b[k]
        }
}

/// The order of byte strings is by the first difference.
pub proof fn lemma_precedes(a: Seq<u8>, b: Seq<u8>)
    ensures
        bytes::lex_less(a, b) <==> precedes(a, b),
{
    if bytes::lex_less(a, b) {
        let k = choose|k: int| bytes::smaller_at(a, b, k);
        assert(a.take(k) =~= b.take(k));
    }
    if precedes(a, b) {
        let k = choose|k: int|
            {
                &&& 0 <= k <= a.len()
                &&& k < b.len()
                &&& #[trigger] a.take(k) == b.take(k)
                &&& k < a.len() ==> a[k] < b[k]
            };
        assert forall|j: int| 0 <= j < k implies a[j] == b[j] by {
            assert(a.take(k)[j] == b.take(k)[j]);
        }
        assert(bytes::smaller_at(a, b, k));
    }
}

/// Byte strings are put in order by the first byte in which they differ.
pub proof fn law_order_of_byte_strings(a: &[u8], b: &[u8], before: bool)
    requires
        call_ensures(bytes::comes_before, (a, b), before),
    ensures
        before <==> precedes(a@, b@),
{
    lemma_precedes(a@, b@);
}

/// Entries make up a cohort exactly if there is one and each key comes before
/// every later one; the cohort then holds those entries.
pub proof fn law_cohort_is_sorted<R>(
    entries: Vec<EndorserData<R>>,
    data: Result<CohortData<R>, InvalidConfigError>,
)
    requires
        call_ensures(CohortData::<R>::try_new, (entries,), data),
    ensures
        data is Ok <==> entries@.len() > 0 && forall|i: int, j: int|
            0 <= i < j < entries@.len() ==> precedes(
                (#[trigger] entries@[i]).endorser_key@,
                (#[trigger] entries@[j]).endorser_key@,
            ),
        data matches Ok(cohort) ==> cohort@ == entries@,
{
    let keys = cohort::keys_of(entries@);
    assert forall|i: int, j: int| 0 <= i < j < entries@.len() implies bytes::lex_less(
        keys[i],
        keys[j],
    ) == precedes(
        (#[trigger] entries@[i]).endorser_key@,
        (#[trigger] entries@[j]).endorser_key@,
    ) by {
        lemma_precedes(keys[i], keys[j]);
    }
    if forall|i: int, j: int|
        0 <= i < j < entries@.len() ==> precedes(
            (#[trigger] entries@[i]).endorser_key@,
            (#[trigger] entries@[j]).endorser_key@,
        ) {
        assert forall|i: int, j: int| 0 <= i < j < keys.len() implies bytes::lex_less(
            keys[i],
            keys[j],
        ) by {
            assert(precedes(entries@[i].endorser_key@, entries@[j].endorser_key@));
        }
    }
    if cohort::valid_cohort(keys) {
        assert forall|i: int, j: int| 0 <= i < j < entries@.len() implies precedes(
            (#[trigger] entries@[i]).endorser_key@,
            (#[trigger] entries@[j]).endorser_key@,
        ) by {
            assert(bytes::lex_less(keys[i], keys[j]));
        }
    }
}

/// A cohort contains a key exactly if one of its endorsers has it.
pub proof fn law_cohort_contains_its_keys<R>(
    data: &CohortData<R>,
    key: &VerifyingKey,
    found: bool,
)
    requires
        call_ensures(CohortData::<R>::contains, (data, key), found),
    ensures
        found <==> exists|i: int|
            0 <= i < data@.len() && (#[trigger] data@[i]).endorser_key@ == key@,
{
    let keys = data.key_seq();
    if found {
        let i = choose|i: int| 0 <= i < keys.len() && keys[i] == key@;
        assert(data@[i].endorser_key@ == key@);
    }
    if exists|i: int| 0 <= i < data@.len() && (#[trigger] data@[i]).endorser_key@ == key@ {
        let i = choose|i: int|
            0 <= i < data@.len() && (#[trigger] data@[i]).endorser_key@ == key@;
        assert(keys[i] == key@);
    }
}

proof fn lemma_concatenated(keys: Seq<Seq<u8>>)
    ensures
        cohort::concatenated(keys) == keys.flatten_alt(),
    decreases keys.len(),
{
    if keys.len() > 0 {
        lemma_concatenated(keys.drop_last());
    }
}

/// The ID of a cohort is the digest of its keys one after the other, whatever
/// is attached to them.
pub proof fn law_config_id_hashes_the_keys<R>(data: &CohortData<R>, id: ConfigId)
    requires
        call_ensures(CohortData::<R>::config_id, (data,), id),
    ensures
        id@ == crypto::sha256_digest(
            data@.map_values(|entry: EndorserData<R>| entry.endorser_key@).flatten(),
        ),
{
    let keys = data@.map_values(|entry: EndorserData<R>| entry.endorser_key@);
    lemma_concatenated(keys);
    keys.lemma_flatten_and_flatten_alt_are_equivalent();
}

/// The same for bare keys.
pub proof fn law_computed_config_id_hashes_the_keys(keys: &[VerifyingKey], id: ConfigId)
    requires
        call_ensures(cohort::compute_config_id, (keys,), id),
    ensures
        id@ == crypto::sha256_digest(keys@.map_values(|key: VerifyingKey| key@).flatten()),
{
    let encoded = keys@.map_values(|key: VerifyingKey| key@);
    lemma_concatenated(encoded);
    encoded.lemma_flatten_and_flatten_alt_are_equivalent();
}

// ---------------------------------------------------------------------------
// Ledgers
// ---------------------------------------------------------------------------

/// Appending gives the entry at the next index, with the digest of the tail and
/// the entry before it as its tail.
pub proof fn law_next_block(block: &LedgerBlock, entry: EntryContents, next: LedgerBlock)
    requires
        block.index < u64::MAX,
        call_ensures(LedgerBlock::next, (block, entry), next),
    ensures
        next.entry@ == entry@,
        next.index == block.index + 1,
        next.hash_chain_tail@ == crypto::sha256_digest(block.hash_chain_tail@ + block.entry@),
{
}

/// A ledger starts with an empty block: index zero, and zeros otherwise.
pub proof fn law_initial_block(block: LedgerBlock)
    requires
        call_ensures(LedgerBlock::initial, (), block),
    ensures
        block.index == 0,
        forall|i: int| 0 <= i < 32 ==> #[trigger] block.entry@[i] == 0,
        forall|i: int| 0 <= i < 32 ==> #[trigger] block.hash_chain_tail@[i] == 0,
{
}

/// What is hashed of one ledger.
pub open spec fn ledger_bytes(entry: (u32, LedgerBlock)) -> Seq<u8> {
    four_bytes(entry.0) + entry.1.entry@ + eight_bytes(entry.1.index)
        + entry.1.hash_chain_tail@
}

/// The items of listed ledgers are those of the store.
proof fn lemma_items(
    entries: Seq<(u32, LedgerBlock)>,
    ledgers: Map<u32, LedgerBlock>,
    n: int,
)
    requires
        ledger::lists(entries, ledgers),
        0 <= n <= entries.len(),
    ensures
        ledger::items_below(
            ledgers,
            if n == 0 {
                0
            } else {
                (entries[n - 1].0 + 1) as nat
            },
        ) == entries.map_values(|entry: (u32, LedgerBlock)| ledger_bytes(entry)).take(
            n,
        ).flatten_alt(),
    decreases n,
{
    let items = entries.map_values(|entry: (u32, LedgerBlock)| ledger_bytes(entry));
    if n == 0 {
        assert(items.take(0) =~= Seq::empty());
    } else {
        lemma_items(entries, ledgers, n - 1);
        let (id, block) = entries[n - 1];
        let low = (if n == 1 {
            0
        } else {
            entries[n - 2].0 + 1
        }) as nat;
        ledger::lemma_gap_between(entries, ledgers, n - 1, low, id as nat);
        lemma_four_bytes(id);
        lemma_eight_bytes(block.index);
        assert(ledgers.contains_key(entries[n - 1].0));
        assert((id as nat) as u32 == id);
        assert(items.take(n).drop_last() =~= items.take(n - 1));
        assert(items.take(n).last() == ledger_bytes(entries[n - 1]));
    }
}

/// The digest of a ledger store is that of the number of ledgers and, in
/// ascending order, each ledger's ID, entry, index and tail.
pub proof fn law_ledgers_hash(
    ledgers: &Ledgers,
    count: usize,
    entries: Vec<(u32, LedgerBlock)>,
    digest: Sha256Digest,
)
    requires
        call_ensures(Ledgers::len, (ledgers,), count),
        call_ensures(Ledgers::entries, (ledgers,), entries),
        call_ensures(Ledgers::hash, (ledgers,), digest),
    ensures
        digest@ == crypto::sha256_digest(
            four_bytes(count as u32) + entries@.map_values(
                |entry: (u32, LedgerBlock)| ledger_bytes(entry),
            ).flatten(),
        ),
{
    let all = entries@;
    let items = all.map_values(|entry: (u32, LedgerBlock)| ledger_bytes(entry));
    let n = all.len() as int;
    lemma_items(all, ledgers@, n);
    assert(items.take(n) =~= items);
    let low = (if n == 0 {
        0
    } else {
        all[n - 1].0 + 1
    }) as nat;
    ledger::lemma_gap_between(all, ledgers@, n, low, ledger::id_count());
    lemma_four_bytes(count as u32);
    items.lemma_flatten_and_flatten_alt_are_equivalent();
}

/// The listing of a ledger store is in ascending order, and holds a block for an
/// ID exactly if looking the ID up gives that block.
pub proof fn law_listing_is_what_can_be_looked_up(
    ledgers: &Ledgers,
    entries: Vec<(u32, LedgerBlock)>,
    ledger_id: u32,
    found: Option<&LedgerBlock>,
)
    requires
        call_ensures(Ledgers::entries, (ledgers,), entries),
        call_ensures(Ledgers::get, (ledgers, &ledger_id), found),
    ensures
        forall|i: int, j: int|
            0 <= i < j < entries@.len() ==> (#[trigger] entries@[i]).0 < (#[trigger] entries@[j]).0,
        forall|block: LedgerBlock|
            found == Some(&block) <==> #[trigger] entries@.contains((ledger_id, block)),
{
    assert forall|block: LedgerBlock|
        found == Some(&block) <==> #[trigger] entries@.contains((ledger_id, block)) by {
        if entries@.contains((ledger_id, block)) {
            let i = choose|i: int|
                0 <= i < entries@.len() && entries@[i] == (ledger_id, block);
            assert(ledgers@.contains_key(entries@[i].0));
        }
    }
}

/// What was set last for an ID is what looking it up gives; other IDs are not
/// affected.
pub proof fn law_setting_a_block(
    ledgers: &mut Ledgers,
    set_id: u32,
    block: LedgerBlock,
    ledger_id: u32,
    earlier: &Ledgers,
    before: Option<&LedgerBlock>,
    later: &Ledgers,
    after: Option<&LedgerBlock>,
)
    requires
        call_ensures(Ledgers::insert, (ledgers, set_id, block), ()),
        earlier@ == old(ledgers)@,
        call_ensures(Ledgers::get, (earlier, &ledger_id), before),
        later@ == final(ledgers)@,
        call_ensures(Ledgers::get, (later, &ledger_id), after),
    ensures
        ledger_id == set_id ==> after == Some(&block),
        ledger_id != set_id ==> after == before,
{
}

/// Whether there is a ledger is whether looking it up gives a block.
pub proof fn law_contained_ledgers_can_be_looked_up(
    ledgers: &Ledgers,
    ledger_id: u32,
    contained: bool,
    found: Option<&LedgerBlock>,
)
    requires
        call_ensures(Ledgers::contains_key, (ledgers, &ledger_id), contained),
        call_ensures(Ledgers::get, (ledgers, &ledger_id), found),
    ensures
        contained <==> found is Some,
{
}

/// There are as many ledgers as are listed.
pub proof fn law_listing_is_complete(
    ledgers: &Ledgers,
    count: usize,
    entries: Vec<(u32, LedgerBlock)>,
)
    requires
        call_ensures(Ledgers::len, (ledgers,), count),
        call_ensures(Ledgers::entries, (ledgers,), entries),
    ensures
        count == entries@.len(),
{
    let ids = entries@.map_values(|entry: (u32, LedgerBlock)| entry.0);
    assert(ids.no_duplicates());
    ids.unique_seq_to_set();
    assert forall|id: u32| ids.to_set().contains(id) <==> ledgers@.dom().contains(id) by {
        if ids.contains(id) {
            let i = choose|i: int| 0 <= i < ids.len() && ids[i] == id;
            assert(ledgers@.contains_key(entries@[i].0));
        }
        if ledgers@.contains_key(id) {
            let i = choose|i: int|
                0 <= i < entries@.len() && entries@[i] == (id, ledgers@[id]);
            assert(ids[i] == id);
        }
    }
    assert(ids.to_set() =~= ledgers@.dom());
}

/// Of blocks with the same ledger ID, the last one is kept.
pub proof fn law_last_block_is_kept(
    entries: &[(u32, LedgerBlock)],
    ledgers: Ledgers,
    ledger_id: u32,
    found: Option<&LedgerBlock>,
)
    requires
        call_ensures(Ledgers::from_entries, (entries,), ledgers),
        call_ensures(Ledgers::get, (&ledgers, &ledger_id), found),
    ensures
        found is None ==> forall|i: int|
            0 <= i < entries@.len() ==> (#[trigger] entries@[i]).0 != ledger_id,
        found is Some ==> exists|i: int|
            #[trigger] is_last_for(entries@, ledger_id, i) && *found->Some_0 == entries@[i].1,
{
    lemma_from_pairs(entries@, ledger_id);
}

/// Whether an entry is the last one for a ledger.
pub open spec fn is_last_for(
    entries: Seq<(u32, LedgerBlock)>,
    ledger_id: u32,
    i: int,
) -> bool {
    &&& 0 <= i < entries.len()
    &&& entries[i].0 == ledger_id
    &&& forall|j: int| i < j < entries.len() ==> (#[trigger] entries[j]).0 != ledger_id
}

/// What is kept of entries for a ledger is the last one for it.
pub proof fn lemma_from_pairs(entries: Seq<(u32, LedgerBlock)>, ledger_id: u32)
    ensures
        !ledger::from_pairs(entries).contains_key(ledger_id) ==> forall|i: int|
            0 <= i < entries.len() ==> (#[trigger] entries[i]).0 != ledger_id,
        ledger::from_pairs(entries).contains_key(ledger_id) ==> exists|i: int|
            #[trigger] is_last_for(entries, ledger_id, i) && ledger::from_pairs(
                entries,
            )[ledger_id] == entries[i].1,
    decreases entries.len(),
{
    if entries.len() > 0 {
        let earlier = entries.drop_last();
        let last = entries.len() - 1;
        let pairs = ledger::from_pairs(entries);
        assert(pairs == ledger::from_pairs(earlier).insert(entries[last].0, entries[last].1));
        lemma_from_pairs(earlier, ledger_id);
        if entries[last].0 == ledger_id {
            assert(is_last_for(entries, ledger_id, last));
        } else if pairs.contains_key(ledger_id) {
            let i = choose|i: int|
                #[trigger] is_last_for(earlier, ledger_id, i) && ledger::from_pairs(
                    earlier,
                )[ledger_id] == earlier[i].1;
            assert forall|j: int| i < j < entries.len() implies (#[trigger] entries[j]).0
                != ledger_id by {
                if j < last {
                    assert(earlier[j] == entries[j]);
                }
            }
            assert(entries[i] == earlier[i]);
            assert(is_last_for(entries, ledger_id, i));
        } else {
            assert forall|j: int| 0 <= j < entries.len() implies (#[trigger] entries[j]).0
                != ledger_id by {
                if j < last {
                    assert(earlier[j] == entries[j]);
                }
            }
        }
    }
}

// ---------------------------------------------------------------------------
// Numbers
// ---------------------------------------------------------------------------

/// The first eight bytes of a digest are those of the number that is read.
pub proof fn law_number_is_read_from_its_bytes(digest: &[u8; 32], n: u64)
    requires
        call_ensures(bytes::read_be8, (digest,), n),
    ensures
        eight_bytes(n) == digest@.take(8),
{
    lemma_eight_bytes_of_value(digest@.take(8), n);
}

proof fn lemma_eight_bytes_of_value(digits: Seq<u8>, n: u64)
    requires
        digits.len() == 8,
        n == bytes::be_value(digits),
    ensures
        eight_bytes(n) == digits,
{
    lemma_be_bytes_of_value(digits);
    lemma_eight_bytes(n);
}

proof fn lemma_be_bytes_of_value(digits: Seq<u8>)
    ensures
        bytes::be_bytes(bytes::be_value(digits), digits.len()) == digits,
    decreases digits.len(),
{
    if digits.len() > 0 {
        lemma_be_bytes_of_value(digits.drop_last());
        let rest = bytes::be_value(digits.drop_last());
        let n = bytes::be_value(digits);
        assert(n == rest * 256 + digits.last());
        assert(n / 256 == rest && n % 256 == digits.last());
        assert(digits.drop_last().push(digits.last()) =~= digits);
    } else {
        assert(digits =~= Seq::empty());
    }
}

/// An endorser's alias is the number in the first eight bytes of the digest of
/// its key.
pub proof fn law_alias_begins_the_digest_of_the_key<S: Phase>(
    endorser: &Endorser<S>,
    alias: u64,
)
    requires
        call_ensures(Endorser::<S>::alias, (endorser,), alias),
    ensures
        crypto::sha256_digest(endorser.key()).len() == 32 ==> eight_bytes(alias)
            == crypto::sha256_digest(endorser.key()).take(8),
{
    let digest = crypto::sha256_digest(endorser.key());
    if digest.len() == 32 {
        lemma_eight_bytes_of_value(digest.take(8), alias);
    }
}

/// The number that a decimal text expresses.
pub open spec fn decimal_value(text: Seq<char>) -> int
    decreases text.len(),
{
    if text.len() == 0 {
        0
    } else {
        decimal_value(text.drop_last()) * 10 + (text.last() as int - '0' as int)
    }
}

/// Whether a text consists of decimal digits, and begins with zero only if it is
/// zero.
pub open spec fn is_decimal(text: Seq<char>) -> bool {
    &&& text.len() > 0
    &&& forall|i: int| 0 <= i < text.len() ==> '0' <= #[trigger] text[i] <= '9'
    &&& text.len() > 1 ==> text[0] != '0'
}

proof fn lemma_decimal(n: nat)
    ensures
        is_decimal(bytes::decimal(n)),
        decimal_value(bytes::decimal(n)) == n,
        n > 0 ==> bytes::decimal(n)[0] != '0',
    decreases n,
{
    let text = bytes::decimal(n);
    reveal_with_fuel(decimal_value, 2);
    if n < 10 {
        assert(text.drop_last() =~= Seq::empty());
    } else {
        lemma_decimal(n / 10);
        assert(text.drop_last() =~= bytes::decimal(n / 10));
    }
}

/// A number is written as the decimal text that expresses it.
pub proof fn law_number_is_written_in_decimal(out: &mut String, n: u64)
    requires
        call_ensures(bytes::push_decimal, (out, n), ()),
    ensures
        final(out)@.take(old(out)@.len() as int) == old(out)@,
        is_decimal(final(out)@.skip(old(out)@.len() as int)),
        decimal_value(final(out)@.skip(old(out)@.len() as int)) == n,
{
    lemma_decimal(n as nat);
    let text = bytes::decimal(n as nat);
    assert(final(out)@.skip(old(out)@.len() as int) =~= text);
}

// ---------------------------------------------------------------------------
// Keys and signatures
// ---------------------------------------------------------------------------

/// A key verifies every signature that its signing key makes, and its encoding
/// is read back as the same key.
pub proof fn law_signatures_verify(
    signing_key: &SigningKey,
    message: &[u8],
    signature: Signature,
    key: VerifyingKey,
    valid: bool,
    encoding: [u8; 65],
    bytes: &[u8],
    decoded: Result<VerifyingKey, SignatureError>,
)
    requires
        call_ensures(SigningKey::sign, (signing_key, message), signature),
        call_ensures(SigningKey::verifying_key, (signing_key,), key),
        call_ensures(VerifyingKey::verify, (&key, message, &signature), valid),
        call_ensures(VerifyingKey::to_sec1_bytes, (&key,), encoding),
        bytes@ == encoding@,
        call_ensures(VerifyingKey::from_sec1_bytes, (bytes,), decoded),
    ensures
        valid,
        decoded is Ok,
        decoded->Ok_0@ == key@,
{
}

/// The bytes of a signature are read back as the same signature.
pub proof fn law_signature_bytes_are_read_back(
    signature: &Signature,
    encoding: Vec<u8>,
    bytes: &[u8],
    decoded: Result<Signature, SignatureError>,
)
    requires
        call_ensures(Signature::to_vec, (signature,), encoding),
        bytes@ == encoding@,
        call_ensures(Signature::from_slice, (bytes,), decoded),
    ensures
        decoded is Ok,
        decoded->Ok_0@ == signature@,
{
}

/// Two keys are the same exactly if their encodings are.
pub proof fn law_same_keys_have_the_same_bytes(
    a: &VerifyingKey,
    b: &VerifyingKey,
    same: bool,
    bytes_a: [u8; 65],
    bytes_b: [u8; 65],
)
    requires
        call_ensures(VerifyingKey::same_as, (a, b), same),
        call_ensures(VerifyingKey::to_sec1_bytes, (a,), bytes_a),
        call_ensures(VerifyingKey::to_sec1_bytes, (b,), bytes_b),
    ensures
        same <==> forall|i: int| 0 <= i < 65 ==> bytes_a@[i] == bytes_b@[i],
{
    if forall|i: int| 0 <= i < 65 ==> bytes_a@[i] == bytes_b@[i] {
        assert(bytes_a@ =~= bytes_b@);
    }
}

} // verus!
