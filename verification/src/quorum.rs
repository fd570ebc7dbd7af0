//! Quorums: strict majorities of a cohort.

use vstd::prelude::*;

use crate::cohort;
use crate::cohort::EndorserData;
use crate::crypto;
use crate::keys::Signature;

verus! {

/// Whether `count` out of `total` is a strict majority.
pub open spec fn strict_majority(count: nat, total: nat) -> bool {
    2 * count > total
}

/// The size of the smallest strict majority of a cohort of this size.
pub open spec fn quorum_size(total: nat) -> nat {
    total / 2 + 1
}

/// A key of a cohort with the receipt that its holder produced, if any.
#[verifier::ext_equal]
pub struct ReceiptEntry {
    pub key: Seq<u8>,
    pub receipt: Option<Seq<u8>>,
}

impl View for EndorserData<Signature> {
    type V = ReceiptEntry;

    open spec fn view(&self) -> ReceiptEntry {
        ReceiptEntry {
            key: self.endorser_key@,
            receipt: match self.maybe_receipt {
                Some(receipt) => Some(receipt@),
                None => None,
            },
        }
    }
}

/// The views of some entries, in order.
pub open spec fn receipt_entries(entries: Seq<EndorserData<Signature>>) -> Seq<ReceiptEntry> {
    entries.map_values(|entry: EndorserData<Signature>| entry@)
}

/// The keys of some entries, in order.
pub open spec fn entry_keys(entries: Seq<ReceiptEntry>) -> Seq<Seq<u8>> {
    entries.map_values(|entry: ReceiptEntry| entry.key)
}

/// The keys are the same, taken from the entries or from their views.
pub proof fn lemma_entry_keys(entries: Seq<EndorserData<Signature>>)
    ensures
        entry_keys(receipt_entries(entries)) == cohort::keys_of(entries),
{
    assert(entry_keys(receipt_entries(entries)) =~= cohort::keys_of(entries));
}

/// Whether an entry carries a receipt that is a signature of `message` under
/// the entry's own key.
pub open spec fn holds_receipt(entry: ReceiptEntry, message: Seq<u8>) -> bool {
    entry.receipt matches Some(receipt) && crypto::ecdsa_verifies(entry.key, message, receipt)
}

/// How many entries carry a valid receipt for `message`.
pub open spec fn receipt_count(entries: Seq<ReceiptEntry>, message: Seq<u8>) -> nat
    decreases entries.len(),
{
    if entries.len() == 0 {
        0
    } else {
        receipt_count(entries.drop_last(), message) + if holds_receipt(entries.last(), message) {
            1nat
        } else {
            0nat
        }
    }
}

/// Whether a strict majority of the entries carries a valid receipt for
/// `message`.
pub open spec fn has_quorum(entries: Seq<ReceiptEntry>, message: Seq<u8>) -> bool {
    strict_majority(receipt_count(entries, message), entries.len())
}

/// Counts the entries that carry a valid receipt for `message`.
pub fn count_receipts(entries: &[EndorserData<Signature>], message: &[u8]) -> (count: usize)
    ensures
        count == receipt_count(receipt_entries(entries@), message@),
        count <= entries@.len(),
{
    let ghost all = receipt_entries(entries@);
    let mut count: usize = 0;
    let mut i: usize = 0;
    while i < entries.len()
        invariant
            i <= entries@.len(),
            all == receipt_entries(entries@),
            count == receipt_count(all.take(i as int), message@),
            count <= i,
        decreases entries@.len() - i,
    {
        let entry = &entries[i];
        let valid = match &entry.maybe_receipt {
            Some(receipt) => entry.endorser_key.verify(message, receipt),
            None => false,
        };
        proof {
            assert(all.take(i + 1).drop_last() =~= all.take(i as int));
            assert(valid == holds_receipt(all[i as int], message@));
        }
        if valid {
            count += 1;
        }
        i += 1;
    }
    assert(all.take(all.len() as int) =~= all);
    count
}

/// Whether `count` out of `total` is a strict majority.
pub fn is_strict_majority(count: usize, total: usize) -> (majority: bool)
    requires
        count <= total,
    ensures
        majority == strict_majority(count as nat, total as nat),
{
    count > total - count
}

} // verus!
