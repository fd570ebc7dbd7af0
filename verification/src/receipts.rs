//! Receipt messages.
//!
//! Each function constructs the byte message that is signed by an endorser
//! to produce a receipt. The verifier reconstructs the same message to
//! verify the signature.
//!
//! An append produces an *entry receipt*, which states for good that an entry
//! is at a position of the hash chain, and an *append receipt*, which is bound
//! to the client's nonce. A read produces an entry receipt and a *read
//! receipt*, bound to the nonce likewise. The prefixes differ, so that no
//! receipt can stand for another.

use vstd::prelude::*;

use crate::bytes;
use crate::cohort::ConfigId;
use crate::keys::Sha256Digest;
use crate::ledger::{EntryContents, LedgerBlock};

verus! {

/// `"activate" || instance_id (32 bytes)`
pub open spec fn activate_new_message(instance_id: Seq<u8>) -> Seq<u8> {
    bytes::ascii("activate"@) + instance_id
}

/// `"activate" || instance_id (32 bytes) || prev_config_id (32 bytes) ||
///  new_config_id (32 bytes) || ledgers_hash (32 bytes)`
pub open spec fn activate_from_prev_message(
    instance_id: Seq<u8>,
    prev_config_id: Seq<u8>,
    new_config_id: Seq<u8>,
    ledgers_hash: Seq<u8>,
) -> Seq<u8> {
    bytes::ascii("activate"@) + instance_id + prev_config_id + new_config_id + ledgers_hash
}

/// `"create_ledger" || instance_id (32 bytes) || ledger_id (4 bytes, BE)`
pub open spec fn create_ledger_message(instance_id: Seq<u8>, ledger_id: u32) -> Seq<u8> {
    bytes::ascii("create_ledger"@) + instance_id + bytes::be4(ledger_id)
}

/// The part that the three kinds of block receipts have in common:
/// `instance_id (32 bytes) || ledger_id (4 bytes, BE) || entry (32 bytes) ||
///  index (8 bytes, BE) || hash_chain_tail (32 bytes)`
pub open spec fn block_fields(
    instance_id: Seq<u8>,
    ledger_id: u32,
    block: LedgerBlock,
) -> Seq<u8> {
    instance_id + bytes::be4(ledger_id) + block.entry@ + bytes::be8(block.index)
        + block.hash_chain_tail@
}

/// `"entry" || block fields`
pub open spec fn entry_message(
    instance_id: Seq<u8>,
    ledger_id: u32,
    block: LedgerBlock,
) -> Seq<u8> {
    bytes::ascii("entry"@) + block_fields(instance_id, ledger_id, block)
}

/// `"append_entry" || block fields || nonce (8 bytes, BE)`
pub open spec fn append_message(
    instance_id: Seq<u8>,
    ledger_id: u32,
    block: LedgerBlock,
    nonce: u64,
) -> Seq<u8> {
    bytes::ascii("append_entry"@) + block_fields(instance_id, ledger_id, block) + bytes::be8(nonce)
}

/// `"read_latest" || block fields || nonce (8 bytes, BE)`
pub open spec fn read_message(
    instance_id: Seq<u8>,
    ledger_id: u32,
    block: LedgerBlock,
    nonce: u64,
) -> Seq<u8> {
    bytes::ascii("read_latest"@) + block_fields(instance_id, ledger_id, block) + bytes::be8(nonce)
}

/// `"finalize" || instance_id (32 bytes) || cohort_config_id (32 bytes) ||
///  next_cohort_config_id (32 bytes) || ledgers_hash (32 bytes)`
pub open spec fn finalize_message(
    instance_id: Seq<u8>,
    cohort_config_id: Seq<u8>,
    next_cohort_config_id: Seq<u8>,
    ledgers_hash: Seq<u8>,
) -> Seq<u8> {
    bytes::ascii("finalize"@) + instance_id + cohort_config_id + next_cohort_config_id
        + ledgers_hash
}

/// What a receipt states. Its signer signs the encoding.
#[verifier::ext_equal]
pub enum Receipt {
    /// The endorser started an instance.
    ActivateNew { instance_id: Seq<u8> },
    /// The endorser took an instance over from a previous cohort.
    ActivateFromPrev {
        instance_id: Seq<u8>,
        prev_config_id: Seq<u8>,
        new_config_id: Seq<u8>,
        ledgers_hash: Seq<u8>,
    },
    /// The endorser created a ledger.
    CreateLedger { instance_id: Seq<u8>, ledger_id: u32 },
    /// The block is part of the ledger.
    Entry { instance_id: Seq<u8>, ledger_id: u32, block: LedgerBlock },
    /// An append for the nonce gave the block.
    Append { instance_id: Seq<u8>, ledger_id: u32, block: LedgerBlock, nonce: u64 },
    /// A read for the nonce gave the block.
    Read { instance_id: Seq<u8>, ledger_id: u32, block: LedgerBlock, nonce: u64 },
    /// The endorser finalized in favour of the next cohort.
    Finalize {
        instance_id: Seq<u8>,
        cohort_config_id: Seq<u8>,
        next_cohort_config_id: Seq<u8>,
        ledgers_hash: Seq<u8>,
    },
}

impl Receipt {
    /// The message that is signed.
    pub open spec fn encoding(self) -> Seq<u8> {
        match self {
            Receipt::ActivateNew { instance_id } => activate_new_message(instance_id),
            Receipt::ActivateFromPrev {
                instance_id,
                prev_config_id,
                new_config_id,
                ledgers_hash,
            } => activate_from_prev_message(
                instance_id,
                prev_config_id,
                new_config_id,
                ledgers_hash,
            ),
            Receipt::CreateLedger { instance_id, ledger_id } => create_ledger_message(
                instance_id,
                ledger_id,
            ),
            Receipt::Entry { instance_id, ledger_id, block } => entry_message(
                instance_id,
                ledger_id,
                block,
            ),
            Receipt::Append { instance_id, ledger_id, block, nonce } => append_message(
                instance_id,
                ledger_id,
                block,
                nonce,
            ),
            Receipt::Read { instance_id, ledger_id, block, nonce } => read_message(
                instance_id,
                ledger_id,
                block,
                nonce,
            ),
            Receipt::Finalize {
                instance_id,
                cohort_config_id,
                next_cohort_config_id,
                ledgers_hash,
            } => finalize_message(
                instance_id,
                cohort_config_id,
                next_cohort_config_id,
                ledgers_hash,
            ),
        }
    }

    /// Whether the IDs and hashes have the size of a digest.
    pub open spec fn well_sized(self) -> bool {
        match self {
            Receipt::ActivateNew { instance_id } => instance_id.len() == 32,
            Receipt::ActivateFromPrev {
                instance_id,
                prev_config_id,
                new_config_id,
                ledgers_hash,
            } => instance_id.len() == 32 && prev_config_id.len() == 32 && new_config_id.len()
                == 32 && ledgers_hash.len() == 32,
            Receipt::CreateLedger { instance_id, .. } => instance_id.len() == 32,
            Receipt::Entry { instance_id, .. } => instance_id.len() == 32,
            Receipt::Append { instance_id, .. } => instance_id.len() == 32,
            Receipt::Read { instance_id, .. } => instance_id.len() == 32,
            Receipt::Finalize {
                instance_id,
                cohort_config_id,
                next_cohort_config_id,
                ledgers_hash,
            } => instance_id.len() == 32 && cohort_config_id.len() == 32
                && next_cohort_config_id.len() == 32 && ledgers_hash.len() == 32,
        }
    }
}

/// The prefixes, byte by byte.
proof fn lemma_prefixes()
    ensures
        bytes::ascii("activate"@).len() == 8,
        bytes::ascii("activate"@)[0] == 97,
        bytes::ascii("create_ledger"@).len() == 13,
        bytes::ascii("entry"@).len() == 5,
        bytes::ascii("append_entry"@).len() == 12,
        bytes::ascii("read_latest"@).len() == 11,
        bytes::ascii("finalize"@).len() == 8,
        bytes::ascii("finalize"@)[0] == 102,
{
    reveal_strlit("activate");
    reveal_strlit("create_ledger");
    reveal_strlit("entry");
    reveal_strlit("append_entry");
    reveal_strlit("read_latest");
    reveal_strlit("finalize");
}

/// The fields that the block receipts have in common can be read back.
proof fn lemma_block_fields(
    instance_a: Seq<u8>,
    ledger_a: u32,
    block_a: LedgerBlock,
    instance_b: Seq<u8>,
    ledger_b: u32,
    block_b: LedgerBlock,
)
    requires
        instance_a.len() == 32,
        instance_b.len() == 32,
        block_fields(instance_a, ledger_a, block_a) == block_fields(instance_b, ledger_b, block_b),
    ensures
        instance_a == instance_b,
        ledger_a == ledger_b,
        block_a == block_b,
{
    let fields = block_fields(instance_a, ledger_a, block_a);
    bytes::lemma_be4(ledger_a);
    bytes::lemma_be4(ledger_b);
    bytes::lemma_be8(block_a.index);
    bytes::lemma_be8(block_b.index);
    assert(fields.subrange(0, 32) =~= instance_a);
    assert(fields.subrange(0, 32) =~= instance_b);
    assert(fields.subrange(32, 36) =~= bytes::be4(ledger_a));
    assert(fields.subrange(32, 36) =~= bytes::be4(ledger_b));
    assert(fields.subrange(36, 68) =~= block_a.entry@);
    assert(fields.subrange(36, 68) =~= block_b.entry@);
    assert(fields.subrange(68, 76) =~= bytes::be8(block_a.index));
    assert(fields.subrange(68, 76) =~= bytes::be8(block_b.index));
    assert(fields.subrange(76, 108) =~= block_a.hash_chain_tail@);
    assert(fields.subrange(76, 108) =~= block_b.hash_chain_tail@);
    block_a.lemma_ext(block_b);
}

/// The length of the fields that the block receipts have in common.
proof fn lemma_block_fields_len(instance_id: Seq<u8>, ledger_id: u32, block: LedgerBlock)
    ensures
        block_fields(instance_id, ledger_id, block).len() == instance_id.len() + 76,
{
    bytes::lemma_be4(ledger_id);
    bytes::lemma_be8(block.index);
}

/// The length of an encoding tells most kinds of receipts apart.
proof fn lemma_encoding_len(receipt: Receipt)
    requires
        receipt.well_sized(),
    ensures
        receipt.encoding().len() == match receipt {
            Receipt::ActivateNew { .. } => 40int,
            Receipt::ActivateFromPrev { .. } => 136,
            Receipt::CreateLedger { .. } => 49,
            Receipt::Entry { .. } => 113,
            Receipt::Append { .. } => 128,
            Receipt::Read { .. } => 127,
            Receipt::Finalize { .. } => 136,
        },
        receipt is ActivateFromPrev ==> receipt.encoding()[0] == 97,
        receipt is Finalize ==> receipt.encoding()[0] == 102,
{
    lemma_prefixes();
    match receipt {
        Receipt::CreateLedger { ledger_id, .. } => {
            bytes::lemma_be4(ledger_id);
        },
        Receipt::Entry { instance_id, ledger_id, block } => {
            lemma_block_fields_len(instance_id, ledger_id, block);
        },
        Receipt::Append { instance_id, ledger_id, block, nonce } => {
            lemma_block_fields_len(instance_id, ledger_id, block);
            bytes::lemma_be8(nonce);
        },
        Receipt::Read { instance_id, ledger_id, block, nonce } => {
            lemma_block_fields_len(instance_id, ledger_id, block);
            bytes::lemma_be8(nonce);
        },
        _ => {},
    }
}

/// A message that is a prefix, four digests and nothing else can be read back.
proof fn lemma_four_digests(
    prefix: Seq<u8>,
    a: Seq<u8>,
    b: Seq<u8>,
    c: Seq<u8>,
    d: Seq<u8>,
    a2: Seq<u8>,
    b2: Seq<u8>,
    c2: Seq<u8>,
    d2: Seq<u8>,
)
    requires
        a.len() == 32,
        b.len() == 32,
        c.len() == 32,
        d.len() == 32,
        a2.len() == 32,
        b2.len() == 32,
        c2.len() == 32,
        d2.len() == 32,
        prefix + a + b + c + d == prefix + a2 + b2 + c2 + d2,
    ensures
        a == a2,
        b == b2,
        c == c2,
        d == d2,
{
    let message = prefix + a + b + c + d;
    let n = prefix.len() as int;
    assert(message.subrange(n, n + 32) =~= a);
    assert(message.subrange(n, n + 32) =~= a2);
    assert(message.subrange(n + 32, n + 64) =~= b);
    assert(message.subrange(n + 32, n + 64) =~= b2);
    assert(message.subrange(n + 64, n + 96) =~= c);
    assert(message.subrange(n + 64, n + 96) =~= c2);
    assert(message.subrange(n + 96, n + 128) =~= d);
    assert(message.subrange(n + 96, n + 128) =~= d2);
}

/// A message that is a prefix, block fields and a nonce can be read back.
proof fn lemma_nonce_bound(
    prefix: Seq<u8>,
    fields_a: Seq<u8>,
    nonce_a: u64,
    fields_b: Seq<u8>,
    nonce_b: u64,
)
    requires
        fields_a.len() == fields_b.len(),
        prefix + fields_a + bytes::be8(nonce_a) == prefix + fields_b + bytes::be8(nonce_b),
    ensures
        fields_a == fields_b,
        nonce_a == nonce_b,
{
    let message = prefix + fields_a + bytes::be8(nonce_a);
    let n = prefix.len() as int;
    let m = n + fields_a.len();
    bytes::lemma_be8(nonce_a);
    bytes::lemma_be8(nonce_b);
    assert(message.subrange(n, m) =~= fields_a);
    assert(message.subrange(n, m) =~= fields_b);
    assert(message.subrange(m, m + 8) =~= bytes::be8(nonce_a));
    assert(message.subrange(m, m + 8) =~= bytes::be8(nonce_b));
}

/// A signature is of one receipt only: two receipts with the same encoding are
/// of the same kind and state the same. In particular a receipt for a read is
/// never one for an append, and a receipt for one nonce is never one for
/// another.
pub proof fn law_encoding_is_injective(first: Receipt, second: Receipt)
    requires
        first.well_sized(),
        second.well_sized(),
        first.encoding() == second.encoding(),
    ensures
        first == second,
{
    lemma_encoding_len(first);
    lemma_encoding_len(second);
    let message = first.encoding();
    match (first, second) {
        (Receipt::ActivateNew { instance_id: a }, Receipt::ActivateNew { instance_id: b }) => {
            let n = bytes::ascii("activate"@).len() as int;
            assert(message.subrange(n, n + 32) =~= a);
            assert(message.subrange(n, n + 32) =~= b);
        },
        (
            Receipt::ActivateFromPrev {
                instance_id: a,
                prev_config_id: b,
                new_config_id: c,
                ledgers_hash: d,
            },
            Receipt::ActivateFromPrev {
                instance_id: a2,
                prev_config_id: b2,
                new_config_id: c2,
                ledgers_hash: d2,
            },
        ) => {
            lemma_four_digests(bytes::ascii("activate"@), a, b, c, d, a2, b2, c2, d2);
        },
        (
            Receipt::CreateLedger { instance_id: a, ledger_id: b },
            Receipt::CreateLedger { instance_id: a2, ledger_id: b2 },
        ) => {
            let n = bytes::ascii("create_ledger"@).len() as int;
            bytes::lemma_be4(b);
            bytes::lemma_be4(b2);
            assert(message.subrange(n, n + 32) =~= a);
            assert(message.subrange(n, n + 32) =~= a2);
            assert(message.subrange(n + 32, n + 36) =~= bytes::be4(b));
            assert(message.subrange(n + 32, n + 36) =~= bytes::be4(b2));
        },
        (
            Receipt::Entry { instance_id: a, ledger_id: b, block: c },
            Receipt::Entry { instance_id: a2, ledger_id: b2, block: c2 },
        ) => {
            let n = bytes::ascii("entry"@).len() as int;
            lemma_block_fields_len(a, b, c);
            lemma_block_fields_len(a2, b2, c2);
            assert(message.subrange(n, n + 108) =~= block_fields(a, b, c));
            assert(message.subrange(n, n + 108) =~= block_fields(a2, b2, c2));
            lemma_block_fields(a, b, c, a2, b2, c2);
        },
        (
            Receipt::Append { instance_id: a, ledger_id: b, block: c, nonce: d },
            Receipt::Append { instance_id: a2, ledger_id: b2, block: c2, nonce: d2 },
        ) => {
            lemma_block_fields_len(a, b, c);
            lemma_block_fields_len(a2, b2, c2);
            lemma_nonce_bound(
                bytes::ascii("append_entry"@),
                block_fields(a, b, c),
                d,
                block_fields(a2, b2, c2),
                d2,
            );
            lemma_block_fields(a, b, c, a2, b2, c2);
        },
        (
            Receipt::Read { instance_id: a, ledger_id: b, block: c, nonce: d },
            Receipt::Read { instance_id: a2, ledger_id: b2, block: c2, nonce: d2 },
        ) => {
            lemma_block_fields_len(a, b, c);
            lemma_block_fields_len(a2, b2, c2);
            lemma_nonce_bound(
                bytes::ascii("read_latest"@),
                block_fields(a, b, c),
                d,
                block_fields(a2, b2, c2),
                d2,
            );
            lemma_block_fields(a, b, c, a2, b2, c2);
        },
        (
            Receipt::Finalize {
                instance_id: a,
                cohort_config_id: b,
                next_cohort_config_id: c,
                ledgers_hash: d,
            },
            Receipt::Finalize {
                instance_id: a2,
                cohort_config_id: b2,
                next_cohort_config_id: c2,
                ledgers_hash: d2,
            },
        ) => {
            lemma_four_digests(bytes::ascii("finalize"@), a, b, c, d, a2, b2, c2, d2);
        },
        _ => {},
    }
}

/// The block with these fields.
pub open spec fn block_of(
    entry: EntryContents,
    index: u64,
    hash_chain_tail: Sha256Digest,
) -> LedgerBlock {
    LedgerBlock { entry, index, hash_chain_tail }
}

/// Builds the activation receipt message for a new instance.
///
/// Format: `"activate" || instance_id (32 bytes)`
pub fn build_activate_new_instance_message(instance_id: &ConfigId) -> (message: Vec<u8>)
    ensures
        message@ == activate_new_message(instance_id@),
{
    proof {
        reveal_strlit("activate");
    }
    let mut message: Vec<u8> = Vec::new();
    bytes::push_ascii(&mut message, "activate");
    bytes::push_bytes(&mut message, instance_id.as_slice());
    assert(message@ =~= activate_new_message(instance_id@));
    message
}

/// Builds the activation receipt message for activation from a previous cohort.
///
/// Format:
///   `"activate" || instance_id (32 bytes) || prev_config_id (32 bytes) ||
///    new_config_id (32 bytes) || ledgers_hash (32 bytes)`
///
/// `ledgers_hash` is a SHA-256 hash of the serialized endorser ledger state
pub fn build_activate_from_prev_message(
    instance_id: &ConfigId,
    prev_config_id: &ConfigId,
    new_config_id: &ConfigId,
    ledgers_hash: &Sha256Digest,
) -> (message: Vec<u8>)
    ensures
        message@ == activate_from_prev_message(
            instance_id@,
            prev_config_id@,
            new_config_id@,
            ledgers_hash@,
        ),
{
    proof {
        reveal_strlit("activate");
    }
    let mut message: Vec<u8> = Vec::new();
    bytes::push_ascii(&mut message, "activate");
    bytes::push_bytes(&mut message, instance_id.as_slice());
    bytes::push_bytes(&mut message, prev_config_id.as_slice());
    bytes::push_bytes(&mut message, new_config_id.as_slice());
    bytes::push_bytes(&mut message, ledgers_hash.as_slice());
    assert(message@ =~= activate_from_prev_message(
        instance_id@,
        prev_config_id@,
        new_config_id@,
        ledgers_hash@,
    ));
    message
}

/// Builds the create-ledger receipt message.
///
/// Format: `"create_ledger" || instance_id (32 bytes) || ledger_id (4 bytes, BE)`
pub fn build_create_ledger_message(instance_id: &ConfigId, ledger_id: u32) -> (message: Vec<u8>)
    ensures
        message@ == create_ledger_message(instance_id@, ledger_id),
{
    proof {
        reveal_strlit("create_ledger");
    }
    let mut message: Vec<u8> = Vec::new();
    bytes::push_ascii(&mut message, "create_ledger");
    bytes::push_bytes(&mut message, instance_id.as_slice());
    bytes::push_be4(&mut message, ledger_id);
    assert(message@ =~= create_ledger_message(instance_id@, ledger_id));
    message
}

/// Appends the fields that the block receipts have in common.
fn push_block_fields(
    message: &mut Vec<u8>,
    instance_id: &ConfigId,
    ledger_id: u32,
    entry: &EntryContents,
    index: u64,
    hash_chain_tail: &Sha256Digest,
)
    ensures
        final(message)@ == old(message)@ + block_fields(
            instance_id@,
            ledger_id,
            block_of(*entry, index, *hash_chain_tail),
        ),
{
    bytes::push_bytes(message, instance_id.as_slice());
    bytes::push_be4(message, ledger_id);
    bytes::push_bytes(message, entry.as_slice());
    bytes::push_be8(message, index);
    bytes::push_bytes(message, hash_chain_tail.as_slice());
    assert(message@ =~= old(message)@ + block_fields(
        instance_id@,
        ledger_id,
        block_of(*entry, index, *hash_chain_tail),
    ));
}

/// Builds the entry receipt message.
///
/// Format:
///   `"entry" || instance_id (32 bytes) || ledger_id (4 bytes, BE) ||
///    entry (32 bytes) || index (8 bytes, BE) || hash_chain_tail (32 bytes)`
pub fn build_entry_receipt_message(
    instance_id: &ConfigId,
    ledger_id: u32,
    entry: &EntryContents,
    index: u64,
    hash_chain_tail: &Sha256Digest,
) -> (message: Vec<u8>)
    ensures
        message@ == entry_message(
            instance_id@,
            ledger_id,
            block_of(*entry, index, *hash_chain_tail),
        ),
{
    proof {
        reveal_strlit("entry");
    }
    let mut message: Vec<u8> = Vec::new();
    bytes::push_ascii(&mut message, "entry");
    push_block_fields(&mut message, instance_id, ledger_id, entry, index, hash_chain_tail);
    assert(message@ =~= entry_message(
        instance_id@,
        ledger_id,
        block_of(*entry, index, *hash_chain_tail),
    ));
    message
}

/// Builds the append-entry receipt message.
///
/// Format:
///   `"append_entry" || instance_id (32 bytes) || ledger_id (4 bytes, BE) ||
///    entry (32 bytes) || index (8 bytes, BE) || hash_chain_tail (32 bytes) ||
///    nonce (8 bytes, BE)`
pub fn build_append_entry_message(
    instance_id: &ConfigId,
    ledger_id: u32,
    entry: &EntryContents,
    index: u64,
    hash_chain_tail: &Sha256Digest,
    nonce: u64,
) -> (message: Vec<u8>)
    ensures
        message@ == append_message(
            instance_id@,
            ledger_id,
            block_of(*entry, index, *hash_chain_tail),
            nonce,
        ),
{
    proof {
        reveal_strlit("append_entry");
    }
    let mut message: Vec<u8> = Vec::new();
    bytes::push_ascii(&mut message, "append_entry");
    push_block_fields(&mut message, instance_id, ledger_id, entry, index, hash_chain_tail);
    bytes::push_be8(&mut message, nonce);
    assert(message@ =~= append_message(
        instance_id@,
        ledger_id,
        block_of(*entry, index, *hash_chain_tail),
        nonce,
    ));
    message
}

/// Builds the read-latest receipt message.
///
/// Format:
///   `"read_latest" || instance_id (32 bytes) || ledger_id (4 bytes, BE) ||
///    entry (32 bytes) || index (8 bytes, BE) || hash_chain_tail (32 bytes) ||
///    nonce (8 bytes, BE)`
pub fn build_read_latest_message(
    instance_id: &ConfigId,
    ledger_id: u32,
    entry: &EntryContents,
    index: u64,
    hash_chain_tail: &Sha256Digest,
    nonce: u64,
) -> (message: Vec<u8>)
    ensures
        message@ == read_message(
            instance_id@,
            ledger_id,
            block_of(*entry, index, *hash_chain_tail),
            nonce,
        ),
{
    proof {
        reveal_strlit("read_latest");
    }
    let mut message: Vec<u8> = Vec::new();
    bytes::push_ascii(&mut message, "read_latest");
    push_block_fields(&mut message, instance_id, ledger_id, entry, index, hash_chain_tail);
    bytes::push_be8(&mut message, nonce);
    assert(message@ =~= read_message(
        instance_id@,
        ledger_id,
        block_of(*entry, index, *hash_chain_tail),
        nonce,
    ));
    message
}

/// Builds the finalize receipt message.
///
/// Format:
///   `"finalize" || instance_id (32 bytes) || cohort_config_id (32 bytes) ||
///    next_cohort_config_id (32 bytes) || ledgers_hash (32 bytes)`
pub fn build_finalize_message(
    instance_id: &ConfigId,
    cohort_config_id: &ConfigId,
    next_cohort_config_id: &ConfigId,
    ledgers_hash: &Sha256Digest,
) -> (message: Vec<u8>)
    ensures
        message@ == finalize_message(
            instance_id@,
            cohort_config_id@,
            next_cohort_config_id@,
            ledgers_hash@,
        ),
{
    proof {
        reveal_strlit("finalize");
    }
    let mut message: Vec<u8> = Vec::new();
    bytes::push_ascii(&mut message, "finalize");
    bytes::push_bytes(&mut message, instance_id.as_slice());
    bytes::push_bytes(&mut message, cohort_config_id.as_slice());
    bytes::push_bytes(&mut message, next_cohort_config_id.as_slice());
    bytes::push_bytes(&mut message, ledgers_hash.as_slice());
    assert(message@ =~= finalize_message(
        instance_id@,
        cohort_config_id@,
        next_cohort_config_id@,
        ledgers_hash@,
    ));
    message
}

} // verus!
