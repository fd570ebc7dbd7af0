//! Ledger blocks, the store of ledgers, and receipt messages.

use logcabin::ledger::{LedgerBlock, Ledgers};
use logcabin::receipts;
use sha2::{Digest, Sha256};

fn block(entry: u8, index: u64, tail: u8) -> LedgerBlock {
    LedgerBlock { entry: [entry; 32], index, hash_chain_tail: [tail; 32] }
}

fn joined(parts: &[&[u8]]) -> Vec<u8> {
    parts.concat()
}

#[test]
fn a_new_ledger_is_empty() {
    assert_eq!(LedgerBlock::initial(), block(0, 0, 0));
}

#[test]
fn the_next_block_commits_to_the_one_before() {
    let first = block(3, 4, 5);
    let next = first.next([6; 32]);
    let expected: [u8; 32] = Sha256::digest(joined(&[&[5; 32], &[3; 32]])).into();
    assert_eq!(next.entry, [6; 32]);
    assert_eq!(next.index, 5);
    assert_eq!(next.hash_chain_tail, expected);
}

#[test]
fn the_index_counts_the_appends() {
    let mut latest = LedgerBlock::initial();
    for n in 1..=20u64 {
        latest = latest.next([n as u8; 32]);
        assert_eq!(latest.index, n);
    }
}

#[test]
fn the_tail_tells_different_pasts_apart() {
    let a = LedgerBlock::initial().next([1; 32]).next([9; 32]).next([9; 32]);
    let b = LedgerBlock::initial().next([2; 32]).next([9; 32]).next([9; 32]);
    assert_eq!((a.entry, a.index), (b.entry, b.index));
    assert_ne!(a.hash_chain_tail, b.hash_chain_tail);
}

#[test]
fn blocks_are_compared_field_by_field() {
    assert!(block(1, 2, 3).same_as(&block(1, 2, 3)));
    assert!(!block(1, 2, 3).same_as(&block(9, 2, 3)));
    assert!(!block(1, 2, 3).same_as(&block(1, 9, 3)));
    assert!(!block(1, 2, 3).same_as(&block(1, 2, 9)));
}

#[test]
fn the_hash_covers_the_ledgers_in_ascending_order() {
    let mut ledgers = Ledgers::new();
    let empty: [u8; 32] = Sha256::digest([0, 0, 0, 0]).into();
    assert_eq!(ledgers.hash(), empty);

    ledgers.insert(0x0A0B_0C0D, block(1, 2, 3));
    ledgers.insert(5, block(4, 0x1112_1314_1516_1718, 6));
    let expected: [u8; 32] = Sha256::digest(joined(&[
        &[0, 0, 0, 2],
        &[0, 0, 0, 5],
        &[4; 32],
        &[0x11, 0x12, 0x13, 0x14, 0x15, 0x16, 0x17, 0x18],
        &[6; 32],
        &[0x0A, 0x0B, 0x0C, 0x0D],
        &[1; 32],
        &[0, 0, 0, 0, 0, 0, 0, 2],
        &[3; 32],
    ]))
    .into();
    assert_eq!(ledgers.hash(), expected);
}

#[test]
fn different_stores_have_different_hashes() {
    let stores = [
        Ledgers::new(),
        Ledgers::from_entries(&[(0, block(0, 0, 0))]),
        Ledgers::from_entries(&[(1, block(0, 0, 0))]),
        Ledgers::from_entries(&[(0, block(1, 0, 0))]),
        Ledgers::from_entries(&[(0, block(0, 1, 0))]),
        Ledgers::from_entries(&[(0, block(0, 0, 1))]),
        Ledgers::from_entries(&[(0, block(0, 0, 0)), (1, block(0, 0, 0))]),
    ];
    for i in 0..stores.len() {
        for j in 0..stores.len() {
            assert_eq!(stores[i].hash() == stores[j].hash(), i == j);
        }
    }
}

#[test]
fn the_store_keeps_the_latest_block_of_each_ledger() {
    let mut ledgers = Ledgers::new();
    assert_eq!(ledgers.len(), 0);
    assert!(ledgers.get(&3).is_none());
    ledgers.insert(3, block(1, 1, 1));
    ledgers.insert(3, block(2, 2, 2));
    ledgers.insert(1, block(4, 4, 4));
    assert_eq!(ledgers.len(), 2);
    assert!(ledgers.contains_key(&3));
    assert!(!ledgers.contains_key(&2));
    assert_eq!(ledgers.get(&3), Some(&block(2, 2, 2)));
    assert_eq!(ledgers.entries(), [(1, block(4, 4, 4)), (3, block(2, 2, 2))]);
}

#[test]
fn listed_ledgers_rebuild_the_store() {
    let ledgers = Ledgers::from_entries(&[
        (9, block(1, 1, 1)),
        (2, block(2, 2, 2)),
        (9, block(3, 3, 3)),
    ]);
    let rebuilt = Ledgers::from_entries(&ledgers.entries());
    assert_eq!(rebuilt.entries(), [(2, block(2, 2, 2)), (9, block(3, 3, 3))]);
    assert_eq!(rebuilt.hash(), ledgers.hash());
    assert_eq!(ledgers.clone().entries(), ledgers.entries());
}

#[test]
fn receipt_messages_are_laid_out_as_documented() {
    let id = [0xA1; 32];
    assert_eq!(
        receipts::build_activate_new_instance_message(&id),
        joined(&[b"activate", &id])
    );
    assert_eq!(
        receipts::build_activate_from_prev_message(&id, &[2; 32], &[3; 32], &[4; 32]),
        joined(&[b"activate", &id, &[2; 32], &[3; 32], &[4; 32]])
    );
    assert_eq!(
        receipts::build_create_ledger_message(&id, 0x0102_0304),
        joined(&[b"create_ledger", &id, &[1, 2, 3, 4]])
    );
    let ledger = [1, 2, 3, 4];
    let index = [0x11, 0x12, 0x13, 0x14, 0x15, 0x16, 0x17, 0x18];
    let nonce = [0x21, 0x22, 0x23, 0x24, 0x25, 0x26, 0x27, 0x28];
    assert_eq!(
        receipts::build_entry_receipt_message(
            &id,
            0x0102_0304,
            &[5; 32],
            0x1112_1314_1516_1718,
            &[6; 32]
        ),
        joined(&[b"entry", &id, &ledger, &[5; 32], &index, &[6; 32]])
    );
    assert_eq!(
        receipts::build_append_entry_message(
            &id,
            0x0102_0304,
            &[5; 32],
            0x1112_1314_1516_1718,
            &[6; 32],
            0x2122_2324_2526_2728
        ),
        joined(&[b"append_entry", &id, &ledger, &[5; 32], &index, &[6; 32], &nonce])
    );
    assert_eq!(
        receipts::build_read_latest_message(
            &id,
            0x0102_0304,
            &[5; 32],
            0x1112_1314_1516_1718,
            &[6; 32],
            0x2122_2324_2526_2728
        ),
        joined(&[b"read_latest", &id, &ledger, &[5; 32], &index, &[6; 32], &nonce])
    );
    assert_eq!(
        receipts::build_finalize_message(&id, &[2; 32], &[3; 32], &[4; 32]),
        joined(&[b"finalize", &id, &[2; 32], &[3; 32], &[4; 32]])
    );
}

#[test]
fn receipt_messages_of_different_receipts_differ() {
    let id = [7; 32];
    let messages = [
        receipts::build_activate_new_instance_message(&id),
        receipts::build_activate_from_prev_message(&id, &id, &id, &id),
        receipts::build_create_ledger_message(&id, 7),
        receipts::build_entry_receipt_message(&id, 7, &id, 7, &id),
        receipts::build_entry_receipt_message(&id, 7, &id, 8, &id),
        receipts::build_append_entry_message(&id, 7, &id, 7, &id, 7),
        receipts::build_append_entry_message(&id, 7, &id, 7, &id, 8),
        receipts::build_read_latest_message(&id, 7, &id, 7, &id, 7),
        receipts::build_finalize_message(&id, &id, &id, &id),
    ];
    for i in 0..messages.len() {
        for j in 0..i {
            assert_ne!(messages[i], messages[j]);
        }
    }
}
