//! Ledger receipts, as a verifier receives them.
//!
//! These types wrap endorser signatures alongside the ledger block they
//! cover, indexed by the endorser's position in the cohort configuration.

use core::ops::Deref;
use vstd::prelude::*;

use crate::keys::Signature;
use crate::ledger::LedgerBlock;

verus! {

/// A single endorser's signed receipt for a ledger operation.
///
/// The endorser is identified by its positional index in the cohort
/// configuration, which gives constant-time key lookup during verification and
/// lets uniqueness be checked without hash tables.
#[derive(Debug, Clone, Copy)]
pub struct LedgerReceipt {
    /// Index of the endorser's key within the cohort configuration.
    pub key_index: usize,
    /// The ledger block this receipt covers.
    pub block: LedgerBlock,
    /// ECDSA P-256 signature over the receipt message.
    pub signature: Signature,
}

impl Deref for LedgerReceipt {
    type Target = LedgerBlock;

    fn deref(&self) -> (block: &LedgerBlock)
        ensures
            *block == self.block,
    {
        &self.block
    }
}

/// A collection of endorser receipts for a ledger operation.
///
/// **Note:** This type does not validate key index uniqueness or bounds.
/// Those checks are performed by the verifier, which knows the cohort
/// configuration.
pub struct LedgerReceipts {
    receipts: Vec<LedgerReceipt>,
}

impl View for LedgerReceipts {
    type V = Seq<LedgerReceipt>;

    closed spec fn view(&self) -> Seq<LedgerReceipt> {
        self.receipts@
    }
}

impl LedgerReceipts {
    /// Creates a new `LedgerReceipts`.
    ///
    /// No validation is performed here; key index uniqueness and bounds
    /// are checked at verification time.
    pub fn new(receipts: Vec<LedgerReceipt>) -> (collection: Self)
        ensures
            collection@ == receipts@,
    {
        LedgerReceipts { receipts }
    }
}

impl Deref for LedgerReceipts {
    type Target = [LedgerReceipt];

    fn deref(&self) -> (receipts: &[LedgerReceipt])
        ensures
            receipts@ == self@,
    {
        self.receipts.as_slice()
    }
}

} // verus!
