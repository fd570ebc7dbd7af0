//! LogCabin: append-only ledgers kept by a cohort of endorsers, and the
//! receipts by which a client checks them.
//!
//! An endorser signs a receipt for each operation it performs. A client that
//! holds the verifying keys of a cohort accepts a ledger block only when a
//! strict majority of the cohort signed it. A cohort can hand its ledgers over
//! to another cohort, which a client follows by checking the finalization
//! receipts of the one and the activation receipts of the other.

pub mod bytes;
pub mod challenge;
pub mod challenge_laws;
pub mod cohort;
pub mod consistency;
pub mod crypto;
pub mod driving_laws;
pub mod encoding_laws;
pub mod endorser;
pub mod endorser_laws;
pub mod handover;
pub mod history;
pub mod honest;
pub mod keys;
pub mod ledger;
pub mod ledger_receipts;
pub mod messages;
pub mod parsing_laws;
pub mod proto_mapping;
pub mod quorum;
pub mod quorum_laws;
pub mod receipts;
pub mod recovery_laws;
pub mod service;
pub mod service_laws;
pub mod status;
pub mod takeover;
pub mod util;
pub mod verification;
pub mod wording_laws;
