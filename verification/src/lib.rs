//! Admission and coordination core for private transactions: a bounded,
//! priority-ordered verification queue that holds private transactions
//! pending nonce-based readiness, and a signing ledger that tracks
//! per-transaction execution state and accumulates validator signatures.
//!
//! The queue owns admission (`add_transaction`) and extraction (`drain`);
//! the ledger is populated after a record is drained and executed, and
//! accumulates signatures until a quorum decision is made externally.

pub mod error;
pub mod pool;
pub mod ready;
pub mod record;
pub mod scoring;
pub mod signing;
pub mod store;

use vstd::prelude::*;

verus! {

/// Maximum length of the private transaction queues: the verification
/// pool's total ceiling, a tenth of it per sender, and the signing ledger's
/// entry ceiling.
pub const MAX_QUEUE_LEN: usize = 8312;

} // verus!
