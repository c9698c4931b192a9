//! Failure kinds surfaced by the core, for a single transaction or
//! signature at a time.

use vstd::prelude::*;

verus! {

/// Failures surfaced by the verification queue and the signing ledger.
///
/// Every failure concerns a single transaction or signature and is returned
/// synchronously to the caller; nothing is retried internally and nothing is
/// dropped silently.
#[derive(Clone, Copy, Debug, PartialEq, Eq, Structural)]
pub enum Error {
    /// The signing ledger already holds the maximum number of entries.
    QueueIsFull,
    /// A signature was submitted against a transaction hash the signing
    /// ledger does not know.
    PrivateTransactionNotFound,
    /// The verification pool already holds a record with this hash.  A
    /// record's hash is derived from the full transaction content, so an
    /// equal hash means the same transaction is already queued.
    AlreadyImported,
    /// A record at the same `(sender, nonce)` slot is already queued and the
    /// incoming record's fee does not clear the replacement threshold.
    TooCheapToReplace,
    /// The sender already has the maximum number of queued records, and the
    /// incoming record does not displace any of them.
    SenderIsFull,
    /// The pool already holds the maximum total number of records, and the
    /// incoming record does not displace any of them.
    PoolIsFull,
}

} // verus!
