//! The data model: plain-value layouts of the transactions the core
//! coordinates, and the queued record derived from them.

use vstd::prelude::*;

verus! {

/// A 160-bit account identity, modeled by a machine integer.
pub type Address = u64;

/// A content-derived transaction hash, modeled by a machine integer.  Two
/// transactions with different content have different hashes, so a hash is
/// the sole key used for pool indexing and removal.
pub type TxHash = u64;

/// The raw private payload exchanged between the validators of a private
/// group.  The core never looks inside it; it is carried through admission
/// and handed back on extraction.
pub struct PrivateTransaction {
    /// Encrypted code and data to be executed off-chain.
    pub encrypted: Vec<u8>,
    /// Address of the contract governing the private group.
    pub contract: Address,
}

/// The outcome of the external verification pipeline: a transaction whose
/// signature has been checked, with its recoverable fields laid out as plain
/// values.  `sender` and `hash` are recovered from the signature and the
/// content by the pipeline, before a record enters this core.
#[derive(Clone, Copy, Debug, PartialEq, Eq, Structural)]
pub struct SignedTransaction {
    /// Per-sender sequence number; defines execution order.
    pub nonce: u64,
    /// Fee offered per unit of gas; the replacement and eviction score.
    pub gas_price: u64,
    /// Account that signed the transaction.
    pub sender: Address,
    /// Hash of the full transaction content.
    pub hash: TxHash,
}

/// Descriptor for a private transaction queued for verification: the
/// original private payload, an optional validator-account override, the
/// verified signed transaction, and caches of that transaction's hash and
/// sender.
///
/// The caches are computed once at construction and never recomputed; they
/// are the sole keys used for pool indexing and removal.
pub struct VerifiedPrivateTransaction {
    /// Original private transaction.
    pub private_transaction: PrivateTransaction,
    /// Address that should be used for verification.
    pub validator_account: Option<Address>,
    /// The verified signed transaction.
    pub transaction: SignedTransaction,
    /// Cache of the transaction's hash.
    pub transaction_hash: TxHash,
    /// Cache of the transaction's sender.
    pub transaction_sender: Address,
}

impl VerifiedPrivateTransaction {
    /// The cached keys agree with the transaction they were derived from.
    pub open spec fn wf(self) -> bool {
        &&& self.transaction_hash == self.transaction.hash
        &&& self.transaction_sender == self.transaction.sender
    }

    /// Wraps a verified transaction, deriving the hash and sender caches
    /// once.
    pub fn new(
        private_transaction: PrivateTransaction,
        validator_account: Option<Address>,
        transaction: SignedTransaction,
    ) -> (r: Self)
        ensures
            r.wf(),
            r.private_transaction == private_transaction,
            r.validator_account == validator_account,
            r.transaction == transaction,
    {
        VerifiedPrivateTransaction {
            private_transaction,
            validator_account,
            transaction_hash: transaction.hash,
            transaction_sender: transaction.sender,
            transaction,
        }
    }

    /// The cached transaction hash, the key under which the record is
    /// indexed.
    pub fn hash(&self) -> (h: TxHash)
        ensures
            h == self.transaction_hash,
    {
        self.transaction_hash
    }

    /// The cached transaction sender.
    pub fn sender(&self) -> (s: Address)
        ensures
            s == self.transaction_sender,
    {
        self.transaction_sender
    }
}

} // verus!
