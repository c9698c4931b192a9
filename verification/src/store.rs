//! The verification store: the bounded pool behind a reader/writer
//! lock, and the fixed policy for the external verification pipeline.

use vstd::prelude::*;
use vstd::rwlock::{RwLock, RwLockPredicate};
use crate::error::Error;
use crate::pool::{Options, Pool};
use crate::ready::NonceClient;
use crate::record::{Address, PrivateTransaction, SignedTransaction, VerifiedPrivateTransaction};
use crate::scoring::PrivateScorying;
use crate::MAX_QUEUE_LEN;

verus! {

/// The policy handed to the external verification pipeline before a
/// transaction reaches the store: no minimum gas price, a fixed block gas
/// limit, and no per-transaction gas limit.  These are fixed defaults; an
/// embedding that wants other values should make them configurable.
#[derive(Clone, Copy, Debug, PartialEq, Eq, Structural)]
pub struct VerifyOptions {
    /// Least gas price the pipeline accepts.
    pub minimal_gas_price: u64,
    /// Gas ceiling of one block.
    pub block_gas_limit: u64,
    /// Gas ceiling of one transaction.
    pub tx_gas_limit: u64,
}

/// The lock predicate guarding the verification pool: whatever the lock
/// hands out is a well-formed pool under the fixed queue ceilings.
pub struct PoolPred;

impl RwLockPredicate<Pool> for PoolPred {
    open spec fn inv(self, p: Pool) -> bool {
        &&& p.wf()
        &&& p.opts().max_count == MAX_QUEUE_LEN
        &&& p.opts().max_per_sender == MAX_QUEUE_LEN / 10
    }
}

/// Storage for private transactions under verification: the bounded pool
/// behind a reader/writer lock, and the fixed policy for the external
/// verification pipeline.
///
/// Many readers may iterate pending candidates at once; writers serialize.
/// The exact admission and extraction behaviour is specified on [`Pool`];
/// this store adds the lock and keeps its invariant.
pub struct VerificationStore {
    verification_pool: RwLock<Pool, PoolPred>,
    verification_options: VerifyOptions,
}

impl VerificationStore {
    /// The verification policy this store hands to the pipeline.
    pub closed spec fn options_spec(self) -> VerifyOptions {
        self.verification_options
    }

    /// The verification policy this store hands to the pipeline.
    pub fn verification_options(&self) -> (o: VerifyOptions)
        ensures
            o == self.options_spec(),
    {
        self.verification_options
    }

    /// Queues one verified private transaction.  The external verification
    /// pipeline runs before this call, outside the store: it checks the
    /// signature against `verification_options` and lays the transaction
    /// out as plain values.  Here the hash and sender caches are derived
    /// once, and the record enters the pool under the scoring policy, whose
    /// exact verdicts are specified on [`Pool::import`].
    pub fn add_transaction(
        &self,
        transaction: SignedTransaction,
        validator_account: Option<Address>,
        private_transaction: PrivateTransaction,
    ) -> (r: Result<(), Error>)
        ensures
            match r {
                Ok(()) => true,
                Err(e) => e != Error::QueueIsFull && e != Error::PrivateTransactionNotFound,
            },
    {
        let verified = VerifiedPrivateTransaction::new(
            private_transaction,
            validator_account,
            transaction,
        );
        let (mut pool, handle) = self.verification_pool.acquire_write();
        let r = pool.import(verified);
        handle.release_write(pool);
        r
    }

    /// Drains the records ready for verification: at most one per sender,
    /// each at its sender's expected next nonce, per [`Pool::pending`].
    ///
    /// The collection pass holds the lock shared; the removal pass holds it
    /// exclusive.  The two passes are separate critical sections, not one
    /// atomic step: records imported in between are untouched, since
    /// removal is keyed by content-derived hash and a different transaction
    /// hashes differently.
    pub fn drain<C: NonceClient>(&self, client: C) -> (out: Vec<VerifiedPrivateTransaction>)
        ensures
            forall|k: int, l: int|
                0 <= k < l < out@.len() ==> out@[k].transaction_hash != out@[l].transaction_hash,
            forall|k: int| 0 <= k < out@.len() ==> (#[trigger] out@[k]).wf(),
    {
        let read_handle = self.verification_pool.acquire_read();
        let hashes = read_handle.borrow().pending(client);
        read_handle.release_read();

        let (mut pool, write_handle) = self.verification_pool.acquire_write();
        let mut out: Vec<VerifiedPrivateTransaction> = Vec::new();
        let ghost mut jdx: Seq<int> = Seq::empty();
        let len = hashes.len();
        let mut i: usize = 0;
        while i < len
            invariant
                0 <= i <= len,
                len == hashes@.len(),
                pool.wf(),
                pool.opts().max_count == MAX_QUEUE_LEN,
                pool.opts().max_per_sender == MAX_QUEUE_LEN / 10,
                forall|k: int, l: int| 0 <= k < l < hashes@.len() ==> hashes@[k] != hashes@[l],
                jdx.len() == out@.len(),
                forall|k: int|
                    0 <= k < jdx.len() ==> 0 <= #[trigger] jdx[k] < i && out@[k].transaction_hash
                        == hashes@[jdx[k]] && out@[k].wf(),
                forall|k: int, l: int| 0 <= k < l < jdx.len() ==> jdx[k] < jdx[l],
            decreases len - i,
        {
            let ghost pre = out@;
            match pool.remove(hashes[i]) {
                Some(rec) => {
                    out.push(rec);
                    proof {
                        jdx = jdx.push(i as int);
                        assert forall|k: int|
                            0 <= k < jdx.len() implies 0 <= #[trigger] jdx[k] < i + 1
                                && out@[k].transaction_hash == hashes@[jdx[k]] && out@[k].wf() by {
                            if k < pre.len() {
                                assert(jdx[k] == jdx.drop_last()[k]);
                                assert(out@[k] == pre[k]);
                            }
                        }
                    }
                },
                None => {},
            }
            i = i + 1;
        }
        write_handle.release_write(pool);
        proof {
            assert forall|k: int, l: int| 0 <= k < l < out@.len() implies out@[k].transaction_hash
                != out@[l].transaction_hash by {
                assert(jdx[k] < jdx[l]);
                assert(hashes@[jdx[k]] != hashes@[jdx[l]]);
            }
            assert forall|k: int| 0 <= k < out@.len() implies (#[trigger] out@[k]).wf() by {
                assert(0 <= jdx[k] < len);
            }
        }
        out
    }
}

impl Default for VerificationStore {
    /// An empty store: an empty pool under the fixed queue ceilings, and
    /// the fixed verification policy.
    fn default() -> (s: Self)
        ensures
            s.options_spec() == (VerifyOptions {
                minimal_gas_price: 0,
                block_gas_limit: 8_000_000,
                tx_gas_limit: u64::MAX,
            }),
    {
        let options = Options { max_count: MAX_QUEUE_LEN, max_per_sender: MAX_QUEUE_LEN / 10 };
        let pool = Pool::new(PrivateScorying, options);
        VerificationStore {
            verification_pool: RwLock::new(pool, Ghost(PoolPred)),
            verification_options: VerifyOptions {
                minimal_gas_price: 0,
                block_gas_limit: 8_000_000,
                tx_gas_limit: u64::MAX,
            },
        }
    }
}

} // verus!
