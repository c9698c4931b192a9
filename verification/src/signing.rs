//! The signing ledger: per-transaction execution state and accumulated
//! validator signatures, deduplicated by value.

use vstd::prelude::*;
use crate::error::Error;
use crate::record::{Address, SignedTransaction, TxHash};
use crate::MAX_QUEUE_LEN;

verus! {

/// A validator's signature over an execution result: the two response
/// values and the recovery byte, laid out as plain values.  Signatures are
/// compared by value; the ledger stores each distinct signature once.
#[derive(Clone, Copy, Debug, PartialEq, Eq, Structural)]
pub struct Signature {
    /// First response value.
    pub r: u64,
    /// Second response value.
    pub s: u64,
    /// Recovery byte.
    pub v: u8,
}

/// Descriptor for a private transaction stored for signing: the original
/// transaction, the quorum roster, the signatures received so far, the
/// post-execution state snapshot, and the contract's execution-round
/// counter.  Roster, snapshot and counter are fixed at creation; only the
/// signature list grows.
pub struct PrivateTransactionSigningDesc {
    /// Original signed transaction.
    pub original_transaction: SignedTransaction,
    /// Supposed validators from the contract: the quorum roster.
    pub validators: Vec<Address>,
    /// Already obtained signatures, each distinct value stored once.
    pub received_signatures: Vec<Signature>,
    /// State after transaction execution, to compare with what the
    /// validators report.
    pub state: Vec<u8>,
    /// Built-in nonce of the contract: the execution-round counter.
    pub contract_nonce: u64,
}

/// No signature is stored twice.
pub open spec fn sigs_unique(sigs: Seq<Signature>) -> bool {
    forall|i: int, j: int| 0 <= i < j < sigs.len() ==> sigs[i] != sigs[j]
}

/// What adding a signature leaves behind: the list unchanged when the value
/// is already stored, else the list with the value appended.
pub open spec fn add_sig(sigs: Seq<Signature>, s: Signature) -> Seq<Signature> {
    if sigs.contains(s) {
        sigs
    } else {
        sigs.push(s)
    }
}

/// Law: adding a signature is idempotent.  Submitting an identical
/// signature twice leaves the stored list exactly as one submission left
/// it.
pub proof fn lemma_add_signature_idempotent(sigs: Seq<Signature>, s: Signature)
    ensures
        add_sig(add_sig(sigs, s), s) == add_sig(sigs, s),
{
    if !sigs.contains(s) {
        assert(sigs.push(s)[sigs.len() as int] == s);
        assert(sigs.push(s).contains(s));
    }
}

/// Law: on a deduplicated list, adding a signature stores it, and exactly
/// one copy of every value remains stored.
pub proof fn lemma_add_signature_one_copy(sigs: Seq<Signature>, s: Signature)
    requires
        sigs_unique(sigs),
    ensures
        add_sig(sigs, s).contains(s),
        sigs_unique(add_sig(sigs, s)),
{
    if !sigs.contains(s) {
        assert(sigs.push(s)[sigs.len() as int] == s);
        assert(sigs.push(s).contains(s));
        assert forall|i: int, j: int| 0 <= i < j < sigs.push(s).len() implies sigs.push(s)[i]
            != sigs.push(s)[j] by {
            if j == sigs.len() {
                if sigs[i] == s {
                    assert(sigs.contains(s));
                }
            }
        }
    }
}

/// The index of the ledger entry with this hash, or -1.
pub open spec fn key_index(
    s: Seq<(TxHash, PrivateTransactionSigningDesc)>,
    h: TxHash,
) -> int
    decreases s.len(),
{
    if s.len() == 0 {
        -1
    } else if s.last().0 == h {
        s.len() - 1
    } else {
        key_index(s.drop_last(), h)
    }
}

/// Each hash keys at most one ledger entry.
pub open spec fn keys_unique(s: Seq<(TxHash, PrivateTransactionSigningDesc)>) -> bool {
    forall|i: int, j: int| 0 <= i < j < s.len() ==> (#[trigger] s[i]).0 != (#[trigger] s[j]).0
}

proof fn lemma_key_index_props(s: Seq<(TxHash, PrivateTransactionSigningDesc)>, h: TxHash)
    ensures
        key_index(s, h) == -1 ==> forall|k: int| 0 <= k < s.len() ==> (#[trigger] s[k]).0 != h,
        key_index(s, h) != -1 ==> 0 <= key_index(s, h) < s.len() && s[key_index(s, h)].0 == h,
    decreases s.len(),
{
    if s.len() > 0 && s.last().0 != h {
        lemma_key_index_props(s.drop_last(), h);
        let p = key_index(s.drop_last(), h);
        if p == -1 {
            assert forall|k: int| 0 <= k < s.len() implies (#[trigger] s[k]).0 != h by {
                if k < s.len() - 1 {
                    assert(s.drop_last()[k] == s[k]);
                }
            }
        } else {
            assert(s.drop_last()[p] == s[p]);
        }
    }
}

proof fn lemma_key_index_update(
    s: Seq<(TxHash, PrivateTransactionSigningDesc)>,
    i: int,
    e: (TxHash, PrivateTransactionSigningDesc),
    h: TxHash,
)
    requires
        0 <= i < s.len(),
        e.0 == s[i].0,
    ensures
        key_index(s.update(i, e), h) == key_index(s, h),
    decreases s.len(),
{
    if i == s.len() - 1 {
        assert(s.update(i, e).drop_last() =~= s.drop_last());
    } else {
        assert(s.update(i, e).drop_last() =~= s.drop_last().update(i, e));
        lemma_key_index_update(s.drop_last(), i, e, h);
    }
}

proof fn lemma_key_index_remove(
    s: Seq<(TxHash, PrivateTransactionSigningDesc)>,
    i: int,
    h: TxHash,
)
    requires
        0 <= i < s.len(),
        keys_unique(s),
        s[i].0 != h,
    ensures
        key_index(s.remove(i), h) != -1 <==> key_index(s, h) != -1,
        key_index(s.remove(i), h) != -1 ==> s.remove(i)[key_index(s.remove(i), h)] == s[key_index(
            s,
            h,
        )],
{
    s.remove_ensures(i);
    lemma_key_index_props(s, h);
    lemma_key_index_props(s.remove(i), h);
    let sr = s.remove(i);
    if key_index(s, h) != -1 {
        let m = key_index(s, h);
        let k = if m < i {
            m
        } else {
            m - 1
        };
        assert(sr[k] == s[m]);
        if key_index(sr, h) == -1 {
            assert(sr[k].0 != h);
        }
        let n = key_index(sr, h);
        let n0 = if n < i {
            n
        } else {
            n + 1
        };
        assert(sr[n] == s[n0]);
        assert(s[n0].0 == h);
        if n0 != m {
            if n0 < m {
                assert(s[n0].0 != s[m].0);
            } else {
                assert(s[m].0 != s[n0].0);
            }
        }
    } else {
        if key_index(sr, h) != -1 {
            let n = key_index(sr, h);
            let n0 = if n < i {
                n
            } else {
                n + 1
            };
            assert(sr[n] == s[n0]);
            assert(s[n0].0 != h);
        }
    }
}

/// Copies a vector of plain values.
fn copy_vec<T: Copy>(v: &Vec<T>) -> (r: Vec<T>)
    ensures
        r@ == v@,
{
    let mut r: Vec<T> = Vec::new();
    let len = v.len();
    let mut i: usize = 0;
    while i < len
        invariant
            0 <= i <= len,
            len == v@.len(),
            r@ == v@.take(i as int),
        decreases len - i,
    {
        r.push(v[i]);
        proof {
            assert(v@.take(i + 1).drop_last() =~= v@.take(i as int));
            assert(v@.take(i + 1) =~= v@.take(i as int).push(v@[i as int]));
        }
        i = i + 1;
    }
    proof {
        assert(v@.take(len as int) =~= v@);
    }
    r
}

/// Tests whether this signature value is already stored.
fn contains_signature(sigs: &Vec<Signature>, sig: Signature) -> (b: bool)
    ensures
        b == sigs@.contains(sig),
{
    let len = sigs.len();
    let mut i: usize = 0;
    while i < len
        invariant
            0 <= i <= len,
            len == sigs@.len(),
            forall|k: int| 0 <= k < i ==> sigs@[k] != sig,
        decreases len - i,
    {
        if sigs[i].r == sig.r && sigs[i].s == sig.s && sigs[i].v == sig.v {
            assert(sigs@[i as int] == sig);
            return true;
        }
        i = i + 1;
    }
    proof {
        if sigs@.contains(sig) {
            let k = choose|k: int| 0 <= k < sigs@.len() && sigs@[k] == sig;
            assert(sigs@[k] != sig);
        }
    }
    false
}

impl Clone for PrivateTransactionSigningDesc {
    /// An exact copy, field for field.
    fn clone(&self) -> (r: Self)
        ensures
            r.original_transaction == self.original_transaction,
            r.validators@ == self.validators@,
            r.received_signatures@ == self.received_signatures@,
            r.state@ == self.state@,
            r.contract_nonce == self.contract_nonce,
    {
        PrivateTransactionSigningDesc {
            original_transaction: self.original_transaction,
            validators: copy_vec(&self.validators),
            received_signatures: copy_vec(&self.received_signatures),
            state: copy_vec(&self.state),
            contract_nonce: self.contract_nonce,
        }
    }
}

/// Finds the ledger entry with this hash: the index the spec function
/// `key_index` points at.
fn find_key(
    entries: &Vec<(TxHash, PrivateTransactionSigningDesc)>,
    h: TxHash,
) -> (r: Option<usize>)
    ensures
        match r {
            Some(i) => i < entries@.len() && key_index(entries@, h) == i as int,
            None => key_index(entries@, h) == -1,
        },
{
    let len = entries.len();
    let mut found: Option<usize> = None;
    let mut k: usize = 0;
    while k < len
        invariant
            0 <= k <= len,
            len == entries@.len(),
            match found {
                Some(i) => i < k && key_index(entries@.take(k as int), h) == i as int,
                None => key_index(entries@.take(k as int), h) == -1,
            },
        decreases len - k,
    {
        proof {
            assert(entries@.take(k + 1).drop_last() =~= entries@.take(k as int));
            assert(entries@.take(k + 1).last() == entries@[k as int]);
        }
        if entries[k].0 == h {
            found = Some(k);
        }
        k = k + 1;
    }
    proof {
        assert(entries@.take(len as int) =~= entries@);
    }
    found
}

/// Storage for private transactions awaiting validator signatures: a
/// mapping from transaction hash to signing descriptor, bounded by the
/// queues' shared entry ceiling, without a per-sender sub-limit.
///
/// The ledger does not check that a submitted signature's signer belongs to
/// the descriptor's validator roster: that authorization check is the
/// caller's responsibility.
pub struct SigningStore {
    /// Transactions and descriptors for signing.
    transactions: Vec<(TxHash, PrivateTransactionSigningDesc)>,
}

impl SigningStore {
    /// The ledger's entries, keyed by transaction hash.
    pub closed spec fn entries(self) -> Seq<(TxHash, PrivateTransactionSigningDesc)> {
        self.transactions@
    }

    /// Hashes key at most one entry each, and no entry stores a signature
    /// twice.
    pub open spec fn wf(self) -> bool {
        &&& keys_unique(self.entries())
        &&& forall|k: int|
            0 <= k < self.entries().len() ==> sigs_unique(
                (#[trigger] self.entries()[k]).1.received_signatures@,
            )
    }

    /// Whether the ledger holds an entry for this hash.
    pub open spec fn spec_contains(self, h: TxHash) -> bool {
        key_index(self.entries(), h) != -1
    }

    /// The descriptor stored for this hash.
    pub open spec fn spec_desc(self, h: TxHash) -> PrivateTransactionSigningDesc {
        self.entries()[key_index(self.entries(), h)].1
    }

    /// How many entries the ledger holds.
    pub open spec fn spec_len(self) -> int {
        self.entries().len() as int
    }

    /// How many entries the ledger holds.
    pub fn len(&self) -> (n: usize)
        ensures
            n == self.spec_len(),
    {
        self.transactions.len()
    }
}

impl SigningStore {
    /// Registers a private transaction for signing.  A ledger already at
    /// the entry ceiling refuses with `QueueIsFull` and drops nothing; an
    /// entry already present at this hash is overwritten whole, with no
    /// merge of previously received signatures.
    pub fn add_transaction(
        &mut self,
        private_hash: TxHash,
        transaction: SignedTransaction,
        validators: Vec<Address>,
        state: Vec<u8>,
        contract_nonce: u64,
    ) -> (r: Result<(), Error>)
        requires
            old(self).wf(),
        ensures
            final(self).wf(),
            old(self).spec_len() >= MAX_QUEUE_LEN ==> r == Err::<(), Error>(Error::QueueIsFull)
                && final(self).entries() == old(self).entries(),
            old(self).spec_len() < MAX_QUEUE_LEN ==> {
                &&& r == Ok::<(), Error>(())
                &&& final(self).spec_contains(private_hash)
                &&& final(self).spec_desc(private_hash).original_transaction == transaction
                &&& final(self).spec_desc(private_hash).validators@ == validators@
                &&& final(self).spec_desc(private_hash).received_signatures@ =~= Seq::<
                    Signature,
                >::empty()
                &&& final(self).spec_desc(private_hash).state@ == state@
                &&& final(self).spec_desc(private_hash).contract_nonce == contract_nonce
                &&& final(self).spec_len() == old(self).spec_len() + (if old(self).spec_contains(
                    private_hash,
                ) {
                    0int
                } else {
                    1int
                })
            },
            // entries at other hashes are never dropped or disturbed
            forall|h: TxHash|
                h != private_hash ==> #[trigger] final(self).spec_contains(h) == old(
                    self,
                ).spec_contains(h) && (old(self).spec_contains(h) ==> final(self).spec_desc(h)
                    == old(self).spec_desc(h)),
    {
        let ghost es = self.transactions@;
        if self.transactions.len() >= MAX_QUEUE_LEN {
            return Err(Error::QueueIsFull);
        }
        let desc = PrivateTransactionSigningDesc {
            original_transaction: transaction,
            validators,
            received_signatures: Vec::new(),
            state,
            contract_nonce,
        };
        match find_key(&self.transactions, private_hash) {
            Some(i) => {
                self.transactions.set(i, (private_hash, desc));
                proof {
                    lemma_key_index_props(es, private_hash);
                    assert forall|h: TxHash| true implies key_index(self.transactions@, h)
                        == key_index(es, h) by {
                        lemma_key_index_update(
                            es,
                            i as int,
                            (private_hash, desc),
                            h,
                        );
                    }
                    assert forall|h: TxHash| h != private_hash && key_index(es, h) != -1 implies
                        self.spec_desc(h) == old(self).spec_desc(h) by {
                        lemma_key_index_props(es, h);
                    }
                    assert forall|k: int, l: int|
                        0 <= k < l < self.transactions@.len() implies (
                    #[trigger] self.transactions@[k]).0 != (#[trigger] self.transactions@[l]).0 by {
                        assert(es[k].0 != es[l].0);
                    }
                    assert forall|k: int|
                        0 <= k < self.entries().len() implies sigs_unique(
                        (#[trigger] self.entries()[k]).1.received_signatures@,
                    ) by {
                        if k != i {
                            assert(self.entries()[k] == es[k]);
                        }
                    }
                }
                Ok(())
            },
            None => {
                proof {
                    lemma_key_index_props(es, private_hash);
                }
                self.transactions.push((private_hash, desc));
                proof {
                    assert(self.transactions@.drop_last() =~= es);
                    assert(key_index(self.transactions@, private_hash)
                        == self.transactions@.len() - 1);
                    assert forall|h: TxHash| h != private_hash implies key_index(
                        self.transactions@,
                        h,
                    ) == key_index(es, h) by {
                    }
                    assert forall|h: TxHash| h != private_hash && key_index(es, h) != -1 implies
                        self.spec_desc(h) == old(self).spec_desc(h) by {
                        lemma_key_index_props(es, h);
                    }
                    assert forall|k: int, l: int|
                        0 <= k < l < self.transactions@.len() implies (
                    #[trigger] self.transactions@[k]).0 != (#[trigger] self.transactions@[l]).0 by {
                        if l < self.transactions@.len() - 1 {
                            assert(es[k].0 != es[l].0);
                        } else {
                            assert(self.transactions@[k] == es[k]);
                        }
                    }
                    assert forall|k: int|
                        0 <= k < self.entries().len() implies sigs_unique(
                        (#[trigger] self.entries()[k]).1.received_signatures@,
                    ) by {
                        if k < self.entries().len() - 1 {
                            assert(self.entries()[k] == es[k]);
                        }
                    }
                }
                Ok(())
            },
        }
    }

    /// A copy of the descriptor stored for this hash, or nothing.  The copy
    /// is not a live view: later mutations of the ledger do not reach it.
    pub fn get(&self, private_hash: TxHash) -> (r: Option<PrivateTransactionSigningDesc>)
        ensures
            match r {
                Some(d) => self.spec_contains(private_hash) && d.original_transaction
                    == self.spec_desc(private_hash).original_transaction && d.validators@
                    == self.spec_desc(private_hash).validators@ && d.received_signatures@
                    == self.spec_desc(private_hash).received_signatures@ && d.state@
                    == self.spec_desc(private_hash).state@ && d.contract_nonce == self.spec_desc(
                    private_hash,
                ).contract_nonce,
                None => !self.spec_contains(private_hash),
            },
    {
        match find_key(&self.transactions, private_hash) {
            Some(i) => Some(self.transactions[i].1.clone()),
            None => None,
        }
    }

    /// Unregisters the hash, whether or not it was registered: removal is
    /// idempotent and always succeeds.
    pub fn remove(&mut self, private_hash: TxHash) -> (r: Result<(), Error>)
        requires
            old(self).wf(),
        ensures
            final(self).wf(),
            r == Ok::<(), Error>(()),
            !final(self).spec_contains(private_hash),
            forall|h: TxHash|
                h != private_hash ==> #[trigger] final(self).spec_contains(h) == old(
                    self,
                ).spec_contains(h) && (old(self).spec_contains(h) ==> final(self).spec_desc(h)
                    == old(self).spec_desc(h)),
            final(self).spec_len() == old(self).spec_len() - (if old(self).spec_contains(
                private_hash,
            ) {
                1int
            } else {
                0int
            }),
    {
        let ghost es = self.transactions@;
        match find_key(&self.transactions, private_hash) {
            Some(i) => {
                let _entry = self.transactions.remove(i);
                proof {
                    lemma_key_index_props(es, private_hash);
                    es.remove_ensures(i as int);
                    assert forall|k: int, l: int|
                        0 <= k < l < self.transactions@.len() implies (
                    #[trigger] self.transactions@[k]).0 != (#[trigger] self.transactions@[l]).0 by {
                        let k0 = if k < i { k } else { k + 1 };
                        let l0 = if l < i { l } else { l + 1 };
                        assert(self.transactions@[k] == es[k0]);
                        assert(self.transactions@[l] == es[l0]);
                        assert(es[k0].0 != es[l0].0);
                    }
                    assert forall|k: int|
                        0 <= k < self.entries().len() implies sigs_unique(
                        (#[trigger] self.entries()[k]).1.received_signatures@,
                    ) by {
                        let k0 = if k < i { k } else { k + 1 };
                        assert(self.entries()[k] == es[k0]);
                    }
                    // the removed entry was the only one with this hash
                    lemma_key_index_props(self.transactions@, private_hash);
                    if key_index(self.transactions@, private_hash) != -1 {
                        let n = key_index(self.transactions@, private_hash);
                        let n0 = if n < i { n } else { n + 1 };
                        assert(self.transactions@[n] == es[n0]);
                        if n0 < i {
                            assert(es[n0].0 != es[i as int].0);
                        } else {
                            assert(es[i as int].0 != es[n0].0);
                        }
                    }
                    assert forall|h: TxHash| h != private_hash implies #[trigger] self.spec_contains(
                        h,
                    ) == old(self).spec_contains(h) && (old(self).spec_contains(h)
                        ==> self.spec_desc(h) == old(self).spec_desc(h)) by {
                        lemma_key_index_remove(es, i as int, h);
                        lemma_key_index_props(es, h);
                    }
                }
                Ok(())
            },
            None => {
                proof {
                    lemma_key_index_props(es, private_hash);
                }
                Ok(())
            },
        }
    }

    /// Files a received signature under the stored private transaction.
    /// An unregistered hash is refused with `PrivateTransactionNotFound`; a
    /// signature value already stored is not stored again.  Whether the
    /// signer belongs to the descriptor's validator roster is not checked
    /// here: that is the caller's responsibility.
    pub fn add_signature(&mut self, private_hash: TxHash, signature: Signature) -> (r: Result<
        (),
        Error,
    >)
        requires
            old(self).wf(),
        ensures
            final(self).wf(),
            !old(self).spec_contains(private_hash) ==> r == Err::<(), Error>(
                Error::PrivateTransactionNotFound,
            ) && final(self).entries() == old(self).entries(),
            old(self).spec_contains(private_hash) ==> {
                &&& r == Ok::<(), Error>(())
                &&& final(self).spec_contains(private_hash)
                &&& final(self).spec_desc(private_hash).received_signatures@ == add_sig(
                    old(self).spec_desc(private_hash).received_signatures@,
                    signature,
                )
                &&& final(self).spec_desc(private_hash).original_transaction == old(
                    self,
                ).spec_desc(private_hash).original_transaction
                &&& final(self).spec_desc(private_hash).validators@ == old(self).spec_desc(
                    private_hash,
                ).validators@
                &&& final(self).spec_desc(private_hash).state@ == old(self).spec_desc(
                    private_hash,
                ).state@
                &&& final(self).spec_desc(private_hash).contract_nonce == old(self).spec_desc(
                    private_hash,
                ).contract_nonce
                &&& final(self).spec_len() == old(self).spec_len()
            },
            forall|h: TxHash|
                h != private_hash ==> #[trigger] final(self).spec_contains(h) == old(
                    self,
                ).spec_contains(h) && (old(self).spec_contains(h) ==> final(self).spec_desc(h)
                    == old(self).spec_desc(h)),
    {
        let ghost es = self.transactions@;
        match find_key(&self.transactions, private_hash) {
            None => {
                proof {
                    lemma_key_index_props(es, private_hash);
                }
                Err(Error::PrivateTransactionNotFound)
            },
            Some(i) => {
                let already = contains_signature(
                    &self.transactions[i].1.received_signatures,
                    signature,
                );
                if !already {
                    let mut desc = self.transactions[i].1.clone();
                    desc.received_signatures.push(signature);
                    self.transactions.set(i, (private_hash, desc));
                    proof {
                        lemma_key_index_props(es, private_hash);
                        assert(es[i as int].0 == private_hash);
                        assert forall|h: TxHash| true implies key_index(self.transactions@, h)
                            == key_index(es, h) by {
                            lemma_key_index_update(
                                es,
                                i as int,
                                self.transactions@[i as int],
                                h,
                            );
                        }
                        assert forall|h: TxHash| h != private_hash && key_index(es, h)
                            != -1 implies self.spec_desc(h) == old(self).spec_desc(h) by {
                            lemma_key_index_props(es, h);
                        }
                        assert forall|k: int, l: int|
                            0 <= k < l < self.transactions@.len() implies (
                        #[trigger] self.transactions@[k]).0 != (
                        #[trigger] self.transactions@[l]).0 by {
                            assert(es[k].0 != es[l].0);
                        }
                        assert(self.spec_desc(private_hash).received_signatures@ =~= add_sig(
                            old(self).spec_desc(private_hash).received_signatures@,
                            signature,
                        ));
                        lemma_add_signature_one_copy(
                            old(self).spec_desc(private_hash).received_signatures@,
                            signature,
                        );
                        assert forall|k: int|
                            0 <= k < self.entries().len() implies sigs_unique(
                            (#[trigger] self.entries()[k]).1.received_signatures@,
                        ) by {
                            if k != i {
                                assert(self.entries()[k] == es[k]);
                            }
                        }
                    }
                } else {
                    proof {
                        lemma_key_index_props(es, private_hash);
                        assert(self.spec_desc(private_hash).received_signatures@ == add_sig(
                            old(self).spec_desc(private_hash).received_signatures@,
                            signature,
                        ));
                    }
                }
                Ok(())
            },
        }
    }
}

impl Default for SigningStore {
    /// An empty ledger.
    fn default() -> (s: Self)
        ensures
            s.wf(),
            s.spec_len() == 0,
            forall|h: TxHash| !s.spec_contains(h),
    {
        SigningStore { transactions: Vec::new() }
    }
}

} // verus!
