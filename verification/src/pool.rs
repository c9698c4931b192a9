//! The capacity-bounded pool under the verification queue: admission
//! under the scoring policy, readiness-gated extraction, removal by hash.

use vstd::prelude::*;
use crate::error::Error;
use crate::ready::{NonceClient, PrivateReadyState, Readiness};
use crate::record::{Address, TxHash, VerifiedPrivateTransaction};
use crate::scoring::{bump_accepted, Change, Choice, PrivateScorying};

verus! {

/// Capacity ceilings of the verification pool.
#[derive(Clone, Copy, Debug, PartialEq, Eq, Structural)]
pub struct Options {
    /// Greatest total number of queued records.
    pub max_count: usize,
    /// Greatest number of queued records per sender.
    pub max_per_sender: usize,
}

/// Two records contend for one queue slot when they agree on sender and
/// nonce.
pub open spec fn same_slot(a: VerifiedPrivateTransaction, b: VerifiedPrivateTransaction) -> bool {
    a.transaction_sender == b.transaction_sender && a.transaction.nonce == b.transaction.nonce
}

/// No two queued records contend for one slot.
pub open spec fn slot_unique(rs: Seq<VerifiedPrivateTransaction>) -> bool {
    forall|i: int, j: int| 0 <= i < j < rs.len() ==> !same_slot(#[trigger] rs[i], #[trigger] rs[j])
}

/// No two queued records carry the same content hash.
pub open spec fn hash_unique(rs: Seq<VerifiedPrivateTransaction>) -> bool {
    forall|i: int, j: int|
        0 <= i < j < rs.len() ==> (#[trigger] rs[i]).transaction_hash != (
        #[trigger] rs[j]).transaction_hash
}

/// Every queued record carries consistent key caches.
pub open spec fn all_wf(rs: Seq<VerifiedPrivateTransaction>) -> bool {
    forall|i: int| 0 <= i < rs.len() ==> (#[trigger] rs[i]).wf()
}

/// How many queued records one sender has.
pub open spec fn sender_count(rs: Seq<VerifiedPrivateTransaction>, s: Address) -> int
    decreases rs.len(),
{
    if rs.len() == 0 {
        0
    } else {
        sender_count(rs.drop_last(), s) + if rs.last().transaction_sender == s {
            1int
        } else {
            0int
        }
    }
}

/// The index of the last record contending for `t`'s slot, or -1.
pub open spec fn slot_index(rs: Seq<VerifiedPrivateTransaction>, t: VerifiedPrivateTransaction) -> int
    decreases rs.len(),
{
    if rs.len() == 0 {
        -1
    } else if same_slot(rs.last(), t) {
        rs.len() - 1
    } else {
        slot_index(rs.drop_last(), t)
    }
}

/// The index of the last record with this hash, or -1.
pub open spec fn hash_index(rs: Seq<VerifiedPrivateTransaction>, h: TxHash) -> int
    decreases rs.len(),
{
    if rs.len() == 0 {
        -1
    } else if rs.last().transaction_hash == h {
        rs.len() - 1
    } else {
        hash_index(rs.drop_last(), h)
    }
}

/// The index of the sender's record with the greatest nonce, or -1 when the
/// sender has nothing queued.
pub open spec fn sender_peak(rs: Seq<VerifiedPrivateTransaction>, s: Address) -> int
    decreases rs.len(),
{
    if rs.len() == 0 {
        -1
    } else {
        let p = sender_peak(rs.drop_last(), s);
        if rs.last().transaction_sender == s && (p == -1 || rs[p].transaction.nonce
            < rs.last().transaction.nonce) {
            rs.len() - 1
        } else {
            p
        }
    }
}

/// The index of the first record with the least score (fee), or -1 when the
/// pool is empty: the first record the pool would sacrifice for room.
pub open spec fn worst_index(rs: Seq<VerifiedPrivateTransaction>) -> int
    decreases rs.len(),
{
    if rs.len() == 0 {
        -1
    } else {
        let p = worst_index(rs.drop_last());
        if p == -1 {
            0
        } else if rs.last().transaction.gas_price < rs[p].transaction.gas_price {
            rs.len() - 1
        } else {
            p
        }
    }
}

/// A record is ready for extraction exactly when its nonce is the one the
/// chain expects next from its sender.
pub open spec fn ready_for<C: NonceClient>(r: VerifiedPrivateTransaction, client: C) -> bool {
    r.transaction.nonce == client.nonce_spec(r.transaction_sender)
}

proof fn lemma_slot_index_props(rs: Seq<VerifiedPrivateTransaction>, t: VerifiedPrivateTransaction)
    ensures
        slot_index(rs, t) == -1 ==> forall|k: int|
            0 <= k < rs.len() ==> !same_slot(#[trigger] rs[k], t),
        slot_index(rs, t) != -1 ==> 0 <= slot_index(rs, t) < rs.len() && same_slot(
            rs[slot_index(rs, t)],
            t,
        ),
    decreases rs.len(),
{
    if rs.len() > 0 && !same_slot(rs.last(), t) {
        lemma_slot_index_props(rs.drop_last(), t);
        let p = slot_index(rs.drop_last(), t);
        if p == -1 {
            assert forall|k: int| 0 <= k < rs.len() implies !same_slot(#[trigger] rs[k], t) by {
                if k < rs.len() - 1 {
                    assert(rs.drop_last()[k] == rs[k]);
                }
            }
        } else {
            assert(rs.drop_last()[p] == rs[p]);
        }
    }
}

proof fn lemma_hash_index_props(rs: Seq<VerifiedPrivateTransaction>, h: TxHash)
    ensures
        hash_index(rs, h) == -1 ==> forall|k: int|
            0 <= k < rs.len() ==> (#[trigger] rs[k]).transaction_hash != h,
        hash_index(rs, h) != -1 ==> 0 <= hash_index(rs, h) < rs.len() && rs[hash_index(
            rs,
            h,
        )].transaction_hash == h,
    decreases rs.len(),
{
    if rs.len() > 0 && rs.last().transaction_hash != h {
        lemma_hash_index_props(rs.drop_last(), h);
        let p = hash_index(rs.drop_last(), h);
        if p == -1 {
            assert forall|k: int|
                0 <= k < rs.len() implies (#[trigger] rs[k]).transaction_hash != h by {
                if k < rs.len() - 1 {
                    assert(rs.drop_last()[k] == rs[k]);
                }
            }
        } else {
            assert(rs.drop_last()[p] == rs[p]);
        }
    }
}

proof fn lemma_sender_peak_props(rs: Seq<VerifiedPrivateTransaction>, s: Address)
    ensures
        sender_peak(rs, s) == -1 ==> forall|k: int|
            0 <= k < rs.len() ==> (#[trigger] rs[k]).transaction_sender != s,
        sender_peak(rs, s) != -1 ==> 0 <= sender_peak(rs, s) < rs.len() && rs[sender_peak(
            rs,
            s,
        )].transaction_sender == s && forall|k: int|
            0 <= k < rs.len() && (#[trigger] rs[k]).transaction_sender == s ==> rs[k].transaction.nonce
                <= rs[sender_peak(rs, s)].transaction.nonce,
    decreases rs.len(),
{
    if rs.len() > 0 {
        lemma_sender_peak_props(rs.drop_last(), s);
        let p = sender_peak(rs.drop_last(), s);
        assert(forall|k: int| 0 <= k < rs.len() - 1 ==> rs.drop_last()[k] == #[trigger] rs[k]);
    }
}

proof fn lemma_worst_index_props(rs: Seq<VerifiedPrivateTransaction>)
    ensures
        rs.len() == 0 ==> worst_index(rs) == -1,
        rs.len() > 0 ==> 0 <= worst_index(rs) < rs.len() && forall|k: int|
            0 <= k < rs.len() ==> rs[worst_index(rs)].transaction.gas_price <= (
            #[trigger] rs[k]).transaction.gas_price,
    decreases rs.len(),
{
    if rs.len() > 0 {
        lemma_worst_index_props(rs.drop_last());
        assert(forall|k: int| 0 <= k < rs.len() - 1 ==> rs.drop_last()[k] == #[trigger] rs[k]);
    }
}

proof fn lemma_sender_count_push(
    rs: Seq<VerifiedPrivateTransaction>,
    t: VerifiedPrivateTransaction,
    s: Address,
)
    ensures
        sender_count(rs.push(t), s) == sender_count(rs, s) + if t.transaction_sender == s {
            1int
        } else {
            0int
        },
{
    assert(rs.push(t).drop_last() =~= rs);
}

proof fn lemma_sender_count_remove(rs: Seq<VerifiedPrivateTransaction>, i: int, s: Address)
    requires
        0 <= i < rs.len(),
    ensures
        sender_count(rs.remove(i), s) == sender_count(rs, s) - if rs[i].transaction_sender == s {
            1int
        } else {
            0int
        },
    decreases rs.len(),
{
    if i == rs.len() - 1 {
        assert(rs.remove(i) =~= rs.drop_last());
    } else {
        assert(rs.remove(i).drop_last() =~= rs.drop_last().remove(i));
        assert(rs.remove(i).last() == rs.last());
        lemma_sender_count_remove(rs.drop_last(), i, s);
    }
}

proof fn lemma_sender_count_update(
    rs: Seq<VerifiedPrivateTransaction>,
    i: int,
    t: VerifiedPrivateTransaction,
    s: Address,
)
    requires
        0 <= i < rs.len(),
    ensures
        sender_count(rs.update(i, t), s) == sender_count(rs, s) - (if rs[i].transaction_sender
            == s {
            1int
        } else {
            0int
        }) + (if t.transaction_sender == s {
            1int
        } else {
            0int
        }),
    decreases rs.len(),
{
    if i == rs.len() - 1 {
        assert(rs.update(i, t).drop_last() =~= rs.drop_last());
        assert(rs.update(i, t).last() == t);
    } else {
        assert(rs.update(i, t).drop_last() =~= rs.drop_last().update(i, t));
        assert(rs.update(i, t).last() == rs.last());
        lemma_sender_count_update(rs.drop_last(), i, t, s);
    }
}

/// The index map of removing one element: everything below stays, everything
/// above shifts down by one.
proof fn lemma_remove_map<A>(s: Seq<A>, i: int)
    requires
        0 <= i < s.len(),
    ensures
        s.remove(i).len() == s.len() - 1,
        forall|k: int|
            0 <= k < s.len() - 1 ==> #[trigger] s.remove(i)[k] == s[if k < i {
                k
            } else {
                k + 1
            }],
{
    s.remove_ensures(i);
}

proof fn lemma_push_contains<A>(s: Seq<A>, a: A, x: A)
    ensures
        s.push(a).contains(x) <==> (s.contains(x) || x == a),
{
    if s.contains(x) {
        let i = choose|i: int| 0 <= i < s.len() && s[i] == x;
        assert(s.push(a)[i] == x);
    }
    if x == a {
        assert(s.push(a)[s.len() as int] == x);
    }
    if s.push(a).contains(x) {
        let i = choose|i: int| 0 <= i < s.push(a).len() && s.push(a)[i] == x;
        if i < s.len() {
            assert(s[i] == x);
        }
    }
}

/// The verdict of `import` on a pool holding `rs` under ceilings `opts`:
/// a duplicate hash is refused; an occupied slot is replaced exactly under
/// the fee bump; a sender at its ceiling is served only for a nonce below
/// its queued peak, which is then evicted; a full pool is served only when
/// the policy sacrifices the worst-scored record; otherwise the record is
/// queued.
pub open spec fn import_verdict(
    rs: Seq<VerifiedPrivateTransaction>,
    opts: Options,
    t: VerifiedPrivateTransaction,
) -> Result<(), Error> {
    if hash_index(rs, t.transaction_hash) != -1 {
        Err(Error::AlreadyImported)
    } else if slot_index(rs, t) != -1 {
        if bump_accepted(rs[slot_index(rs, t)].transaction.gas_price, t.transaction.gas_price) {
            Ok(())
        } else {
            Err(Error::TooCheapToReplace)
        }
    } else if sender_count(rs, t.transaction_sender) >= opts.max_per_sender {
        if sender_peak(rs, t.transaction_sender) != -1 && t.transaction.nonce < rs[sender_peak(
            rs,
            t.transaction_sender,
        )].transaction.nonce {
            Ok(())
        } else {
            Err(Error::SenderIsFull)
        }
    } else if rs.len() >= opts.max_count {
        if rs.len() > 0 && PrivateScorying::should_replace_spec(rs[worst_index(rs)], t) {
            Ok(())
        } else {
            Err(Error::PoolIsFull)
        }
    } else {
        Ok(())
    }
}

/// The record sequence `import` leaves behind, in the cases of
/// `import_verdict`.
pub open spec fn import_result(
    rs: Seq<VerifiedPrivateTransaction>,
    opts: Options,
    t: VerifiedPrivateTransaction,
) -> Seq<VerifiedPrivateTransaction> {
    if hash_index(rs, t.transaction_hash) != -1 {
        rs
    } else if slot_index(rs, t) != -1 {
        if bump_accepted(rs[slot_index(rs, t)].transaction.gas_price, t.transaction.gas_price) {
            rs.update(slot_index(rs, t), t)
        } else {
            rs
        }
    } else if sender_count(rs, t.transaction_sender) >= opts.max_per_sender {
        if sender_peak(rs, t.transaction_sender) != -1 && t.transaction.nonce < rs[sender_peak(
            rs,
            t.transaction_sender,
        )].transaction.nonce {
            rs.remove(sender_peak(rs, t.transaction_sender)).push(t)
        } else {
            rs
        }
    } else if rs.len() >= opts.max_count {
        if rs.len() > 0 && PrivateScorying::should_replace_spec(rs[worst_index(rs)], t) {
            rs.remove(worst_index(rs)).push(t)
        } else {
            rs
        }
    } else {
        rs.push(t)
    }
}

/// Finds the record with this hash: the index the spec function
/// `hash_index` points at.
fn find_hash(records: &Vec<VerifiedPrivateTransaction>, h: TxHash) -> (r: Option<usize>)
    ensures
        match r {
            Some(i) => i < records@.len() && hash_index(records@, h) == i as int,
            None => hash_index(records@, h) == -1,
        },
{
    let len = records.len();
    let mut found: Option<usize> = None;
    let mut k: usize = 0;
    while k < len
        invariant
            0 <= k <= len,
            len == records@.len(),
            match found {
                Some(i) => i < k && hash_index(records@.take(k as int), h) == i as int,
                None => hash_index(records@.take(k as int), h) == -1,
            },
        decreases len - k,
    {
        proof {
            assert(records@.take(k + 1).drop_last() =~= records@.take(k as int));
            assert(records@.take(k + 1).last() == records@[k as int]);
        }
        if records[k].transaction_hash == h {
            found = Some(k);
        }
        k = k + 1;
    }
    proof {
        assert(records@.take(len as int) =~= records@);
    }
    found
}

/// Finds the record occupying `t`'s slot: the index the spec function
/// `slot_index` points at.
fn find_slot(
    records: &Vec<VerifiedPrivateTransaction>,
    t: &VerifiedPrivateTransaction,
) -> (r: Option<usize>)
    ensures
        match r {
            Some(i) => i < records@.len() && slot_index(records@, *t) == i as int,
            None => slot_index(records@, *t) == -1,
        },
{
    let len = records.len();
    let mut found: Option<usize> = None;
    let mut k: usize = 0;
    while k < len
        invariant
            0 <= k <= len,
            len == records@.len(),
            match found {
                Some(i) => i < k && slot_index(records@.take(k as int), *t) == i as int,
                None => slot_index(records@.take(k as int), *t) == -1,
            },
        decreases len - k,
    {
        proof {
            assert(records@.take(k + 1).drop_last() =~= records@.take(k as int));
            assert(records@.take(k + 1).last() == records@[k as int]);
        }
        if records[k].transaction_sender == t.transaction_sender && records[k].transaction.nonce
            == t.transaction.nonce {
            found = Some(k);
        }
        k = k + 1;
    }
    proof {
        assert(records@.take(len as int) =~= records@);
    }
    found
}

/// Counts the sender's queued records.
fn count_sender(records: &Vec<VerifiedPrivateTransaction>, s: Address) -> (c: usize)
    ensures
        c as int == sender_count(records@, s),
{
    let len = records.len();
    let mut c: usize = 0;
    let mut k: usize = 0;
    while k < len
        invariant
            0 <= k <= len,
            c <= k,
            len == records@.len(),
            c as int == sender_count(records@.take(k as int), s),
        decreases len - k,
    {
        proof {
            assert(records@.take(k + 1).drop_last() =~= records@.take(k as int));
            assert(records@.take(k + 1).last() == records@[k as int]);
        }
        if records[k].transaction_sender == s {
            c = c + 1;
        }
        k = k + 1;
    }
    proof {
        assert(records@.take(len as int) =~= records@);
    }
    c
}

/// Finds the sender's queued record with the greatest nonce: the index the
/// spec function `sender_peak` points at.
fn find_sender_peak(records: &Vec<VerifiedPrivateTransaction>, s: Address) -> (r: Option<usize>)
    ensures
        match r {
            Some(i) => i < records@.len() && sender_peak(records@, s) == i as int,
            None => sender_peak(records@, s) == -1,
        },
{
    let len = records.len();
    let mut found: Option<usize> = None;
    let mut k: usize = 0;
    while k < len
        invariant
            0 <= k <= len,
            len == records@.len(),
            match found {
                Some(i) => i < k && sender_peak(records@.take(k as int), s) == i as int,
                None => sender_peak(records@.take(k as int), s) == -1,
            },
        decreases len - k,
    {
        proof {
            assert(records@.take(k + 1).drop_last() =~= records@.take(k as int));
            assert(records@.take(k + 1).last() == records@[k as int]);
        }
        let better = match found {
            Some(i) => records[k].transaction_sender == s && records[i].transaction.nonce
                < records[k].transaction.nonce,
            None => records[k].transaction_sender == s,
        };
        if better {
            found = Some(k);
        }
        k = k + 1;
    }
    proof {
        assert(records@.take(len as int) =~= records@);
    }
    found
}

/// Finds the first record with the least fee: the index the spec function
/// `worst_index` points at.
fn find_worst(records: &Vec<VerifiedPrivateTransaction>) -> (r: Option<usize>)
    ensures
        match r {
            Some(i) => i < records@.len() && worst_index(records@) == i as int,
            None => records@.len() == 0 && worst_index(records@) == -1,
        },
{
    let len = records.len();
    let mut found: Option<usize> = None;
    let mut k: usize = 0;
    while k < len
        invariant
            0 <= k <= len,
            len == records@.len(),
            match found {
                Some(i) => i < k && worst_index(records@.take(k as int)) == i as int,
                None => k == 0 && worst_index(records@.take(k as int)) == -1,
            },
        decreases len - k,
    {
        proof {
            assert(records@.take(k + 1).drop_last() =~= records@.take(k as int));
            assert(records@.take(k + 1).last() == records@[k as int]);
        }
        let better = match found {
            Some(i) => records[k].transaction.gas_price < records[i].transaction.gas_price,
            None => true,
        };
        if better {
            found = Some(k);
        }
        k = k + 1;
    }
    proof {
        assert(records@.take(len as int) =~= records@);
    }
    found
}

/// The capacity-bounded collection under the verification queue: records
/// keyed by content hash, admitted under the scoring policy, extracted under
/// a readiness oracle, and removed by hash.
pub struct Pool {
    scoring: PrivateScorying,
    records: Vec<VerifiedPrivateTransaction>,
    scores: Vec<u64>,
    options: Options,
}

impl Pool {
    /// The queued records, in queue order.
    pub closed spec fn recs(self) -> Seq<VerifiedPrivateTransaction> {
        self.records@
    }

    /// The ceilings the pool was built with.
    pub closed spec fn opts(self) -> Options {
        self.options
    }

    /// The policy's score sequence runs parallel to the records: each slot
    /// is scored by its record's fee.
    pub closed spec fn scores_match(self) -> bool {
        &&& self.scores@.len() == self.records@.len()
        &&& forall|i: int|
            0 <= i < self.records@.len() ==> #[trigger] self.scores@[i]
                == self.records@[i].transaction.gas_price
    }

    /// The pool invariant: slots and hashes are unique keys, every record's
    /// caches are consistent, the scores mirror the fees, and both ceilings
    /// hold.
    pub open spec fn wf(self) -> bool {
        &&& slot_unique(self.recs())
        &&& hash_unique(self.recs())
        &&& all_wf(self.recs())
        &&& self.scores_match()
        &&& self.recs().len() <= self.opts().max_count
        &&& forall|s: Address| sender_count(self.recs(), s) <= self.opts().max_per_sender
    }

    /// An empty pool under the given scoring policy and ceilings.
    pub fn new(scoring: PrivateScorying, options: Options) -> (p: Pool)
        ensures
            p.wf(),
            p.recs().len() == 0,
            p.opts() == options,
    {
        let p = Pool { scoring, records: Vec::new(), scores: Vec::new(), options };
        proof {
            assert forall|s: Address| sender_count(p.recs(), s) <= p.opts().max_per_sender by {
                assert(sender_count(p.recs(), s) == 0);
            }
        }
        p
    }

    /// How many records are queued.
    pub fn len(&self) -> (n: usize)
        ensures
            n == self.recs().len(),
    {
        self.records.len()
    }

    /// Admits one record.  Checks run in this order: a duplicate hash is
    /// refused outright; a record contending for an occupied slot replaces
    /// it exactly under the fee-bump rule; a sender at its ceiling is served
    /// only for a nonce strictly below its queued peak, which is evicted in
    /// its favour; a pool at its total ceiling is served only when the
    /// policy sacrifices the worst-scored record; otherwise the record is
    /// queued alongside the others.
    pub fn import(&mut self, tx: VerifiedPrivateTransaction) -> (r: Result<(), Error>)
        requires
            old(self).wf(),
            tx.wf(),
        ensures
            final(self).wf(),
            final(self).opts() == old(self).opts(),
            r == import_verdict(old(self).recs(), old(self).opts(), tx),
            final(self).recs() == import_result(old(self).recs(), old(self).opts(), tx),
    {
        let ghost rs = self.records@;
        if let Some(_) = find_hash(&self.records, tx.transaction_hash) {
            return Err(Error::AlreadyImported);
        }
        proof {
            lemma_hash_index_props(rs, tx.transaction_hash);
        }
        if let Some(i) = find_slot(&self.records, &tx) {
            proof {
                lemma_slot_index_props(rs, tx);
            }
            let verdict = self.scoring.decide(&self.records[i], &tx);
            if verdict == Choice::ReplaceOld {
                self.records.set(i, tx);
                self.scoring.update_scores(&self.records, &mut self.scores, Change::ReplacedAt(i));
                proof {
                    let rs2 = self.records@;
                    assert forall|k: int, l: int| 0 <= k < l < rs2.len() implies !same_slot(
                        #[trigger] rs2[k],
                        #[trigger] rs2[l],
                    ) by {
                        assert(same_slot(rs[i as int], tx));
                        assert(!same_slot(rs[k], rs[l]));
                    }
                    assert forall|k: int, l: int| 0 <= k < l < rs2.len() implies (
                    #[trigger] rs2[k]).transaction_hash != (#[trigger] rs2[l]).transaction_hash by {
                        assert(rs[k].transaction_hash != rs[l].transaction_hash);
                    }
                    assert forall|s: Address|
                        sender_count(rs2, s) <= self.opts().max_per_sender by {
                        lemma_sender_count_update(rs, i as int, tx, s);
                    }
                }
                return Ok(());
            } else {
                return Err(Error::TooCheapToReplace);
            }
        }
        proof {
            lemma_slot_index_props(rs, tx);
        }
        let cnt = count_sender(&self.records, tx.transaction_sender);
        if cnt >= self.options.max_per_sender {
            // the sender is at its ceiling: only an earlier nonce may oust
            // the sender's latest queued record
            let peak = find_sender_peak(&self.records, tx.transaction_sender);
            match peak {
                Some(m) => {
                    if tx.transaction.nonce >= self.records[m].transaction.nonce {
                        return Err(Error::SenderIsFull);
                    }
                    proof {
                        lemma_sender_peak_props(rs, tx.transaction_sender);
                    }
                    let _evicted = self.records.remove(m);
                    let _score = self.scores.remove(m);
                    self.records.push(tx);
                    self.scores.push(0);
                    let last = self.records.len() - 1;
                    self.scoring.update_scores(
                        &self.records,
                        &mut self.scores,
                        Change::InsertedAt(last),
                    );
                    proof {
                        self.lemma_after_evict_push(rs, m as int, tx);
                        assert forall|s: Address|
                            sender_count(self.records@, s) <= self.opts().max_per_sender by {
                            lemma_sender_count_remove(rs, m as int, s);
                            lemma_sender_count_push(rs.remove(m as int), tx, s);
                        }
                    }
                    return Ok(());
                },
                None => {
                    return Err(Error::SenderIsFull);
                },
            }
        }
        if self.records.len() >= self.options.max_count {
            // the pool is at its total ceiling: the policy may sacrifice the
            // worst-scored record
            match find_worst(&self.records) {
                Some(w) => {
                    let replace = self.scoring.should_replace(&self.records[w], &tx);
                    if replace {
                        proof {
                            lemma_worst_index_props(rs);
                        }
                        let _evicted = self.records.remove(w);
                        let _score = self.scores.remove(w);
                        self.records.push(tx);
                        self.scores.push(0);
                        let last = self.records.len() - 1;
                        self.scoring.update_scores(
                            &self.records,
                            &mut self.scores,
                            Change::InsertedAt(last),
                        );
                        proof {
                            self.lemma_after_evict_push(rs, w as int, tx);
                            assert forall|s: Address|
                                sender_count(self.records@, s) <= self.opts().max_per_sender by {
                                lemma_sender_count_remove(rs, w as int, s);
                                lemma_sender_count_push(rs.remove(w as int), tx, s);
                                assert(sender_count(rs, tx.transaction_sender)
                                    < self.opts().max_per_sender);
                            }
                        }
                        return Ok(());
                    } else {
                        return Err(Error::PoolIsFull);
                    }
                },
                None => {
                    return Err(Error::PoolIsFull);
                },
            }
        }
        self.records.push(tx);
        self.scores.push(0);
        let last = self.records.len() - 1;
        self.scoring.update_scores(&self.records, &mut self.scores, Change::InsertedAt(last));
        proof {
            let rs2 = self.records@;
            assert(rs2.drop_last() =~= rs);
            assert forall|k: int, l: int| 0 <= k < l < rs2.len() implies !same_slot(
                #[trigger] rs2[k],
                #[trigger] rs2[l],
            ) by {
                if l < rs2.len() - 1 {
                    assert(!same_slot(rs[k], rs[l]));
                } else {
                    assert(rs2[k] == rs[k]);
                }
            }
            assert forall|k: int, l: int| 0 <= k < l < rs2.len() implies (
            #[trigger] rs2[k]).transaction_hash != (#[trigger] rs2[l]).transaction_hash by {
                if l < rs2.len() - 1 {
                    assert(rs[k].transaction_hash != rs[l].transaction_hash);
                } else {
                    assert(rs2[k] == rs[k]);
                }
            }
            assert forall|s: Address| sender_count(rs2, s) <= self.opts().max_per_sender by {
                lemma_sender_count_push(rs, tx, s);
            }
        }
        Ok(())
    }

    /// After evicting the record at `i` and queueing `tx`, the key
    /// uniqueness and cache consistency of the pool still hold, provided
    /// `tx`'s hash and slot were not queued.
    proof fn lemma_after_evict_push(
        self,
        rs: Seq<VerifiedPrivateTransaction>,
        i: int,
        tx: VerifiedPrivateTransaction,
    )
        requires
            0 <= i < rs.len(),
            slot_unique(rs),
            hash_unique(rs),
            all_wf(rs),
            tx.wf(),
            forall|k: int| 0 <= k < rs.len() ==> !same_slot(#[trigger] rs[k], tx),
            forall|k: int| 0 <= k < rs.len() ==> (#[trigger] rs[k]).transaction_hash
                != tx.transaction_hash,
            self.recs() == rs.remove(i).push(tx),
        ensures
            slot_unique(self.recs()),
            hash_unique(self.recs()),
            all_wf(self.recs()),
    {
        lemma_remove_map(rs, i);
        let rr = rs.remove(i);
        let rs2 = self.recs();
        assert(rs2.len() == rs.len());
        assert forall|k: int, l: int| 0 <= k < l < rs2.len() implies !same_slot(
            #[trigger] rs2[k],
            #[trigger] rs2[l],
        ) && (rs2[k]).transaction_hash != (rs2[l]).transaction_hash by {
            if l < rs2.len() - 1 {
                assert(rs2[k] == rr[k] && rs2[l] == rr[l]);
                let k0 = if k < i { k } else { k + 1 };
                let l0 = if l < i { l } else { l + 1 };
                assert(rr[k] == rs[k0] && rr[l] == rs[l0]);
                assert(!same_slot(rs[k0], rs[l0]));
                assert(rs[k0].transaction_hash != rs[l0].transaction_hash);
            } else {
                assert(rs2[l] == tx);
                assert(rs2[k] == rr[k]);
                let k0 = if k < i { k } else { k + 1 };
                assert(rr[k] == rs[k0]);
            }
        }
        assert forall|k: int| 0 <= k < rs2.len() implies (#[trigger] rs2[k]).wf() by {
            if k < rs2.len() - 1 {
                let k0 = if k < i { k } else { k + 1 };
                assert(rs2[k] == rs[k0]);
            } else {
                assert(rs2[k] == tx);
            }
        }
    }

    /// Collects the hashes of the records ready for extraction: one pass of
    /// the readiness oracle over the queue, seeded from the chain oracle.
    /// A hash is collected exactly for the records whose nonce is the one
    /// the chain expects next from their sender.
    pub fn pending<C: NonceClient>(&self, client: C) -> (hashes: Vec<TxHash>)
        requires
            self.wf(),
        ensures
            forall|k: int| #![trigger hashes@[k]]
                0 <= k < hashes@.len() ==> hash_index(self.recs(), hashes@[k]) != -1 && ready_for(
                    self.recs()[hash_index(self.recs(), hashes@[k])],
                    client,
                ),
            forall|m: int|
                0 <= m < self.recs().len() && ready_for(#[trigger] self.recs()[m], client)
                    ==> hashes@.contains(self.recs()[m].transaction_hash),
            forall|k: int, l: int| 0 <= k < l < hashes@.len() ==> hashes@[k] != hashes@[l],
            // no two collected hashes name records of one sender
            forall|k: int, l: int|
                0 <= k < l < hashes@.len() ==> self.recs()[hash_index(
                    self.recs(),
                    hashes@[k],
                )].transaction_sender != self.recs()[hash_index(
                    self.recs(),
                    hashes@[l],
                )].transaction_sender,
    {
        let mut ready = PrivateReadyState::new(client);
        let mut hashes: Vec<TxHash> = Vec::new();
        let ghost mut idxs: Seq<int> = Seq::empty();
        let ghost mut claimers: Map<Address, int> = Map::empty();
        let len = self.records.len();
        let mut i: usize = 0;
        while i < len
            invariant
                0 <= i <= len,
                self.wf(),
                len == self.recs().len(),
                ready.wf(),
                forall|x: Address| ready.expected_nonce(x) == client.nonce_spec(x),
                // a sender is claimed exactly when one of the records
                // already passed was its ready one; `claimers` remembers
                // which
                forall|x: Address|
                    #[trigger] ready.claimed(x) ==> claimers.dom().contains(x) && 0
                        <= claimers[x] < i && self.recs()[claimers[x]].transaction_sender == x
                        && ready_for(self.recs()[claimers[x]], client),
                forall|m: int|
                    0 <= m < i && ready_for(#[trigger] self.recs()[m], client) ==> ready.claimed(
                        self.recs()[m].transaction_sender,
                    ),
                // each collected hash names a ready record, remembered in
                // `idxs`
                idxs.len() == hashes@.len(),
                forall|k: int|
                    0 <= k < idxs.len() ==> 0 <= #[trigger] idxs[k] < i && hashes@[k]
                        == self.recs()[idxs[k]].transaction_hash && ready_for(
                        self.recs()[idxs[k]],
                        client,
                    ),
                forall|m: int|
                    0 <= m < i && ready_for(#[trigger] self.recs()[m], client)
                        ==> hashes@.contains(self.recs()[m].transaction_hash),
                forall|k: int, l: int| 0 <= k < l < hashes@.len() ==> hashes@[k] != hashes@[l],
            decreases len - i,
        {
            let ghost pre = hashes@;
            let ghost pre_ready = ready;
            let verdict = ready.is_ready(&self.records[i]);
            let ghost rec = self.recs()[i as int];
            if verdict == Readiness::Ready {
                let h = self.records[i].hash();
                proof {
                    assert(ready_for(rec, client));
                    // a second record of a claimed sender is never ready,
                    // so this hash is new
                    assert forall|k: int| 0 <= k < pre.len() implies pre[k]
                        != rec.transaction_hash by {
                        assert(self.recs()[idxs[k]].transaction_hash != rec.transaction_hash);
                    }
                }
                hashes.push(h);
                proof {
                    idxs = idxs.push(i as int);
                    claimers = claimers.insert(rec.transaction_sender, i as int);
                    assert forall|k: int|
                        0 <= k < idxs.len() implies 0 <= #[trigger] idxs[k] < i + 1 && hashes@[k]
                            == self.recs()[idxs[k]].transaction_hash && ready_for(
                            self.recs()[idxs[k]],
                            client,
                        ) by {
                        if k < pre.len() {
                            assert(idxs[k] == idxs.drop_last()[k]);
                            assert(hashes@[k] == pre[k]);
                        }
                    }
                    assert forall|m: int|
                        0 <= m < i + 1 && ready_for(#[trigger] self.recs()[m], client) implies
                        hashes@.contains(self.recs()[m].transaction_hash) by {
                        lemma_push_contains(
                            pre,
                            rec.transaction_hash,
                            self.recs()[m].transaction_hash,
                        );
                        if m == i {
                            assert(hashes@[hashes@.len() - 1] == rec.transaction_hash);
                        }
                    }
                    assert forall|x: Address| #[trigger] ready.claimed(x) implies
                        claimers.dom().contains(x) && 0 <= claimers[x] < i + 1
                            && self.recs()[claimers[x]].transaction_sender == x && ready_for(
                            self.recs()[claimers[x]],
                            client,
                        ) by {
                        if x != rec.transaction_sender {
                            assert(pre_ready.claimed(x));
                        }
                    }
                }
            } else {
                proof {
                    // the verdict refused the record: it is not at its
                    // sender's expected nonce, or a record already passed
                    // was -- and that record would share this one's slot
                    if ready_for(rec, client) {
                        assert(pre_ready.claimed(rec.transaction_sender));
                        let m = claimers[rec.transaction_sender];
                        assert(same_slot(self.recs()[m], rec));
                        assert(false);
                    }
                }
            }
            i = i + 1;
        }
        proof {
            assert forall|k: int| #![trigger hashes@[k]]
                0 <= k < hashes@.len() implies hash_index(self.recs(), hashes@[k]) != -1
                    && ready_for(self.recs()[hash_index(self.recs(), hashes@[k])], client) by {
                let w = idxs[k];
                lemma_hash_index_props(self.recs(), hashes@[k]);
                if hash_index(self.recs(), hashes@[k]) == -1 {
                    assert(self.recs()[w].transaction_hash != hashes@[k]);
                }
                let m = hash_index(self.recs(), hashes@[k]);
                // hashes are unique keys, so the indexed record is the one
                // the pass collected
                if m < w {
                    assert(self.recs()[m].transaction_hash != self.recs()[w].transaction_hash);
                } else if w < m {
                    assert(self.recs()[w].transaction_hash != self.recs()[m].transaction_hash);
                }
                assert(m == w);
            }
            assert forall|k: int, l: int|
                0 <= k < l < hashes@.len() implies self.recs()[hash_index(
                    self.recs(),
                    hashes@[k],
                )].transaction_sender != self.recs()[hash_index(
                    self.recs(),
                    hashes@[l],
                )].transaction_sender by {
                lemma_hash_index_props(self.recs(), hashes@[k]);
                lemma_hash_index_props(self.recs(), hashes@[l]);
                let mk = hash_index(self.recs(), hashes@[k]);
                let ml = hash_index(self.recs(), hashes@[l]);
                assert(ready_for(self.recs()[mk], client));
                assert(ready_for(self.recs()[ml], client));
                assert(self.recs()[mk].transaction_hash != self.recs()[ml].transaction_hash);
                if self.recs()[mk].transaction_sender == self.recs()[ml].transaction_sender {
                    lemma_one_ready_per_sender(self.recs(), client, mk, ml);
                }
            }
        }
        hashes
    }

    /// Removes the record with this hash, handing it back; a hash the pool
    /// does not hold removes nothing.
    pub fn remove(&mut self, hash: TxHash) -> (r: Option<VerifiedPrivateTransaction>)
        requires
            old(self).wf(),
        ensures
            final(self).wf(),
            final(self).opts() == old(self).opts(),
            hash_index(old(self).recs(), hash) == -1 ==> r is None && final(self).recs() == old(
                self,
            ).recs(),
            hash_index(old(self).recs(), hash) != -1 ==> {
                &&& r == Some(old(self).recs()[hash_index(old(self).recs(), hash)])
                &&& final(self).recs() == old(self).recs().remove(
                    hash_index(old(self).recs(), hash),
                )
            },
            match r {
                Some(rec) => rec.transaction_hash == hash && rec.wf(),
                None => hash_index(old(self).recs(), hash) == -1,
            },
    {
        let ghost rs = self.records@;
        proof {
            lemma_hash_index_props(rs, hash);
        }
        match find_hash(&self.records, hash) {
            Some(i) => {
                let _score = self.scores.remove(i);
                let rec = self.records.remove(i);
                proof {
                    lemma_remove_map(rs, i as int);
                    let rs2 = self.records@;
                    assert forall|k: int, l: int| 0 <= k < l < rs2.len() implies !same_slot(
                        #[trigger] rs2[k],
                        #[trigger] rs2[l],
                    ) && (rs2[k]).transaction_hash != (rs2[l]).transaction_hash && rs2[k].wf() by {
                        let k0 = if k < i { k } else { k + 1 };
                        let l0 = if l < i { l } else { l + 1 };
                        assert(rs2[k] == rs[k0] && rs2[l] == rs[l0]);
                        assert(!same_slot(rs[k0], rs[l0]));
                    }
                    assert forall|k: int| 0 <= k < rs2.len() implies (#[trigger] rs2[k]).wf() by {
                        let k0 = if k < i { k } else { k + 1 };
                        assert(rs2[k] == rs[k0]);
                    }
                    assert forall|s: Address|
                        sender_count(rs2, s) <= self.opts().max_per_sender by {
                        lemma_sender_count_remove(rs, i as int, s);
                    }
                }
                Some(rec)
            },
            None => None,
        }
    }
}

/// Law: a record whose nonce is strictly below what the chain expects from
/// its sender is stale, never ready, so no drain pass extracts it.
pub proof fn lemma_stale_never_ready<C: NonceClient>(r: VerifiedPrivateTransaction, client: C)
    requires
        r.transaction.nonce < client.nonce_spec(r.transaction_sender),
    ensures
        !ready_for(r, client),
{
}

/// Law: one drain pass extracts at most one record per sender.  Two
/// distinct queued records of one sender occupy distinct slots, so at most
/// one of them can carry the sender's expected nonce.
pub proof fn lemma_one_ready_per_sender<C: NonceClient>(
    rs: Seq<VerifiedPrivateTransaction>,
    client: C,
    i: int,
    j: int,
)
    requires
        slot_unique(rs),
        0 <= i < rs.len(),
        0 <= j < rs.len(),
        i != j,
        rs[i].transaction_sender == rs[j].transaction_sender,
        ready_for(rs[i], client),
    ensures
        !ready_for(rs[j], client),
{
    if i < j {
        assert(!same_slot(rs[i], rs[j]));
    } else {
        assert(!same_slot(rs[j], rs[i]));
    }
}

/// Law: of three queued records of one sender at the expected nonce and the
/// two after it, exactly the first is extracted by one drain pass; the two
/// ahead of it stay queued as future work.
pub proof fn lemma_single_ready_window<C: NonceClient>(
    r0: VerifiedPrivateTransaction,
    r1: VerifiedPrivateTransaction,
    r2: VerifiedPrivateTransaction,
    client: C,
)
    requires
        r0.transaction_sender == r1.transaction_sender,
        r1.transaction_sender == r2.transaction_sender,
        r1.transaction.nonce == r0.transaction.nonce + 1,
        r2.transaction.nonce == r0.transaction.nonce + 2,
        client.nonce_spec(r0.transaction_sender) == r0.transaction.nonce,
    ensures
        ready_for(r0, client),
        !ready_for(r1, client),
        !ready_for(r2, client),
{
}

} // verus!
