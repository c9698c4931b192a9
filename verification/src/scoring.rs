//! The stateless scoring policy of the verification queue: ordering,
//! replacement under a fee bump, and fee-based scores for eviction.

use vstd::prelude::*;
use core::cmp::Ordering;
use crate::record::VerifiedPrivateTransaction;

verus! {

/// A record at an occupied `(sender, nonce)` slot may be replaced only if
/// `new_gas_price >= old_gas_price + (old_gas_price >> GAS_PRICE_BUMP_SHIFT)`.
/// A shift of 3 demands a fee bump of one eighth, that is 12.5%.
pub const GAS_PRICE_BUMP_SHIFT: u64 = 3;

/// What the scoring policy does with an incoming record whose slot is
/// already occupied, or which opens a new slot.
#[derive(Clone, Copy, Debug, PartialEq, Eq, Structural)]
pub enum Choice {
    /// The records occupy different slots: queue the new one alongside.
    InsertNew,
    /// The incoming record does not clear the replacement threshold.
    RejectNew,
    /// The incoming record displaces the stored one.
    ReplaceOld,
}

/// A change of the pool's record sequence, reported to the scoring policy so
/// that it can maintain the parallel score sequence.
#[derive(Clone, Copy, Debug, PartialEq, Eq, Structural)]
pub enum Change {
    /// Records were dropped because their sender cannot pay for them.
    Culled(usize),
    /// The record at this position was removed.
    RemovedAt(usize),
    /// A record was inserted at this position.
    InsertedAt(usize),
    /// The record at this position was replaced.
    ReplacedAt(usize),
    /// An external event; this policy scores on fees alone and ignores it.
    Event,
}

/// The least fee an incoming record must offer to displace a stored record
/// whose fee is `old_fee`: the stored fee plus one eighth of it.
pub open spec fn replacement_threshold(old_fee: u64) -> int {
    old_fee + old_fee / 8
}

/// The replacement rule for two records at the same `(sender, nonce)` slot:
/// the incoming fee clears the stored fee plus a 12.5% bump.
pub open spec fn bump_accepted(old_fee: u64, new_fee: u64) -> bool {
    new_fee >= replacement_threshold(old_fee)
}

/// Shifting right by `GAS_PRICE_BUMP_SHIFT` computes one eighth, rounded
/// down.
proof fn lemma_bump_shift_is_div(x: u64)
    ensures
        x >> GAS_PRICE_BUMP_SHIFT == x / 8,
{
    assert(x >> 3u64 == x / 8) by (bit_vector);
}

/// The stateless scoring policy of the verification queue: records are
/// ordered by `(sender, nonce)` ascending — not by fee — a slot is replaced
/// only under a 12.5% fee bump, and a slot's score is its record's fee, for
/// the pool's own capacity-based eviction.
#[derive(Debug)]
pub struct PrivateScorying;

impl PrivateScorying {
    /// The comparator's verdict on two records of one sender: by nonce,
    /// ascending.
    pub open spec fn compare_spec(
        old_tx: VerifiedPrivateTransaction,
        other: VerifiedPrivateTransaction,
    ) -> Ordering {
        if old_tx.transaction.nonce < other.transaction.nonce {
            Ordering::Less
        } else if old_tx.transaction.nonce == other.transaction.nonce {
            Ordering::Equal
        } else {
            Ordering::Greater
        }
    }

    /// What `decide` returns: records at different nonces live side by side;
    /// at the same nonce the incoming record wins exactly when its fee
    /// clears the replacement threshold.  The verdict reads the nonces and
    /// fees alone; the pool only consults it for records of one sender.
    pub open spec fn decide_spec(
        old_tx: VerifiedPrivateTransaction,
        new_tx: VerifiedPrivateTransaction,
    ) -> Choice {
        if old_tx.transaction.nonce != new_tx.transaction.nonce {
            Choice::InsertNew
        } else if bump_accepted(old_tx.transaction.gas_price, new_tx.transaction.gas_price) {
            Choice::ReplaceOld
        } else {
            Choice::RejectNew
        }
    }

    /// What `should_replace` returns: an incoming record with a strictly
    /// lower nonce from the same sender always wins, because earlier nonces
    /// must clear first; otherwise the slot verdict of `decide` stands.
    pub open spec fn should_replace_spec(
        old_tx: VerifiedPrivateTransaction,
        new_tx: VerifiedPrivateTransaction,
    ) -> bool {
        ||| (old_tx.transaction_sender == new_tx.transaction_sender
            && new_tx.transaction.nonce < old_tx.transaction.nonce)
        ||| Self::decide_spec(old_tx, new_tx) == Choice::ReplaceOld
    }

    /// Orders two records of one sender by nonce, ascending.
    pub fn compare(
        &self,
        old_tx: &VerifiedPrivateTransaction,
        other: &VerifiedPrivateTransaction,
    ) -> (r: Ordering)
        ensures
            r == Self::compare_spec(*old_tx, *other),
    {
        if old_tx.transaction.nonce < other.transaction.nonce {
            Ordering::Less
        } else if old_tx.transaction.nonce == other.transaction.nonce {
            Ordering::Equal
        } else {
            Ordering::Greater
        }
    }

    /// Decides between a stored record and an incoming record contending
    /// for the same slot.
    pub fn decide(
        &self,
        old_tx: &VerifiedPrivateTransaction,
        new_tx: &VerifiedPrivateTransaction,
    ) -> (c: Choice)
        ensures
            c == Self::decide_spec(*old_tx, *new_tx),
    {
        if old_tx.transaction.nonce != new_tx.transaction.nonce {
            return Choice::InsertNew;
        }
        let old_gp = old_tx.transaction.gas_price;
        let new_gp = new_tx.transaction.gas_price;
        proof {
            lemma_bump_shift_is_div(old_gp);
        }
        // The threshold is computed in a wider type: the sum of a fee and
        // one eighth of it can exceed the fee type's range.
        let min_required_gp: u128 = (old_gp as u128) + ((old_gp >> GAS_PRICE_BUMP_SHIFT) as u128);
        if min_required_gp > (new_gp as u128) {
            Choice::RejectNew
        } else {
            Choice::ReplaceOld
        }
    }

    /// Decides whether an incoming record displaces a stored one when the
    /// pool must make room: a strictly lower nonce from the same sender
    /// always wins; otherwise the slot verdict of `decide` stands.
    pub fn should_replace(
        &self,
        old_tx: &VerifiedPrivateTransaction,
        new_tx: &VerifiedPrivateTransaction,
    ) -> (b: bool)
        ensures
            b == Self::should_replace_spec(*old_tx, *new_tx),
    {
        if old_tx.sender() == new_tx.sender() {
            // prefer the earliest transaction
            if new_tx.transaction.nonce < old_tx.transaction.nonce {
                return true;
            }
        }
        self.decide(old_tx, new_tx) == Choice::ReplaceOld
    }

    /// Maintains the score sequence that runs parallel to the pool's record
    /// sequence: a slot just inserted or replaced is scored by its record's
    /// fee; every other change leaves the scores untouched.
    pub fn update_scores(
        &self,
        txs: &Vec<VerifiedPrivateTransaction>,
        scores: &mut Vec<u64>,
        change: Change,
    )
        requires
            match change {
                Change::InsertedAt(i) | Change::ReplacedAt(i) => i < txs.len() && i < old(
                    scores,
                ).len(),
                _ => true,
            },
        ensures
            match change {
                Change::InsertedAt(i) | Change::ReplacedAt(i) => final(scores)@ == old(
                    scores,
                )@.update(i as int, txs@[i as int].transaction.gas_price),
                _ => final(scores)@ == old(scores)@,
            },
    {
        match change {
            Change::Culled(_) => {},
            Change::RemovedAt(_) => {},
            Change::InsertedAt(i) | Change::ReplacedAt(i) => {
                scores.set(i, txs[i].transaction.gas_price);
            },
            Change::Event => {},
        }
    }
}

/// Law: for two records sharing `(sender, nonce)`, replacement occurs
/// exactly when the incoming fee reaches the stored fee plus one eighth of
/// it — except that a record with a strictly lower nonce from the same
/// sender always wins, regardless of fee.
pub proof fn lemma_replacement_rule(
    old_tx: VerifiedPrivateTransaction,
    new_tx: VerifiedPrivateTransaction,
)
    ensures
        old_tx.transaction_sender == new_tx.transaction_sender && old_tx.transaction.nonce
            == new_tx.transaction.nonce ==> (PrivateScorying::should_replace_spec(old_tx, new_tx)
            <==> bump_accepted(old_tx.transaction.gas_price, new_tx.transaction.gas_price)),
        old_tx.transaction_sender == new_tx.transaction_sender && new_tx.transaction.nonce
            < old_tx.transaction.nonce ==> PrivateScorying::should_replace_spec(old_tx, new_tx),
{
}

} // verus!
