//! Nonce-based readiness: the chain-state oracle and the per-pass
//! tracker that lets each sender yield at most one ready record.

use vstd::prelude::*;
use crate::record::{Address, VerifiedPrivateTransaction};

verus! {

/// Verdict on a queued record, from comparing its nonce to the sender's
/// expected next nonce.
#[derive(Clone, Copy, Debug, PartialEq, Eq, Structural)]
pub enum Readiness {
    /// The nonce was already spent on chain; the record is superseded.
    Stale,
    /// The nonce is exactly the one the sender is expected to use next.
    Ready,
    /// The nonce is ahead of the sender's expected next nonce, or the
    /// sender has already yielded its one ready record in this pass.
    Future,
}

/// Read-only chain-state oracle: what nonce each account is expected to use
/// next.
pub trait NonceClient {
    /// The next expected nonce of the sender, as the chain state has it.
    spec fn nonce_spec(&self, sender: Address) -> u64;

    /// Looks up the sender's account nonce.
    fn account_nonce(&self, sender: Address) -> (n: u64)
        ensures
            n == self.nonce_spec(sender),
    ;
}

/// A nonce oracle backed by a fixed table; a sender missing from the table
/// is at nonce zero.
pub struct StaticNonces {
    /// Pairs of sender and next expected nonce; the first entry for a
    /// sender wins.
    pub entries: Vec<(Address, u64)>,
}

impl StaticNonces {
    /// The nonce the table assigns to a sender: its first entry, or zero.
    pub open spec fn table_nonce(entries: Seq<(Address, u64)>, sender: Address) -> u64
        decreases entries.len(),
    {
        if entries.len() == 0 {
            0
        } else if entries[0].0 == sender {
            entries[0].1
        } else {
            Self::table_nonce(entries.drop_first(), sender)
        }
    }
}

impl NonceClient for StaticNonces {
    open spec fn nonce_spec(&self, sender: Address) -> u64 {
        Self::table_nonce(self.entries@, sender)
    }

    fn account_nonce(&self, sender: Address) -> (n: u64)
        ensures
            n == self.nonce_spec(sender),
    {
        let len = self.entries.len();
        assert(self.entries@.skip(0) =~= self.entries@);
        let mut i: usize = 0;
        while i < len
            invariant
                0 <= i <= len,
                len == self.entries@.len(),
                Self::table_nonce(self.entries@, sender) == Self::table_nonce(
                    self.entries@.skip(i as int),
                    sender,
                ),
                forall|k: int| 0 <= k < i ==> (#[trigger] self.entries@[k]).0 != sender,
            decreases len - i,
        {
            let entry = self.entries[i];
            assert(self.entries@.skip(i as int)[0] == self.entries@[i as int]);
            if entry.0 == sender {
                return entry.1;
            }
            assert(self.entries@.skip(i as int).drop_first() =~= self.entries@.skip(i + 1));
            i = i + 1;
        }
        assert(self.entries@.skip(len as int).len() == 0);
        assert(Self::table_nonce(self.entries@.skip(len as int), sender) == 0);
        0
    }
}

/// Per-sender cursor within one drain pass.
#[derive(Clone, Copy, Debug, PartialEq, Eq, Structural)]
struct SenderCursor {
    /// The sender this cursor tracks.
    sender: Address,
    /// The nonce that would be ready, seeded from the chain oracle on first
    /// sight of the sender.
    expected: u64,
    /// Whether the sender has already yielded its one ready verdict in this
    /// pass.
    claimed: bool,
}

/// The index of the sender's cursor in the table, or -1 when unseen.
spec fn cursor_index(s: Seq<SenderCursor>, sender: Address) -> int
    decreases s.len(),
{
    if s.len() == 0 {
        -1
    } else if s.last().sender == sender {
        s.len() - 1
    } else {
        cursor_index(s.drop_last(), sender)
    }
}

proof fn lemma_cursor_index_props(s: Seq<SenderCursor>, sender: Address)
    ensures
        cursor_index(s, sender) == -1 ==> forall|k: int|
            0 <= k < s.len() ==> (#[trigger] s[k]).sender != sender,
        cursor_index(s, sender) != -1 ==> 0 <= cursor_index(s, sender) < s.len() && s[cursor_index(
            s,
            sender,
        )].sender == sender,
    decreases s.len(),
{
    if s.len() > 0 && s.last().sender != sender {
        lemma_cursor_index_props(s.drop_last(), sender);
        let ci = cursor_index(s.drop_last(), sender);
        if ci == -1 {
            assert forall|k: int| 0 <= k < s.len() implies (#[trigger] s[k]).sender != sender by {
                if k < s.len() - 1 {
                    assert(s.drop_last()[k] == s[k]);
                }
            }
        } else {
            assert(s.drop_last()[ci] == s[ci]);
        }
    }
}

proof fn lemma_cursor_index_update(s: Seq<SenderCursor>, i: int, e: SenderCursor, x: Address)
    requires
        0 <= i < s.len(),
        e.sender == s[i].sender,
    ensures
        cursor_index(s.update(i, e), x) == cursor_index(s, x),
    decreases s.len(),
{
    if i == s.len() - 1 {
        assert(s.update(i, e).drop_last() =~= s.drop_last());
    } else {
        assert(s.update(i, e).drop_last() =~= s.drop_last().update(i, e));
        lemma_cursor_index_update(s.drop_last(), i, e, x);
    }
}

/// Checks readiness of records by comparing nonces to the chain state's
/// account nonces.  Within one pass, each sender yields at most one `Ready`
/// `Ready` answer, for the record whose nonce equals the sender's expected
/// next nonce.
/// Once a sender has claimed its ready slot, every further record of that
/// sender is `Future`, whatever its nonce.
pub struct PrivateReadyState<C: NonceClient> {
    nonces: Vec<SenderCursor>,
    state: C,
}

impl<C: NonceClient> PrivateReadyState<C> {
    /// The cursor table names each sender at most once.
    pub closed spec fn wf(self) -> bool {
        forall|i: int, j: int|
            0 <= i < j < self.nonces@.len() ==> (#[trigger] self.nonces@[i]).sender != (
            #[trigger] self.nonces@[j]).sender
    }

    /// The chain oracle this pass was built over.
    pub closed spec fn client(self) -> C {
        self.state
    }

    /// The nonce that would earn the sender a ready verdict.  Seeding
    /// stores the oracle's answer, so this always agrees with the oracle.
    pub closed spec fn expected_nonce(self, sender: Address) -> u64 {
        let i = cursor_index(self.nonces@, sender);
        if i == -1 {
            self.state.nonce_spec(sender)
        } else {
            self.nonces@[i].expected
        }
    }

    /// Whether the sender has already yielded its one ready verdict in this
    /// pass.
    pub closed spec fn claimed(self, sender: Address) -> bool {
        let i = cursor_index(self.nonces@, sender);
        i != -1 && self.nonces@[i].claimed
    }

    /// The verdict the tracker hands out for a nonce, given the sender's
    /// cursor.
    pub open spec fn verdict(expected: u64, claimed: bool, nonce: u64) -> Readiness {
        if claimed {
            Readiness::Future
        } else if nonce > expected {
            Readiness::Future
        } else if nonce < expected {
            Readiness::Stale
        } else {
            Readiness::Ready
        }
    }

    /// Creates a new readiness checker over the given chain oracle, with no
    /// sender seen yet.
    pub fn new(state: C) -> (r: Self)
        ensures
            r.wf(),
            r.client() == state,
            forall|x: Address| !r.claimed(x),
            forall|x: Address| r.expected_nonce(x) == state.nonce_spec(x),
    {
        PrivateReadyState { nonces: Vec::new(), state }
    }

    /// Classifies one record.  On first sight of a sender the cursor is
    /// seeded from the chain oracle; the record whose nonce equals the
    /// cursor is ready and claims the sender's slot for the rest of the
    /// pass; lower nonces are stale, higher ones future.  A claimed sender
    /// yields only future verdicts, since several unconfirmed records of
    /// one sender cannot be extracted in one round -- once claimed, the
    /// cursor is no longer consulted, so it is left in place.
    pub fn is_ready(&mut self, tx: &VerifiedPrivateTransaction) -> (v: Readiness)
        requires
            old(self).wf(),
        ensures
            final(self).wf(),
            final(self).client() == old(self).client(),
            v == Self::verdict(
                old(self).expected_nonce(tx.transaction_sender),
                old(self).claimed(tx.transaction_sender),
                tx.transaction.nonce,
            ),
            final(self).claimed(tx.transaction_sender) == (old(self).claimed(
                tx.transaction_sender,
            ) || v == Readiness::Ready),
            forall|x: Address|
                x != tx.transaction_sender ==> final(self).claimed(x) == old(self).claimed(x),
            forall|x: Address| final(self).expected_nonce(x) == old(self).expected_nonce(x),
    {
        let sender = tx.sender();
        let nonce = tx.transaction.nonce;
        proof {
            lemma_cursor_index_props(self.nonces@, sender);
        }
        let len = self.nonces.len();
        let mut i: usize = 0;
        while i < len
            invariant
                0 <= i <= len,
                *self == *old(self),
                old(self).wf(),
                len == self.nonces@.len(),
                sender == tx.transaction_sender,
                nonce == tx.transaction.nonce,
                forall|k: int| 0 <= k < i ==> (#[trigger] self.nonces@[k]).sender != sender,
            decreases len - i,
        {
            if self.nonces[i].sender == sender {
                let ghost ci = cursor_index(self.nonces@, sender);
                proof {
                    lemma_cursor_index_props(self.nonces@, sender);
                    // the table names a sender at most once, so the scan hit
                    // the cursor the spec points at
                    assert(ci == i);
                }
                let cursor = self.nonces[i];
                if cursor.claimed {
                    return Readiness::Future;
                } else if nonce > cursor.expected {
                    return Readiness::Future;
                } else if nonce < cursor.expected {
                    return Readiness::Stale;
                } else {
                    let updated = SenderCursor { sender: cursor.sender, expected: cursor.expected, claimed: true };
                    self.nonces.set(i, updated);
                    proof {
                        assert forall|x: Address| true implies cursor_index(self.nonces@, x)
                            == cursor_index(old(self).nonces@, x) by {
                            lemma_cursor_index_update(old(self).nonces@, i as int, updated, x);
                        }
                        assert forall|k: int, l: int|
                            0 <= k < l < self.nonces@.len() implies (
                        #[trigger] self.nonces@[k]).sender != (#[trigger] self.nonces@[l]).sender by {
                            assert(old(self).nonces@[k].sender != old(self).nonces@[l].sender);
                        }
                        assert forall|x: Address|
                            self.expected_nonce(x) == old(self).expected_nonce(x) by {
                            lemma_cursor_index_props(old(self).nonces@, x);
                        }
                        assert forall|x: Address| x != sender implies self.claimed(x) == old(
                            self,
                        ).claimed(x) by {
                            lemma_cursor_index_props(old(self).nonces@, x);
                        }
                        assert(self.claimed(sender));
                    }
                    return Readiness::Ready;
                }
            }
            i = i + 1;
        }
        // first sight of this sender: seed the cursor from the chain oracle
        proof {
            lemma_cursor_index_props(self.nonces@, sender);
            assert(cursor_index(self.nonces@, sender) == -1) by {
                if cursor_index(self.nonces@, sender) != -1 {
                    assert(self.nonces@[cursor_index(self.nonces@, sender)].sender == sender);
                }
            }
        }
        let state_nonce = self.state.account_nonce(sender);
        let v = if nonce > state_nonce {
            Readiness::Future
        } else if nonce < state_nonce {
            Readiness::Stale
        } else {
            Readiness::Ready
        };
        let cursor = SenderCursor { sender, expected: state_nonce, claimed: (v == Readiness::Ready) };
        self.nonces.push(cursor);
        proof {
            assert(self.nonces@.drop_last() =~= old(self).nonces@);
            assert forall|x: Address| x != sender implies cursor_index(self.nonces@, x)
                == cursor_index(old(self).nonces@, x) by {
            }
            assert(cursor_index(self.nonces@, sender) == self.nonces@.len() - 1);
            assert forall|k: int, l: int| 0 <= k < l < self.nonces@.len() implies (
            #[trigger] self.nonces@[k]).sender != (#[trigger] self.nonces@[l]).sender by {
                if l < self.nonces@.len() - 1 {
                    assert(old(self).nonces@[k].sender != old(self).nonces@[l].sender);
                } else {
                    assert(self.nonces@[k] == old(self).nonces@[k]);
                }
            }
            assert forall|x: Address| self.expected_nonce(x) == old(self).expected_nonce(x) by {
                lemma_cursor_index_props(old(self).nonces@, x);
                if x != sender {
                    let ci = cursor_index(old(self).nonces@, x);
                    if ci != -1 {
                        assert(self.nonces@[ci] == old(self).nonces@[ci]);
                    }
                }
            }
            assert forall|x: Address| x != sender implies self.claimed(x) == old(self).claimed(
                x,
            ) by {
                lemma_cursor_index_props(old(self).nonces@, x);
                let ci = cursor_index(old(self).nonces@, x);
                if ci != -1 {
                    assert(self.nonces@[ci] == old(self).nonces@[ci]);
                }
            }
        }
        v
    }
}

} // verus!
