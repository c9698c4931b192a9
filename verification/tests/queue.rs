use private_tx::error::Error;
use private_tx::pool::{Options, Pool};
use private_tx::ready::{NonceClient, PrivateReadyState, Readiness, StaticNonces};
use private_tx::record::{PrivateTransaction, SignedTransaction, VerifiedPrivateTransaction};
use private_tx::scoring::{Change, Choice, PrivateScorying};
use private_tx::store::VerificationStore;
use std::cmp::Ordering;

fn record(sender: u64, nonce: u64, gas_price: u64, hash: u64) -> VerifiedPrivateTransaction {
    VerifiedPrivateTransaction::new(
        PrivateTransaction { encrypted: vec![0xde, 0xad], contract: 7 },
        None,
        SignedTransaction { nonce, gas_price, sender, hash },
    )
}

fn small_pool(max_count: usize, max_per_sender: usize) -> Pool {
    Pool::new(PrivateScorying, Options { max_count, max_per_sender })
}

fn nonces(entries: Vec<(u64, u64)>) -> StaticNonces {
    StaticNonces { entries }
}

#[test]
fn compare_orders_by_nonce_ascending() {
    let scoring = PrivateScorying;
    let a = record(1, 5, 1000, 100);
    let b = record(1, 6, 1, 101);
    assert_eq!(scoring.compare(&a, &b), Ordering::Less);
    assert_eq!(scoring.compare(&b, &a), Ordering::Greater);
    assert_eq!(scoring.compare(&a, &a), Ordering::Equal);
}

#[test]
fn decide_applies_fee_bump_rule() {
    let scoring = PrivateScorying;
    let stored = record(1, 5, 1000, 100);
    // different nonce: lives alongside
    assert_eq!(scoring.decide(&stored, &record(1, 6, 1, 101)), Choice::InsertNew);
    // 1124 < 1000 + 125: refused
    assert_eq!(scoring.decide(&stored, &record(1, 5, 1124, 102)), Choice::RejectNew);
    // 1125 == 1000 + 1000/8: accepted
    assert_eq!(scoring.decide(&stored, &record(1, 5, 1125, 103)), Choice::ReplaceOld);
}

#[test]
fn decide_handles_extreme_fees() {
    let scoring = PrivateScorying;
    let stored = record(1, 5, u64::MAX, 100);
    // the threshold exceeds any representable fee
    assert_eq!(scoring.decide(&stored, &record(1, 5, u64::MAX, 101)), Choice::RejectNew);
    let cheap = record(1, 5, 0, 102);
    // a zero stored fee is replaced by any fee
    assert_eq!(scoring.decide(&cheap, &record(1, 5, 0, 103)), Choice::ReplaceOld);
}

#[test]
fn should_replace_prefers_earliest_nonce_of_same_sender() {
    let scoring = PrivateScorying;
    let stored = record(1, 5, 1000, 100);
    // same sender, strictly lower nonce: always preferred, fee ignored
    assert!(scoring.should_replace(&stored, &record(1, 4, 1, 101)));
    // other sender, lower nonce, different slot: not preferred
    assert!(!scoring.should_replace(&stored, &record(2, 4, 1, 102)));
    // same slot: the fee rule decides
    assert!(scoring.should_replace(&stored, &record(1, 5, 1125, 103)));
    assert!(!scoring.should_replace(&stored, &record(1, 5, 1124, 104)));
}

#[test]
fn update_scores_sets_fee_on_insert_and_replace() {
    let scoring = PrivateScorying;
    let txs = vec![record(1, 5, 1000, 100), record(1, 6, 2000, 101)];
    let mut scores = vec![0u64, 0u64];
    scoring.update_scores(&txs, &mut scores, Change::InsertedAt(0));
    assert_eq!(scores, vec![1000, 0]);
    scoring.update_scores(&txs, &mut scores, Change::ReplacedAt(1));
    assert_eq!(scores, vec![1000, 2000]);
    scoring.update_scores(&txs, &mut scores, Change::Culled(1));
    scoring.update_scores(&txs, &mut scores, Change::RemovedAt(0));
    scoring.update_scores(&txs, &mut scores, Change::Event);
    assert_eq!(scores, vec![1000, 2000]);
}

#[test]
fn replacement_scenario_fee_1000_1100_1200() {
    let mut pool = small_pool(10, 5);
    assert_eq!(pool.import(record(1, 5, 1000, 100)), Ok(()));
    // 1100 < 1000 + 125: rejected, the stored record stays
    assert_eq!(pool.import(record(1, 5, 1100, 101)), Err(Error::TooCheapToReplace));
    assert_eq!(pool.len(), 1);
    // 1200 >= 1125: replaces
    assert_eq!(pool.import(record(1, 5, 1200, 102)), Ok(()));
    assert_eq!(pool.len(), 1);
    let survivor = pool.remove(102).expect("replacement should be queued");
    assert_eq!(survivor.transaction.gas_price, 1200);
    assert!(pool.remove(100).is_none());
    assert!(pool.remove(101).is_none());
}

#[test]
fn duplicate_hash_is_refused() {
    let mut pool = small_pool(10, 5);
    assert_eq!(pool.import(record(1, 5, 1000, 100)), Ok(()));
    assert_eq!(pool.import(record(1, 5, 1200, 100)), Err(Error::AlreadyImported));
}

#[test]
fn sender_ceiling_errors_on_offending_import() {
    let mut pool = small_pool(10, 2);
    assert_eq!(pool.import(record(1, 5, 1000, 100)), Ok(()));
    assert_eq!(pool.import(record(1, 6, 1000, 101)), Ok(()));
    // a third record with a later nonce exceeds the per-sender ceiling
    assert_eq!(pool.import(record(1, 7, 9000, 102)), Err(Error::SenderIsFull));
    // another sender is unaffected
    assert_eq!(pool.import(record(2, 7, 1000, 103)), Ok(()));
}

#[test]
fn sender_ceiling_prefers_earlier_nonce() {
    let mut pool = small_pool(10, 2);
    assert_eq!(pool.import(record(1, 5, 1000, 100)), Ok(()));
    assert_eq!(pool.import(record(1, 6, 1000, 101)), Ok(()));
    // an earlier nonce ousts the sender's latest queued record
    assert_eq!(pool.import(record(1, 4, 1, 102)), Ok(()));
    assert_eq!(pool.len(), 2);
    assert!(pool.remove(101).is_none(), "the nonce-6 record should be evicted");
    assert!(pool.remove(102).is_some());
    assert!(pool.remove(100).is_some());
}

#[test]
fn global_ceiling_errors_on_offending_import() {
    let mut pool = small_pool(3, 3);
    assert_eq!(pool.import(record(1, 1, 500, 100)), Ok(()));
    assert_eq!(pool.import(record(2, 2, 600, 101)), Ok(()));
    assert_eq!(pool.import(record(3, 3, 700, 102)), Ok(()));
    // full, and the incoming record displaces nothing: capacity error
    assert_eq!(pool.import(record(4, 4, 9000, 103)), Err(Error::PoolIsFull));
    assert_eq!(pool.len(), 3);
}

#[test]
fn global_ceiling_sacrifices_worst_under_fee_bump() {
    let mut pool = small_pool(3, 3);
    assert_eq!(pool.import(record(1, 1, 500, 100)), Ok(()));
    assert_eq!(pool.import(record(2, 1, 600, 101)), Ok(()));
    assert_eq!(pool.import(record(3, 2, 700, 102)), Ok(()));
    // full; the worst-scored record is the fee-500 one at nonce 1, and the
    // incoming record contends for the same nonce with 563 >= 500 + 62
    assert_eq!(pool.import(record(4, 1, 563, 103)), Ok(()));
    assert_eq!(pool.len(), 3);
    assert!(pool.remove(100).is_none(), "the fee-500 record should be evicted");
    assert!(pool.remove(103).is_some());
}

#[test]
fn ready_state_machine_verdicts() {
    let mut ready = PrivateReadyState::new(nonces(vec![(1, 5)]));
    // below the expected nonce: stale
    assert_eq!(ready.is_ready(&record(1, 4, 1000, 100)), Readiness::Stale);
    // above: future
    assert_eq!(ready.is_ready(&record(1, 7, 1000, 101)), Readiness::Future);
    // exactly the expected nonce: ready, once
    assert_eq!(ready.is_ready(&record(1, 5, 1000, 102)), Readiness::Ready);
    // the sender claimed its slot: everything further is future
    assert_eq!(ready.is_ready(&record(1, 6, 1000, 103)), Readiness::Future);
    assert_eq!(ready.is_ready(&record(1, 4, 1000, 104)), Readiness::Future);
    // an unlisted sender is expected at nonce zero
    assert_eq!(ready.is_ready(&record(9, 0, 1000, 105)), Readiness::Ready);
}

#[test]
fn account_nonce_reads_first_table_entry() {
    let table = nonces(vec![(1, 5), (1, 9), (2, 3)]);
    assert_eq!(table.account_nonce(1), 5);
    assert_eq!(table.account_nonce(2), 3);
    assert_eq!(table.account_nonce(4), 0);
}

#[test]
fn pending_extracts_one_record_per_sender() {
    let mut pool = small_pool(10, 5);
    pool.import(record(1, 5, 1000, 100)).unwrap();
    pool.import(record(1, 6, 1000, 101)).unwrap();
    pool.import(record(1, 7, 1000, 102)).unwrap();
    pool.import(record(2, 3, 1000, 103)).unwrap();
    let hashes = pool.pending(nonces(vec![(1, 5), (2, 3)]));
    assert_eq!(hashes.len(), 2);
    assert!(hashes.contains(&100));
    assert!(hashes.contains(&103));
}

#[test]
fn stale_records_are_never_drained() {
    let mut pool = small_pool(10, 5);
    pool.import(record(1, 4, 1000, 100)).unwrap();
    pool.import(record(1, 3, 1000, 101)).unwrap();
    let hashes = pool.pending(nonces(vec![(1, 5)]));
    assert!(hashes.is_empty());
}

#[test]
fn three_nonces_drain_exactly_the_first() {
    // external nonce 5; queued nonces 5, 6, 7: one pass extracts only 5
    let mut pool = small_pool(10, 5);
    pool.import(record(1, 5, 1000, 100)).unwrap();
    pool.import(record(1, 6, 1000, 101)).unwrap();
    pool.import(record(1, 7, 1000, 102)).unwrap();
    let hashes = pool.pending(nonces(vec![(1, 5)]));
    assert_eq!(hashes, vec![100]);
    assert!(pool.remove(100).is_some());
    // the tracker is reseeded per pass from the same external nonce: the
    // later nonces stay future
    let again = pool.pending(nonces(vec![(1, 5)]));
    assert!(again.is_empty());
}

#[test]
fn store_drain_removes_exactly_the_ready_records() {
    let store = VerificationStore::default();
    let payload = PrivateTransaction { encrypted: vec![1, 2, 3], contract: 7 };
    store
        .add_transaction(SignedTransaction { nonce: 5, gas_price: 1000, sender: 1, hash: 100 }, None, payload)
        .unwrap();
    store
        .add_transaction(
            SignedTransaction { nonce: 6, gas_price: 1000, sender: 1, hash: 101 },
            Some(77),
            PrivateTransaction { encrypted: vec![4], contract: 7 },
        )
        .unwrap();
    let drained = store.drain(nonces(vec![(1, 5)]));
    assert_eq!(drained.len(), 1);
    assert_eq!(drained[0].transaction_hash, 100);
    assert_eq!(drained[0].transaction.nonce, 5);
    assert_eq!(drained[0].transaction_sender, 1);
    // same external nonce: the nonce-6 record remains future
    let again = store.drain(nonces(vec![(1, 5)]));
    assert!(again.is_empty());
    // once the chain advances, it becomes ready
    let after = store.drain(nonces(vec![(1, 6)]));
    assert_eq!(after.len(), 1);
    assert_eq!(after[0].transaction_hash, 101);
    assert_eq!(after[0].validator_account, Some(77));
}

#[test]
fn no_drain_returns_two_records_of_one_sender() {
    let store = VerificationStore::default();
    for (nonce, hash) in [(5u64, 100u64), (6, 101), (7, 102)] {
        store
            .add_transaction(
                SignedTransaction { nonce, gas_price: 1000, sender: 1, hash },
                None,
                PrivateTransaction { encrypted: vec![], contract: 7 },
            )
            .unwrap();
    }
    store
        .add_transaction(
            SignedTransaction { nonce: 2, gas_price: 1000, sender: 2, hash: 103 },
            None,
            PrivateTransaction { encrypted: vec![], contract: 7 },
        )
        .unwrap();
    let drained = store.drain(nonces(vec![(1, 5), (2, 2)]));
    assert_eq!(drained.len(), 2);
    assert_ne!(drained[0].transaction_sender, drained[1].transaction_sender);
}

#[test]
fn store_verification_options_are_the_fixed_policy() {
    let store = VerificationStore::default();
    let opts = store.verification_options();
    assert_eq!(opts.minimal_gas_price, 0);
    assert_eq!(opts.block_gas_limit, 8_000_000);
    assert_eq!(opts.tx_gas_limit, u64::MAX);
}
