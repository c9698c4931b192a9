use private_tx::error::Error;
use private_tx::record::SignedTransaction;
use private_tx::signing::{Signature, SigningStore};
use private_tx::MAX_QUEUE_LEN;

fn tx(nonce: u64, hash: u64) -> SignedTransaction {
    SignedTransaction { nonce, gas_price: 1000, sender: 1, hash }
}

fn sig(r: u64) -> Signature {
    Signature { r, s: 17, v: 1 }
}

#[test]
fn add_transaction_registers_a_descriptor() {
    let mut store = SigningStore::default();
    assert_eq!(store.add_transaction(100, tx(5, 100), vec![10, 11], vec![1, 2, 3], 4), Ok(()));
    assert_eq!(store.len(), 1);
    let desc = store.get(100).expect("registered hash");
    assert_eq!(desc.original_transaction.nonce, 5);
    assert_eq!(desc.validators, vec![10, 11]);
    assert!(desc.received_signatures.is_empty());
    assert_eq!(desc.state, vec![1, 2, 3]);
    assert_eq!(desc.contract_nonce, 4);
    assert!(store.get(101).is_none());
}

#[test]
fn resubmission_overwrites_whole_descriptor() {
    let mut store = SigningStore::default();
    store.add_transaction(100, tx(5, 100), vec![10], vec![1], 4).unwrap();
    store.add_signature(100, sig(1)).unwrap();
    // a second registration replaces the record whole: the signatures
    // received for the earlier round are gone
    store.add_transaction(100, tx(5, 100), vec![10, 11], vec![2], 5).unwrap();
    assert_eq!(store.len(), 1);
    let desc = store.get(100).unwrap();
    assert!(desc.received_signatures.is_empty());
    assert_eq!(desc.contract_nonce, 5);
    assert_eq!(desc.state, vec![2]);
}

#[test]
fn ledger_at_capacity_fails_with_queue_is_full() {
    let mut store = SigningStore::default();
    for i in 0..MAX_QUEUE_LEN as u64 {
        assert_eq!(store.add_transaction(i, tx(1, i), vec![], vec![], 0), Ok(()));
    }
    assert_eq!(store.len(), MAX_QUEUE_LEN);
    // the offending registration fails, and no earlier entry is dropped
    assert_eq!(
        store.add_transaction(999_999, tx(1, 999_999), vec![], vec![], 0),
        Err(Error::QueueIsFull)
    );
    assert_eq!(store.len(), MAX_QUEUE_LEN);
    assert!(store.get(0).is_some());
    assert!(store.get(999_999).is_none());
}

#[test]
fn add_signature_deduplicates_by_value() {
    let mut store = SigningStore::default();
    store.add_transaction(100, tx(5, 100), vec![10], vec![], 0).unwrap();
    assert_eq!(store.add_signature(100, sig(1)), Ok(()));
    assert_eq!(store.add_signature(100, sig(1)), Ok(()));
    // submitting an identical signature twice leaves exactly one copy
    assert_eq!(store.get(100).unwrap().received_signatures, vec![sig(1)]);
    assert_eq!(store.add_signature(100, sig(2)), Ok(()));
    assert_eq!(store.get(100).unwrap().received_signatures, vec![sig(1), sig(2)]);
}

#[test]
fn add_signature_against_unknown_hash_fails() {
    let mut store = SigningStore::default();
    store.add_transaction(100, tx(5, 100), vec![], vec![], 0).unwrap();
    assert_eq!(store.add_signature(101, sig(1)), Err(Error::PrivateTransactionNotFound));
    // the failure disturbs nothing
    assert_eq!(store.len(), 1);
    assert!(store.get(100).unwrap().received_signatures.is_empty());
}

#[test]
fn remove_is_idempotent_and_always_succeeds() {
    let mut store = SigningStore::default();
    store.add_transaction(100, tx(5, 100), vec![], vec![], 0).unwrap();
    store.add_transaction(101, tx(6, 101), vec![], vec![], 0).unwrap();
    assert_eq!(store.remove(100), Ok(()));
    assert!(store.get(100).is_none());
    assert!(store.get(101).is_some());
    assert_eq!(store.remove(100), Ok(()));
    assert_eq!(store.remove(555), Ok(()));
    assert_eq!(store.len(), 1);
}

#[test]
fn get_returns_a_copy_not_a_live_view() {
    let mut store = SigningStore::default();
    store.add_transaction(100, tx(5, 100), vec![], vec![], 0).unwrap();
    let before = store.get(100).unwrap();
    store.add_signature(100, sig(1)).unwrap();
    // the copy taken earlier does not see the later mutation
    assert!(before.received_signatures.is_empty());
    assert_eq!(store.get(100).unwrap().received_signatures.len(), 1);
}
