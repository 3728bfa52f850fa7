use nvmebench::PairLedger;

#[test]
fn every_pair_taken_must_come_home() {
    let mut ledger = PairLedger::new(3);
    assert!(ledger.all_home());
    assert!(ledger.take());
    assert!(ledger.take());
    assert!(ledger.take());
    // The pool is exhausted: a fourth worker gets nothing.
    assert!(!ledger.take());
    assert!(!ledger.all_home());
    ledger.give_back();
    assert!(!ledger.all_home());
    ledger.give_back();
    ledger.give_back();
    assert!(ledger.all_home());
}

#[test]
fn an_empty_pool_is_trivially_home() {
    let mut ledger = PairLedger::new(0);
    assert!(ledger.all_home());
    assert!(!ledger.take());
    assert!(ledger.all_home());
}
