use wallet_registry::registry::WalletRegistry;
use wallet_registry::wallet::WalletError;

#[test]
fn created_ids_start_at_one_and_increase() {
    let mut r = WalletRegistry::new();
    let a = r.create("first".to_string(), "BTC".to_string());
    let b = r.create("second".to_string(), "ETH".to_string());
    let c = r.create("third".to_string(), "SOL".to_string());
    assert_eq!(a, 1);
    assert_eq!(b, 2);
    assert_eq!(c, 3);
}

#[test]
fn ids_are_not_reused_after_delete() {
    let mut r = WalletRegistry::new();
    let a = r.create("a".to_string(), "BTC".to_string());
    assert_eq!(a, 1);
    assert!(r.delete(a));
    let b = r.create("b".to_string(), "BTC".to_string());
    assert_eq!(b, 2);
}

#[test]
fn create_then_find_round_trip() {
    let mut r = WalletRegistry::new();
    let id = r.create("A".to_string(), "BTC".to_string());
    let w = r.find(id).expect("the created wallet must be found");
    assert_eq!(w.id, id);
    assert_eq!(w.name, "A");
    assert_eq!(w.coin_type, "BTC");
    assert_eq!(w.balance, 0);
}

#[test]
fn find_absent_id_returns_none() {
    let mut r = WalletRegistry::new();
    assert!(r.find(1).is_none());
    r.create("a".to_string(), "BTC".to_string());
    assert!(r.find(2).is_none());
}

#[test]
fn deposit_increases_balance_by_exactly_the_amount() {
    let mut r = WalletRegistry::new();
    let id = r.create("a".to_string(), "BTC".to_string());
    assert_eq!(r.deposit(id, 10), Ok(10));
    assert_eq!(r.find(id).unwrap().balance, 10);
    assert_eq!(r.deposit(id, 5), Ok(15));
    assert_eq!(r.find(id).unwrap().balance, 15);
}

#[test]
fn deposit_rejects_non_positive_amount_and_changes_nothing() {
    let mut r = WalletRegistry::new();
    let id = r.create("a".to_string(), "BTC".to_string());
    assert_eq!(r.deposit(id, 7), Ok(7));
    assert_eq!(r.deposit(id, 0), Err(WalletError::InvalidAmount));
    assert_eq!(r.deposit(id, -3), Err(WalletError::InvalidAmount));
    assert_eq!(r.find(id).unwrap().balance, 7);
}

#[test]
fn deposit_on_empty_registry_reports_no_wallets() {
    let mut r = WalletRegistry::new();
    assert_eq!(r.deposit(1, 10), Err(WalletError::NoWallets));
}

#[test]
fn deposit_on_unknown_id_fails_not_found_and_mutates_nothing() {
    let mut r = WalletRegistry::new();
    let id = r.create("a".to_string(), "BTC".to_string());
    assert_eq!(r.deposit(id, 4), Ok(4));
    assert_eq!(r.deposit(id + 1, 10), Err(WalletError::NotFound));
    assert_eq!(r.list().len(), 1);
    assert_eq!(r.find(id).unwrap().balance, 4);
}

#[test]
fn withdraw_decreases_balance_by_exactly_the_amount() {
    let mut r = WalletRegistry::new();
    let id = r.create("a".to_string(), "BTC".to_string());
    assert_eq!(r.deposit(id, 10), Ok(10));
    assert_eq!(r.withdraw(id, 4), Ok(6));
    assert_eq!(r.find(id).unwrap().balance, 6);
    assert_eq!(r.withdraw(id, 6), Ok(0));
    assert_eq!(r.find(id).unwrap().balance, 0);
}

#[test]
fn withdraw_rejects_non_positive_amount_and_changes_nothing() {
    let mut r = WalletRegistry::new();
    let id = r.create("a".to_string(), "BTC".to_string());
    assert_eq!(r.deposit(id, 9), Ok(9));
    assert_eq!(r.withdraw(id, 0), Err(WalletError::InvalidAmount));
    assert_eq!(r.withdraw(id, -1), Err(WalletError::InvalidAmount));
    assert_eq!(r.find(id).unwrap().balance, 9);
}

#[test]
fn withdraw_more_than_balance_is_rejected_and_changes_nothing() {
    let mut r = WalletRegistry::new();
    let id = r.create("a".to_string(), "BTC".to_string());
    assert_eq!(r.deposit(id, 5), Ok(5));
    assert_eq!(r.withdraw(id, 6), Err(WalletError::InsufficientFunds));
    assert_eq!(r.find(id).unwrap().balance, 5);
}

#[test]
fn withdraw_on_empty_registry_reports_no_wallets() {
    let mut r = WalletRegistry::new();
    assert_eq!(r.withdraw(1, 1), Err(WalletError::NoWallets));
}

#[test]
fn withdraw_on_unknown_id_fails_not_found_and_mutates_nothing() {
    let mut r = WalletRegistry::new();
    let id = r.create("a".to_string(), "BTC".to_string());
    assert_eq!(r.deposit(id, 4), Ok(4));
    assert_eq!(r.withdraw(id + 1, 2), Err(WalletError::NotFound));
    assert_eq!(r.list().len(), 1);
    assert_eq!(r.find(id).unwrap().balance, 4);
}

#[test]
fn delete_removes_exactly_the_matching_record() {
    let mut r = WalletRegistry::new();
    let a = r.create("a".to_string(), "BTC".to_string());
    let b = r.create("b".to_string(), "ETH".to_string());
    let c = r.create("c".to_string(), "SOL".to_string());
    assert!(r.delete(b));
    let left = r.list();
    assert_eq!(left.len(), 2);
    assert_eq!(left[0].id, a);
    assert_eq!(left[1].id, c);
}

#[test]
fn delete_of_absent_id_leaves_the_collection_unchanged() {
    let mut r = WalletRegistry::new();
    let a = r.create("a".to_string(), "BTC".to_string());
    assert!(!r.delete(a + 1));
    assert_eq!(r.list().len(), 1);
    assert_eq!(r.list()[0].id, a);
    assert!(!r.delete(a + 1));
    assert_eq!(r.list().len(), 1);
}

#[test]
fn delete_on_empty_registry_reports_nothing_to_delete() {
    let mut r = WalletRegistry::new();
    assert!(!r.delete(1));
    assert!(r.is_empty());
}

#[test]
fn listing_empty_registry_is_distinct_from_populated() {
    let mut r = WalletRegistry::new();
    assert!(r.is_empty());
    assert_eq!(r.list().len(), 0);
    r.create("a".to_string(), "BTC".to_string());
    assert!(!r.is_empty());
    assert_eq!(r.list().len(), 1);
}

#[test]
fn full_session_scenario() {
    let mut r = WalletRegistry::new();
    let id = r.create("main".to_string(), "BTC".to_string());
    assert_eq!(id, 1);
    assert_eq!(r.find(id).unwrap().balance, 0);
    assert_eq!(r.deposit(id, 10), Ok(10));
    assert_eq!(r.withdraw(id, 3), Ok(7));
    assert_eq!(r.withdraw(id, 100), Err(WalletError::InsufficientFunds));
    assert_eq!(r.find(id).unwrap().balance, 7);
    assert!(r.delete(id));
    assert!(r.is_empty());
    assert!(!r.delete(id));
}
