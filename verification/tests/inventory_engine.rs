use order_coordination::inventory::{InventoryStore, StockError};

fn sku(s: &str) -> String {
    s.to_string()
}

fn store_with(entries: &[(&str, i32)]) -> InventoryStore {
    let mut store = InventoryStore::new();
    for (name, quantity) in entries {
        assert!(store.initialize_if_absent(sku(name), *quantity));
    }
    store
}

#[test]
fn new_store_has_no_records() {
    let store = InventoryStore::new();
    assert_eq!(store.get_quantity(&sku("A")), None);
    assert!(store.records().is_empty());
}

#[test]
fn get_quantity_reads_without_changing() {
    let store = store_with(&[("A", 10), ("B", 0)]);
    assert_eq!(store.get_quantity(&sku("A")), Some(10));
    assert_eq!(store.get_quantity(&sku("A")), Some(10));
    assert_eq!(store.get_quantity(&sku("B")), Some(0));
    assert_eq!(store.get_quantity(&sku("C")), None);
}

#[test]
fn decrement_returns_new_quantity() {
    let mut store = store_with(&[("A", 10), ("B", 7)]);
    assert_eq!(store.try_decrement(&sku("A"), 4), Ok(6));
    assert_eq!(store.get_quantity(&sku("A")), Some(6));
    assert_eq!(store.get_quantity(&sku("B")), Some(7));
}

#[test]
fn decrement_to_zero_is_granted() {
    let mut store = store_with(&[("A", 10)]);
    assert_eq!(store.try_decrement(&sku("A"), 10), Ok(0));
    assert_eq!(store.try_decrement(&sku("A"), 1), Err(StockError::InsufficientStock));
    assert_eq!(store.get_quantity(&sku("A")), Some(0));
}

#[test]
fn decrement_beyond_stock_is_rejected_not_clamped() {
    let mut store = store_with(&[("A", 3)]);
    assert_eq!(store.try_decrement(&sku("A"), 4), Err(StockError::InsufficientStock));
    assert_eq!(store.get_quantity(&sku("A")), Some(3));
}

#[test]
fn decrement_of_unknown_article_is_not_found() {
    let mut store = store_with(&[("A", 3)]);
    assert_eq!(store.try_decrement(&sku("B"), 1), Err(StockError::NotFound));
    assert_eq!(store.get_quantity(&sku("A")), Some(3));
    assert_eq!(store.get_quantity(&sku("B")), None);
}

#[test]
fn granted_decrements_never_exceed_initial_stock() {
    let amounts = [4, 5, 3, 1, 2];
    let mut store = store_with(&[("A", 10)]);
    let mut granted = 0;
    let mut answers = Vec::new();
    for amount in amounts {
        let answer = store.try_decrement(&sku("A"), amount);
        if answer.is_ok() {
            granted += amount;
        }
        answers.push(answer);
    }
    assert_eq!(
        answers,
        vec![
            Ok(6),
            Ok(1),
            Err(StockError::InsufficientStock),
            Ok(0),
            Err(StockError::InsufficientStock)
        ]
    );
    assert_eq!(granted, 10);
    assert_eq!(store.get_quantity(&sku("A")), Some(10 - granted));
}

#[test]
fn granted_decrements_in_another_order() {
    let amounts = [3, 5, 4, 2, 1];
    let mut store = store_with(&[("A", 10)]);
    let mut granted = 0;
    for amount in amounts {
        if store.try_decrement(&sku("A"), amount).is_ok() {
            granted += amount;
        }
    }
    assert_eq!(granted, 10);
    assert_eq!(store.get_quantity(&sku("A")), Some(0));
}

#[test]
fn seeding_twice_is_seeding_once() {
    let mut once = InventoryStore::new();
    assert!(once.initialize_if_absent(sku("A"), 100));
    let mut twice = InventoryStore::new();
    assert!(twice.initialize_if_absent(sku("A"), 100));
    assert!(!twice.initialize_if_absent(sku("A"), 100));
    assert_eq!(once.get_quantity(&sku("A")), twice.get_quantity(&sku("A")));
    assert_eq!(twice.records().len(), 1);
}

#[test]
fn seeding_does_not_reset_quantity() {
    let mut store = InventoryStore::new();
    assert!(store.initialize_if_absent(sku("A"), 100));
    assert_eq!(store.try_decrement(&sku("A"), 30), Ok(70));
    assert!(!store.initialize_if_absent(sku("A"), 100));
    assert_eq!(store.get_quantity(&sku("A")), Some(70));
    assert!(!store.initialize_if_absent(sku("A"), 5));
    assert_eq!(store.get_quantity(&sku("A")), Some(70));
}

#[test]
fn set_quantity_overrides_existing_record() {
    let mut store = store_with(&[("A", 10), ("B", 2)]);
    assert_eq!(store.set_quantity(&sku("A"), 0), Ok(()));
    assert_eq!(store.get_quantity(&sku("A")), Some(0));
    assert_eq!(store.set_quantity(&sku("A"), 55), Ok(()));
    assert_eq!(store.get_quantity(&sku("A")), Some(55));
    assert_eq!(store.get_quantity(&sku("B")), Some(2));
}

#[test]
fn set_quantity_of_unknown_article_is_not_found() {
    let mut store = store_with(&[("A", 10)]);
    assert_eq!(store.set_quantity(&sku("Z"), 5), Err(StockError::NotFound));
    assert_eq!(store.get_quantity(&sku("Z")), None);
    assert_eq!(store.records().len(), 1);
}

#[test]
fn restock_adds_to_record() {
    let mut store = store_with(&[("A", 10)]);
    assert_eq!(store.restock(&sku("A"), 5), Some(15));
    assert_eq!(store.get_quantity(&sku("A")), Some(15));
}

#[test]
fn restock_refuses_unknown_article_and_overflow() {
    let mut store = store_with(&[("A", i32::MAX - 1)]);
    assert_eq!(store.restock(&sku("B"), 1), None);
    assert_eq!(store.restock(&sku("A"), 2), None);
    assert_eq!(store.get_quantity(&sku("A")), Some(i32::MAX - 1));
    assert_eq!(store.restock(&sku("A"), 1), Some(i32::MAX));
}

#[test]
fn records_keep_creation_order() {
    let store = store_with(&[("B", 1), ("A", 2)]);
    let records = store.records();
    assert_eq!(records.len(), 2);
    assert_eq!(records[0].sku, "B");
    assert_eq!(records[0].quantity, 1);
    assert_eq!(records[1].sku, "A");
    assert_eq!(records[1].quantity, 2);
}
