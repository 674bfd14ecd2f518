use order_coordination::coordinator::OrderError;
use order_coordination::inventory::StockError;
use order_coordination::model::{Order, OrderItem};
use order_coordination::saga::{action, advance, start, Action, Phase, Reply};

fn order(quantities: &[i32], total: u64) -> Order {
    let items = quantities
        .iter()
        .map(|q| OrderItem { sku: "A".to_string(), quantity: *q, price: 1 })
        .collect();
    Order { order_id: 0, items, total }
}

#[test]
fn start_rejects_inconsistent_request() {
    let phase = start(&order(&[2, 3], 6));
    assert_eq!(phase, Phase::Failed { cause: OrderError::Validation });
    assert_eq!(action(phase), Action::Finish);
    assert_eq!(start(&order(&[0], 0)), Phase::Failed { cause: OrderError::Validation });
}

#[test]
fn start_reserves_first_line() {
    let phase = start(&order(&[2, 3], 5));
    assert_eq!(phase, Phase::Reserving { line: 0 });
    assert_eq!(action(phase), Action::Decrement { line: 0 });
    assert_eq!(start(&order(&[], 0)), Phase::Persisting);
}

#[test]
fn happy_path_visits_every_phase() {
    let mut phase = start(&order(&[2, 3], 5));
    let mut actions = vec![action(phase)];
    while action(phase) != Action::Finish {
        phase = advance(phase, Reply::Done, 2);
        actions.push(action(phase));
    }
    assert_eq!(
        actions,
        vec![
            Action::Decrement { line: 0 },
            Action::Decrement { line: 1 },
            Action::Persist,
            Action::Publish,
            Action::Finish
        ]
    );
    assert_eq!(phase, Phase::Placed { delivered: true });
}

#[test]
fn refusal_rolls_back_the_prefix() {
    let phase = advance(Phase::Reserving { line: 0 }, Reply::Done, 3);
    let phase = advance(phase, Reply::Done, 3);
    assert_eq!(phase, Phase::Reserving { line: 2 });
    let phase = advance(phase, Reply::Refused(StockError::InsufficientStock), 3);
    assert_eq!(phase, Phase::RollingBack { line: 1, cause: OrderError::InsufficientStock });
    assert_eq!(action(phase), Action::Restock { line: 1 });
    let phase = advance(phase, Reply::Done, 3);
    assert_eq!(phase, Phase::RollingBack { line: 0, cause: OrderError::InsufficientStock });
    let phase = advance(phase, Reply::Done, 3);
    assert_eq!(phase, Phase::Failed { cause: OrderError::InsufficientStock });
}

#[test]
fn refusal_of_first_line_fails_at_once() {
    let phase = advance(Phase::Reserving { line: 0 }, Reply::Refused(StockError::NotFound), 2);
    assert_eq!(phase, Phase::Failed { cause: OrderError::NotFound });
    let phase = advance(Phase::Reserving { line: 0 }, Reply::Unavailable, 2);
    assert_eq!(phase, Phase::Failed { cause: OrderError::Transient });
}

#[test]
fn unavailable_ledger_rolls_back_as_transient() {
    let phase = advance(Phase::Reserving { line: 1 }, Reply::Unavailable, 2);
    assert_eq!(phase, Phase::RollingBack { line: 0, cause: OrderError::Transient });
}

#[test]
fn persistence_failure_rolls_back_every_line() {
    let phase = advance(Phase::Persisting, Reply::Unavailable, 2);
    assert_eq!(phase, Phase::RollingBack { line: 1, cause: OrderError::Transient });
    let phase = advance(phase, Reply::Done, 2);
    let phase = advance(phase, Reply::Done, 2);
    assert_eq!(phase, Phase::Failed { cause: OrderError::Transient });
    let empty = advance(Phase::Persisting, Reply::Unavailable, 0);
    assert_eq!(empty, Phase::Failed { cause: OrderError::Transient });
}

#[test]
fn publish_failure_is_a_delivery_gap() {
    assert_eq!(advance(Phase::Persisting, Reply::Done, 2), Phase::Publishing);
    assert_eq!(action(Phase::Publishing), Action::Publish);
    let phase = advance(Phase::Publishing, Reply::Unavailable, 2);
    assert_eq!(phase, Phase::Placed { delivered: false });
    assert_eq!(action(phase), Action::Finish);
}

#[test]
fn failed_restock_is_an_integrity_error() {
    let phase = Phase::RollingBack { line: 1, cause: OrderError::NotFound };
    let phase = advance(phase, Reply::Unavailable, 2);
    assert_eq!(phase, Phase::RollingBack { line: 0, cause: OrderError::Integrity });
    let phase = advance(phase, Reply::Done, 2);
    assert_eq!(phase, Phase::Failed { cause: OrderError::Integrity });
}

#[test]
fn final_phases_stay() {
    let placed = Phase::Placed { delivered: true };
    assert_eq!(advance(placed, Reply::Unavailable, 2), placed);
    let failed = Phase::Failed { cause: OrderError::Validation };
    assert_eq!(advance(failed, Reply::Done, 2), failed);
}
