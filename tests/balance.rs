use cerebro_broker::balance::{Balance, BalanceDelta, TokenBalance};
use cerebro_broker::instrument::Token;

#[test]
fn token_balance_new_should_create_token_balance() {
    let token = Token::from("BTC");
    let balance = Balance::new(100, 50);
    let token_balance = TokenBalance::new(token.clone(), balance);
    assert_eq!(token_balance.token, token);
    assert_eq!(token_balance.balance, balance);
}

#[test]
fn balance_new_should_create_balance() {
    let balance = Balance::new(100, 50);
    assert_eq!(balance.total, 100);
    assert_eq!(balance.available, 50);
}

#[test]
fn balance_used_should_return_used_balance() {
    let balance = Balance::new(100, 50);
    assert_eq!(balance.used(), 50);
}

#[test]
fn balance_apply_should_apply_balance_delta() {
    let mut balance = Balance::new(100, 50);
    let delta = BalanceDelta::new(10, 5);
    let _ = balance.apply(delta);
    assert_eq!(balance.total, 110);
    assert_eq!(balance.available, 55);
}

#[test]
fn balance_delta_new_should_create_balance_delta() {
    let delta = BalanceDelta::new(10, 5);
    assert_eq!(delta.total, 10);
    assert_eq!(delta.available, 5);
}

#[test]
fn balance_apply_rejects_a_negative_result() {
    let mut balance = Balance::new(100, 50);
    let before = balance;
    assert!(balance.apply(BalanceDelta::new(0, -51)).is_err());
    assert_eq!(balance, before);
    assert!(balance.apply(BalanceDelta::new(-101, 0)).is_err());
    assert_eq!(balance.total, 100);
}

#[test]
fn balance_delta_then_its_negation_is_identity() {
    let mut balance = Balance::new(100, 50);
    assert!(balance.apply(BalanceDelta::new(-30, -25)).is_ok());
    assert_eq!((balance.total, balance.available), (70, 25));
    assert!(balance.apply(BalanceDelta::new(30, 25)).is_ok());
    assert_eq!((balance.total, balance.available), (100, 50));
}

#[test]
fn balance_apply_rejects_available_above_total() {
    let mut balance = Balance::new(10, 10);
    assert!(balance.apply(BalanceDelta::new(-10, 0)).is_err());
    assert_eq!((balance.total, balance.available), (10, 10));
}
