use sluice::credit::CreditBalance;

#[test]
fn test_new_starts_at_zero() {
    let balance = CreditBalance::new();
    assert_eq!(balance.available(), 0);
}

#[test]
fn test_with_initial() {
    let balance = CreditBalance::with_initial(10);
    assert_eq!(balance.available(), 10);
}

#[test]
fn test_add_credits() {
    let mut balance = CreditBalance::new();
    assert_eq!(balance.add(5), 5);
    assert_eq!(balance.add(3), 8);
    assert_eq!(balance.available(), 8);
}

#[test]
fn test_try_consume_success() {
    let mut balance = CreditBalance::with_initial(2);
    assert!(balance.try_consume());
    assert_eq!(balance.available(), 1);
    assert!(balance.try_consume());
    assert_eq!(balance.available(), 0);
}

#[test]
fn test_try_consume_empty() {
    let mut balance = CreditBalance::new();
    assert!(!balance.try_consume());
    assert_eq!(balance.available(), 0);
}

#[test]
fn test_try_consume_many() {
    let mut balance = CreditBalance::with_initial(5);
    assert_eq!(balance.try_consume_many(3), 3);
    assert_eq!(balance.available(), 2);
    assert_eq!(balance.try_consume_many(5), 2);
    assert_eq!(balance.available(), 0);
}

#[test]
fn test_reset() {
    let mut balance = CreditBalance::with_initial(10);
    assert_eq!(balance.reset(), 10);
    assert_eq!(balance.available(), 0);
}

#[test]
fn credit_add_saturates_at_u32_max() {
    let mut balance = CreditBalance::with_initial(u32::MAX - 1);
    assert_eq!(balance.add(5), u32::MAX);
    assert_eq!(balance.available(), u32::MAX);
}

#[test]
fn credit_never_goes_below_zero() {
    let mut balance = CreditBalance::with_initial(1);
    assert_eq!(balance.try_consume_many(u32::MAX), 1);
    assert_eq!(balance.try_consume_many(1), 0);
    assert!(!balance.try_consume());
    assert_eq!(balance.available(), 0);
}

#[test]
fn credit_default_is_empty() {
    let balance = CreditBalance::default();
    assert_eq!(balance.available(), 0);
}
