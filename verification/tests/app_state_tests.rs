use naviin::app_state::AppState;
use naviin::money::Money;

fn m(s: &str) -> Money {
    Money::parse(s).unwrap()
}

#[test]
fn test_deposit_and_balance() {
    // Arrange: Create a new AppState
    let mut state = AppState::new();

    // Act: Deposit 100.0 into the account
    let _ = state.deposit(m("100"));

    // Assert: Use the public `check_balance` method to verify the result
    assert_eq!(state.check_balance(), m("100"));
}

#[test]
fn test_withdraw_and_balance() {
    // Arrange: Create an AppState with an initial balance
    let mut state = AppState::new();
    let _ = state.deposit(m("100"));

    // Act: Withdraw 50.0
    let _ = state.withdraw(m("50"));

    // Assert: Check the final balance
    assert_eq!(state.check_balance(), m("50"));
}

#[test]
fn test_withdraw_with_invalid_amount() {
    // Arrange
    let mut state = AppState::new();
    let _ = state.deposit(m("100"));

    // Act: Withdraw a negative amount
    let _ = state.withdraw(Money::from_units(-500_000));

    // Assert: The balance should not have changed
    assert_eq!(state.check_balance(), m("100"));
}
