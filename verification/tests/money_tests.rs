use naviin::errors::LedgerError;
use naviin::money::Money;

#[test]
fn test_parse_whole_number() {
    assert_eq!(Money::parse("150").unwrap().units(), 1_500_000);
}

#[test]
fn test_parse_two_decimals() {
    assert_eq!(Money::parse("150.75").unwrap().units(), 1_507_500);
}

#[test]
fn test_parse_fraction_only() {
    assert_eq!(Money::parse("0.5").unwrap().units(), 5_000);
    assert_eq!(Money::parse(".5").unwrap().units(), 5_000);
}

#[test]
fn test_parse_four_decimals() {
    assert_eq!(Money::parse("1.2345").unwrap().units(), 12_345);
}

#[test]
fn test_parse_zero() {
    assert_eq!(Money::parse("0").unwrap().units(), 0);
}

#[test]
fn test_parse_rejects_garbage() {
    assert_eq!(Money::parse("").unwrap_err(), LedgerError::InvalidAmount);
    assert_eq!(Money::parse("abc").unwrap_err(), LedgerError::InvalidAmount);
    assert_eq!(Money::parse("1.").unwrap_err(), LedgerError::InvalidAmount);
    assert_eq!(Money::parse("1.23456").unwrap_err(), LedgerError::InvalidAmount);
    assert_eq!(Money::parse("-5").unwrap_err(), LedgerError::InvalidAmount);
    assert_eq!(Money::parse("1,5").unwrap_err(), LedgerError::InvalidAmount);
    assert_eq!(Money::parse("1.2.3").unwrap_err(), LedgerError::InvalidAmount);
}

#[test]
fn test_parse_rejects_overflow() {
    // Far beyond what the fixed-point representation can hold.
    assert_eq!(
        Money::parse("9223372036854775807").unwrap_err(),
        LedgerError::InvalidAmount
    );
}

#[test]
fn test_times_price_exact() {
    let qty = Money::parse("10").unwrap();
    let price = Money::parse("150").unwrap();
    let cost = qty.times_price(price).unwrap();
    assert_eq!(cost, Money::parse("1500").unwrap());
}

#[test]
fn test_times_price_fractional() {
    let qty = Money::parse("0.5").unwrap();
    let price = Money::parse("150").unwrap();
    assert_eq!(qty.times_price(price).unwrap(), Money::parse("75").unwrap());
}

#[test]
fn test_checked_plus_overflow() {
    let a = Money::from_units(i64::MAX);
    let b = Money::from_units(1);
    assert!(a.checked_plus(b).is_none());
    assert_eq!(
        Money::from_units(2).checked_plus(Money::from_units(3)).unwrap(),
        Money::from_units(5)
    );
}

#[test]
fn test_weighted_avg_midpoint() {
    let q = Money::parse("10").unwrap();
    let avg = Money::weighted_avg(
        q,
        Money::parse("100").unwrap(),
        q,
        Money::parse("200").unwrap(),
    );
    assert_eq!(avg, Money::parse("150").unwrap());
}

#[test]
fn test_comparisons() {
    let a = Money::parse("1.5").unwrap();
    let b = Money::parse("2").unwrap();
    assert!(a < b);
    assert!(b > a);
    assert!(a <= a);
    assert_eq!(a, Money::from_units(15_000));
}

#[test]
fn test_error_messages() {
    assert_eq!(LedgerError::InvalidAmount.message(), "Invalid amount");
    assert_eq!(LedgerError::InsufficientBalance.message(), "Insufficient balance");
    assert_eq!(LedgerError::InsufficientFunds.message(), "Insufficient funds");
    assert_eq!(LedgerError::InsufficientHoldings.message(), "Insufficient holdings");
    assert_eq!(LedgerError::PriceUnavailable.message(), "Price unavailable");
}
