use naviin::app_state::AppState;
use naviin::holdings::Holding;
use naviin::money::Money;
use naviin::orders::{OpenOrder, Side, Trade};

fn m(s: &str) -> Money {
    Money::parse(s).unwrap()
}

// ===== Integration Tests for the ledger =====

#[test]
fn test_complete_trading_workflow() {
    let mut state = AppState::new();

    // 1. Fund account
    let _ = state.deposit(m("10000"));
    assert_eq!(state.check_balance(), m("10000"));

    // 2. Simulate a purchase
    state.withdraw_purchase(m("1500"));
    assert_eq!(state.check_balance(), m("8500"));

    // 3. Add a trade
    let trade = Trade::buy("AAPL".to_string(), m("10"), m("150"));
    state.add_trade(trade);

    // 4. Simulate a sale
    state.deposit_sell(m("1600"));
    assert_eq!(state.check_balance(), m("10100"));
}

#[test]
fn test_limit_order_management() {
    let mut state = AppState::new();
    // Buy-side orders reserve cash, so the account is funded first.
    let _ = state.deposit(m("100000"));

    // Add multiple limit orders
    let order1 = OpenOrder::new("AAPL".to_string(), m("10"), m("145"), Side::Buy);
    let order2 = OpenOrder::new("GOOGL".to_string(), m("5"), m("2800"), Side::Buy);
    let order3 = OpenOrder::new("MSFT".to_string(), m("15"), m("340"), Side::Buy);

    assert!(state.add_open_order(order1.clone()).is_ok());
    assert!(state.add_open_order(order2.clone()).is_ok());
    assert!(state.add_open_order(order3.clone()).is_ok());

    // Verify all orders are present
    let orders = state.get_open_orders();
    assert_eq!(orders.len(), 3);

    // Remove one order
    state.remove_from_open_orders(order2);

    // Verify correct order was removed
    let orders = state.get_open_orders();
    assert_eq!(orders.len(), 2);

    // Verify remaining orders are correct
    assert_eq!(orders[0].get_symbol(), "AAPL");
    assert_eq!(orders[1].get_symbol(), "MSFT");
}

#[test]
fn test_multiple_trades_tracking() {
    let mut state = AppState::new();

    // Execute multiple trades
    let trade1 = Trade::buy("AAPL".to_string(), m("10"), m("150"));
    let trade2 = Trade::sell("GOOGL".to_string(), m("5"), m("2800"));
    let trade3 = Trade::buy("TSLA".to_string(), m("8"), m("250"));

    state.add_trade(trade1);
    state.add_trade(trade2);
    state.add_trade(trade3);

    // State should still be valid
    assert_eq!(state.check_balance(), m("0"));
}

#[test]
fn test_fund_withdraw_and_reset() {
    let mut state = AppState::new();

    // Fund account
    let _ = state.deposit(m("5000"));

    // Add some orders
    let order = OpenOrder::new("AAPL".to_string(), m("10"), m("150"), Side::Buy);
    assert!(state.add_open_order(order).is_ok());

    // Reset state
    state.reset();

    // Verify everything is reset
    assert_eq!(state.check_balance(), m("0"));
    assert!(state.get_open_orders().is_empty());
}

#[test]
fn test_concurrent_balance_operations() {
    let mut state = AppState::new();

    // Multiple deposits and withdrawals
    let _ = state.deposit(m("1000"));
    let _ = state.withdraw(m("200"));
    state.deposit_sell(m("500"));
    state.withdraw_purchase(m("300"));
    let _ = state.deposit(m("100"));

    // Expected: 1000 - 200 + 500 - 300 + 100 = 1100
    assert_eq!(state.check_balance(), m("1100"));
}

#[test]
fn test_order_removal_with_multiple_identical_symbols() {
    let mut state = AppState::new();
    // Buy-side orders reserve cash, so the account is funded first.
    let _ = state.deposit(m("10000"));

    // Add multiple orders for same symbol but different prices
    let order1 = OpenOrder::new("AAPL".to_string(), m("10"), m("145"), Side::Buy);
    let order2 = OpenOrder::new("AAPL".to_string(), m("10"), m("150"), Side::Buy);
    let order3 = OpenOrder::new("AAPL".to_string(), m("10"), m("155"), Side::Buy);

    assert!(state.add_open_order(order1.clone()).is_ok());
    assert!(state.add_open_order(order2.clone()).is_ok());
    assert!(state.add_open_order(order3.clone()).is_ok());

    // Remove middle order
    state.remove_from_open_orders(order2);

    // The book keeps buy-side orders for one symbol with the highest
    // price first.
    let orders = state.get_open_orders();
    assert_eq!(orders.len(), 2);
    assert_eq!(orders[0].get_price_per(), m("155"));
    assert_eq!(orders[1].get_price_per(), m("145"));
}

#[test]
fn test_empty_state_operations() {
    let state = AppState::new();

    // Operations on empty state should not panic
    assert_eq!(state.check_balance(), m("0"));
    assert!(state.get_holdings_map().is_empty());
    assert!(state.get_open_orders().is_empty());
    assert_eq!(state.get_ticker_holdings_qty(&"AAPL".to_string()), m("0"));
}

#[test]
fn test_trade_creation_preserves_data() {
    let symbol = "AAPL".to_string();
    let qty = m("10.5");
    let price = m("150.75");

    let buy_trade = Trade::buy(symbol.clone(), qty, price);

    assert_eq!(buy_trade.get_symbol(), &symbol);
    assert_eq!(buy_trade.get_quantity(), qty);
    assert_eq!(buy_trade.get_price_per(), price);

    let sell_trade = Trade::sell(symbol.clone(), qty, price);
    assert_eq!(sell_trade.get_symbol(), &symbol);
}

#[test]
fn test_holding_initialization() {
    let holding = Holding::new("TSLA".to_string(), m("25"), m("240.50"));

    assert_eq!(holding.get_qty(), m("25"));
    assert_eq!(holding.get_avg_price(), m("240.50"));
}

// ===== Edge Case Tests =====

#[test]
fn test_zero_balance_withdrawal_protection() {
    let mut state = AppState::new();

    // Try to withdraw with zero balance
    let _ = state.withdraw(m("100"));

    // Balance should remain zero due to insufficient funds check
    assert_eq!(state.check_balance(), m("0"));
}

#[test]
fn test_order_removal_nonexistent_order() {
    let mut state = AppState::new();
    // Buy-side orders reserve cash, so the account is funded first.
    let _ = state.deposit(m("10000"));

    let order1 = OpenOrder::new("AAPL".to_string(), m("10"), m("150"), Side::Buy);
    let order2 = OpenOrder::new("GOOGL".to_string(), m("5"), m("2800"), Side::Buy);

    assert!(state.add_open_order(order1.clone()).is_ok());

    // Try to remove order that was never added
    state.remove_from_open_orders(order2);

    // Should still have the first order
    let orders = state.get_open_orders();
    assert_eq!(orders.len(), 1);
    assert_eq!(orders[0].get_symbol(), "AAPL");
}

#[test]
fn test_large_balance_operations() {
    let mut state = AppState::new();

    // Test with large numbers
    let _ = state.deposit(m("1000000000"));
    assert_eq!(state.check_balance(), m("1000000000"));

    let _ = state.withdraw(m("500000000"));
    assert_eq!(state.check_balance(), m("500000000"));
}

#[test]
fn test_fractional_share_trading() {
    let trade = Trade::buy("AAPL".to_string(), m("0.5"), m("150"));

    assert_eq!(trade.get_quantity(), m("0.5"));
    assert_eq!(trade.get_price_per(), m("150"));
}

#[test]
fn test_state_with_holdings_and_orders() {
    let mut state = AppState::new();

    // Add balance
    let _ = state.deposit(m("10000"));

    // Add order
    let order = OpenOrder::new("AAPL".to_string(), m("10"), m("150"), Side::Buy);
    assert!(state.add_open_order(order).is_ok());

    // Add trade
    let trade = Trade::buy("GOOGL".to_string(), m("5"), m("2800"));
    state.add_trade(trade);

    // Verify all components are present
    assert_eq!(state.check_balance(), m("10000"));
    assert_eq!(state.get_open_orders().len(), 1);
}

// ===== Reset (persistence collaborator's "reset to empty") =====

#[test]
fn test_default_state() {
    let mut state = AppState::new();
    let _ = state.deposit(m("5000"));

    // Reset to default
    state.reset();

    // Check that state was reset
    assert_eq!(state.check_balance(), m("0"));
}

#[test]
fn test_default_state_creates_empty_state() {
    let mut state = AppState::new();

    state.reset();

    // Verify state is empty
    assert_eq!(state.check_balance(), m("0"));
    assert!(state.get_holdings_map().is_empty());
    assert!(state.get_open_orders().is_empty());
}
