use naviin::holdings::Holding;
use naviin::money::Money;
use naviin::orders::{OpenOrder, Side, Trade};

fn m(s: &str) -> Money {
    Money::parse(s).unwrap()
}

// ===== Holding Tests =====

#[test]
fn test_holding_creation() {
    let holding = Holding::new("AAPL".to_string(), m("10"), m("150"));

    assert_eq!(holding.get_qty(), m("10"));
    assert_eq!(holding.get_avg_price(), m("150"));
}

#[test]
fn test_holding_getters() {
    let holding = Holding::new("GOOGL".to_string(), m("5.5"), m("2800.50"));

    assert_eq!(holding.get_qty(), m("5.5"));
    assert_eq!(holding.get_avg_price(), m("2800.50"));
}

#[test]
fn test_holding_with_zero_quantity() {
    let holding = Holding::new("TSLA".to_string(), m("0"), m("100"));

    assert_eq!(holding.get_qty(), m("0"));
}

// ===== Trade Tests =====

#[test]
fn test_trade_buy_creation() {
    let trade = Trade::buy("AAPL".to_string(), m("10"), m("150"));

    assert_eq!(trade.get_symbol(), "AAPL");
    assert_eq!(trade.get_quantity(), m("10"));
    assert_eq!(trade.get_price_per(), m("150"));

    // Verify it's a buy trade
    match trade.get_side() {
        Side::Buy => assert!(true),
        Side::Sell => panic!("Expected Buy, got Sell"),
    }

    // Timestamp should be recent (within last minute)
    let now = chrono::Utc::now().timestamp();
    assert!(trade.get_timestamp() <= now);
    assert!(trade.get_timestamp() > now - 60);
}

#[test]
fn test_trade_sell_creation() {
    let trade = Trade::sell("GOOGL".to_string(), m("5"), m("2800"));

    assert_eq!(trade.get_symbol(), "GOOGL");
    assert_eq!(trade.get_quantity(), m("5"));
    assert_eq!(trade.get_price_per(), m("2800"));

    // Verify it's a sell trade
    match trade.get_side() {
        Side::Sell => assert!(true),
        Side::Buy => panic!("Expected Sell, got Buy"),
    }
}

#[test]
fn test_trade_getters() {
    let trade = Trade::buy("TSLA".to_string(), m("15.5"), m("250.75"));

    assert_eq!(trade.get_symbol(), "TSLA");
    assert_eq!(trade.get_quantity(), m("15.5"));
    assert_eq!(trade.get_price_per(), m("250.75"));
    assert!(trade.get_timestamp() > 0);
}

#[test]
fn test_trade_with_fractional_shares() {
    let trade = Trade::buy("AAPL".to_string(), m("0.5"), m("150"));

    assert_eq!(trade.get_quantity(), m("0.5"));
}

// ===== Open Order Tests =====

#[test]
fn test_limit_order_creation() {
    let order = OpenOrder::new("AAPL".to_string(), m("10"), m("145"), Side::Buy);

    assert_eq!(order.get_symbol(), "AAPL");
    assert_eq!(order.get_qty(), m("10"));
    assert_eq!(order.get_price_per(), m("145"));

    match order.get_side() {
        Side::Buy => assert!(true),
        Side::Sell => panic!("Expected Buy, got Sell"),
    }
}

#[test]
fn test_limit_order_sell() {
    let order = OpenOrder::new("GOOGL".to_string(), m("5"), m("2900"), Side::Sell);

    assert_eq!(order.get_symbol(), "GOOGL");

    match order.get_side() {
        Side::Sell => assert!(true),
        Side::Buy => panic!("Expected Sell, got Buy"),
    }
}

#[test]
fn test_limit_order_getters() {
    let order = OpenOrder::new("MSFT".to_string(), m("20"), m("350"), Side::Buy);

    assert_eq!(order.get_symbol(), "MSFT");
    assert_eq!(order.get_qty(), m("20"));
    assert_eq!(order.get_price_per(), m("350"));
    assert!(order.get_timestamp() > 0);
}

#[test]
fn test_limit_order_timestamp_is_recent() {
    let order = OpenOrder::new("AAPL".to_string(), m("10"), m("150"), Side::Buy);

    let now = chrono::Utc::now().timestamp();
    assert!(order.get_timestamp() <= now);
    assert!(order.get_timestamp() > now - 60); // Within last minute
}
