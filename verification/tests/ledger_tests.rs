use naviin::app_state::AppState;
use naviin::engine;
use naviin::errors::LedgerError;
use naviin::money::Money;
use naviin::orders::{OpenOrder, OrderType, Side};

fn m(s: &str) -> Money {
    Money::parse(s).unwrap()
}

#[test]
fn test_deposit_rejects_non_positive() {
    let mut state = AppState::new();
    assert_eq!(state.deposit(m("0")).unwrap_err(), LedgerError::InvalidAmount);
    assert_eq!(
        state.deposit(Money::from_units(-1)).unwrap_err(),
        LedgerError::InvalidAmount
    );
    assert_eq!(state.check_balance(), m("0"));
}

#[test]
fn test_withdraw_beyond_balance() {
    let mut state = AppState::new();
    let _ = state.deposit(m("100"));
    assert_eq!(
        state.withdraw(m("150")).unwrap_err(),
        LedgerError::InsufficientBalance
    );
    assert_eq!(state.check_balance(), m("100"));
}

#[test]
fn test_weighted_average_cost() {
    // Buying 10 units at 100 then 10 units at 200 yields avg 150, qty 20.
    let mut state = AppState::new();
    let _ = state.deposit(m("10000"));
    assert!(state.market_buy("AAPL".to_string(), m("10"), m("100")).is_ok());
    assert!(state.market_buy("AAPL".to_string(), m("10"), m("200")).is_ok());

    assert_eq!(state.get_ticker_holdings_qty(&"AAPL".to_string()), m("20"));
    let holdings = state.get_holdings_map();
    assert_eq!(holdings.len(), 1);
    assert_eq!(holdings[0].get_avg_price(), m("150"));
}

#[test]
fn test_fund_buy_sell_scenario() {
    // Fund 10000, buy 10 AAPL @ 150, sell 10 AAPL @ 200.
    let mut state = AppState::new();
    let _ = state.deposit(m("10000"));

    assert!(state.market_buy("AAPL".to_string(), m("10"), m("150")).is_ok());
    assert_eq!(state.check_balance(), m("8500"));
    let holdings = state.get_holdings_map();
    assert_eq!(holdings.len(), 1);
    assert_eq!(holdings[0].get_qty(), m("10"));
    assert_eq!(holdings[0].get_avg_price(), m("150"));

    assert!(state.market_sell("AAPL".to_string(), m("10"), m("200")).is_ok());
    assert_eq!(state.check_balance(), m("10500"));
    assert!(state.get_holdings_map().is_empty());

    let trades = state.get_trades();
    assert_eq!(trades.len(), 2);
    assert_eq!(*trades[0].get_side(), Side::Buy);
    assert_eq!(*trades[1].get_side(), Side::Sell);
}

#[test]
fn test_market_sell_insufficient_holdings() {
    let mut state = AppState::new();
    let _ = state.deposit(m("10000"));
    assert!(state.market_buy("AAPL".to_string(), m("5"), m("100")).is_ok());
    assert_eq!(
        state.market_sell("AAPL".to_string(), m("6"), m("100")).unwrap_err(),
        LedgerError::InsufficientHoldings
    );
    // Nothing changed.
    assert_eq!(state.get_ticker_holdings_qty(&"AAPL".to_string()), m("5"));
    assert_eq!(state.get_trades().len(), 1);
}

#[test]
fn test_buy_limit_order_insufficient_funds() {
    // Adding a BuyLimit for quantity*price beyond available cash fails and
    // leaves the open-order list unchanged.
    let mut state = AppState::new();
    let _ = state.deposit(m("1000"));

    let order = OpenOrder::new("AAPL".to_string(), m("10"), m("200"), Side::Buy);
    assert_eq!(
        state.add_open_order(order).unwrap_err(),
        LedgerError::InsufficientFunds
    );
    assert!(state.get_open_orders().is_empty());
    assert_eq!(state.check_balance(), m("1000"));
}

#[test]
fn test_sell_orders_exceed_holdings() {
    // Two sell-side orders whose combined quantity exceeds the holdings:
    // the second must fail.
    let mut state = AppState::new();
    let _ = state.deposit(m("10000"));
    assert!(state.market_buy("AAPL".to_string(), m("10"), m("150")).is_ok());

    let first = OpenOrder::with_kind(OrderType::StopLoss, "AAPL".to_string(), m("6"), m("120"));
    assert!(state.add_open_order(first).is_ok());

    let second = OpenOrder::with_kind(OrderType::StopLoss, "AAPL".to_string(), m("5"), m("110"));
    assert_eq!(
        state.add_open_order(second).unwrap_err(),
        LedgerError::InsufficientHoldings
    );
    assert_eq!(state.get_open_orders().len(), 1);
}

#[test]
fn test_add_open_order_rejects_non_positive() {
    let mut state = AppState::new();
    let _ = state.deposit(m("1000"));
    let order = OpenOrder::new("AAPL".to_string(), m("0"), m("100"), Side::Buy);
    assert_eq!(
        state.add_open_order(order).unwrap_err(),
        LedgerError::InvalidAmount
    );
    assert!(state.get_open_orders().is_empty());
}

#[test]
fn test_available_cash_net_of_reserves() {
    let mut state = AppState::new();
    let _ = state.deposit(m("10000"));
    let order = OpenOrder::new("AAPL".to_string(), m("10"), m("150"), Side::Buy);
    assert!(state.add_open_order(order).is_ok());

    assert_eq!(state.check_balance(), m("10000"));
    assert_eq!(state.available_cash(), m("8500"));
}

#[test]
fn test_available_holdings_net_of_reserves() {
    let mut state = AppState::new();
    let _ = state.deposit(m("10000"));
    assert!(state.market_buy("AAPL".to_string(), m("10"), m("150")).is_ok());
    let order = OpenOrder::with_kind(OrderType::TakeProfit, "AAPL".to_string(), m("4"), m("200"));
    assert!(state.add_open_order(order).is_ok());

    assert_eq!(state.get_ticker_holdings_qty(&"AAPL".to_string()), m("10"));
    assert_eq!(state.available_holdings(&"AAPL".to_string()), m("6"));
}

#[test]
fn test_book_orders_buys_by_descending_price() {
    let mut state = AppState::new();
    let _ = state.deposit(m("100000"));
    for p in ["145", "155", "150"] {
        let order = OpenOrder::new("AAPL".to_string(), m("10"), m(p), Side::Buy);
        assert!(state.add_open_order(order).is_ok());
    }
    let orders = state.get_open_orders();
    assert_eq!(orders[0].get_price_per(), m("155"));
    assert_eq!(orders[1].get_price_per(), m("150"));
    assert_eq!(orders[2].get_price_per(), m("145"));
}

#[test]
fn test_book_orders_sells_by_ascending_price() {
    let mut state = AppState::new();
    let _ = state.deposit(m("100000"));
    assert!(state.market_buy("AAPL".to_string(), m("30"), m("100")).is_ok());
    for p in ["210", "190", "200"] {
        let order = OpenOrder::with_kind(OrderType::TakeProfit, "AAPL".to_string(), m("10"), m(p));
        assert!(state.add_open_order(order).is_ok());
    }
    let orders = state.get_open_orders();
    assert_eq!(orders[0].get_price_per(), m("190"));
    assert_eq!(orders[1].get_price_per(), m("200"));
    assert_eq!(orders[2].get_price_per(), m("210"));
}

#[test]
fn test_buy_limit_trigger_sequence() {
    // A BuyLimit at trigger 150 with prices [160, 155, 148] stays pending
    // for the first two evaluations and executes on the third at 148.
    let mut state = AppState::new();
    let _ = state.deposit(m("10000"));
    let order = OpenOrder::new("AAPL".to_string(), m("10"), m("150"), Side::Buy);
    assert!(state.add_open_order(order.clone()).is_ok());

    assert!(!engine::execute_open_order(&mut state, &order, m("160")));
    assert_eq!(state.get_open_orders().len(), 1);
    assert_eq!(state.check_balance(), m("10000"));

    assert!(!engine::execute_open_order(&mut state, &order, m("155")));
    assert_eq!(state.get_open_orders().len(), 1);

    assert!(engine::execute_open_order(&mut state, &order, m("148")));
    assert!(state.get_open_orders().is_empty());
    assert_eq!(state.check_balance(), m("8520"));

    let trades = state.get_trades();
    assert_eq!(trades.len(), 1);
    assert_eq!(trades[0].get_price_per(), m("148"));
    assert_eq!(*trades[0].get_side(), Side::Buy);
}

#[test]
fn test_take_profit_executes_at_trigger_price() {
    // A TakeProfit with trigger 200 executes when the live price is 210,
    // and the trade is recorded at 200, not 210.
    let mut state = AppState::new();
    let _ = state.deposit(m("10000"));
    assert!(state.market_buy("AAPL".to_string(), m("5"), m("150")).is_ok());
    let order = OpenOrder::with_kind(OrderType::TakeProfit, "AAPL".to_string(), m("5"), m("200"));
    assert!(state.add_open_order(order.clone()).is_ok());

    let cash_before = state.check_balance();
    assert!(engine::execute_open_order(&mut state, &order, m("210")));

    let trades = state.get_trades();
    assert_eq!(trades.last().unwrap().get_price_per(), m("200"));
    assert_eq!(*trades.last().unwrap().get_side(), Side::Sell);
    assert_eq!(
        state.check_balance(),
        cash_before.checked_plus(m("1000")).unwrap()
    );
    assert!(state.get_open_orders().is_empty());
    assert!(state.get_holdings_map().is_empty());
}

#[test]
fn test_stop_loss_executes_at_live_price() {
    let mut state = AppState::new();
    let _ = state.deposit(m("10000"));
    assert!(state.market_buy("AAPL".to_string(), m("5"), m("150")).is_ok());
    let order = OpenOrder::with_kind(OrderType::StopLoss, "AAPL".to_string(), m("5"), m("140"));
    assert!(state.add_open_order(order.clone()).is_ok());

    // Above the stop: nothing happens.
    assert!(!engine::execute_open_order(&mut state, &order, m("145")));
    // At or below the stop: sells at the live price.
    assert!(engine::execute_open_order(&mut state, &order, m("138")));
    let trades = state.get_trades();
    assert_eq!(trades.last().unwrap().get_price_per(), m("138"));
}

#[test]
fn test_buy_limit_skipped_on_insufficient_funds() {
    // A triggered buy limit without the cash to cover it stays pending.
    let mut state = AppState::new();
    let _ = state.deposit(m("1000"));
    // Reserve nothing: evaluate an order that is not in the book.
    let order = OpenOrder::new("AAPL".to_string(), m("10"), m("150"), Side::Buy);
    assert!(!engine::buy_limit(&mut state, &order, m("148")));
    assert_eq!(state.check_balance(), m("1000"));
    assert!(state.get_trades().is_empty());
}

#[test]
fn test_process_quote_absorbs_missing_price() {
    let mut state = AppState::new();
    let _ = state.deposit(m("10000"));
    let order = OpenOrder::new("AAPL".to_string(), m("10"), m("150"), Side::Buy);
    assert!(!engine::process_quote(&mut state, &order, None));
    assert!(!engine::process_quote(&mut state, &order, Some(m("0"))));
    assert_eq!(state.check_balance(), m("10000"));
}

#[test]
fn test_check_trigger_conditions() {
    let bl = OpenOrder::with_kind(OrderType::BuyLimit, "A".to_string(), m("1"), m("150"));
    let sl = OpenOrder::with_kind(OrderType::StopLoss, "A".to_string(), m("1"), m("150"));
    let tp = OpenOrder::with_kind(OrderType::TakeProfit, "A".to_string(), m("150"), m("150"));
    assert!(engine::check_trigger(&bl, m("150")));
    assert!(engine::check_trigger(&bl, m("149")));
    assert!(!engine::check_trigger(&bl, m("151")));
    assert!(engine::check_trigger(&sl, m("149")));
    assert!(!engine::check_trigger(&sl, m("151")));
    assert!(engine::check_trigger(&tp, m("151")));
    assert!(engine::check_trigger(&tp, m("150")));
    assert!(!engine::check_trigger(&tp, m("149")));
}

#[test]
fn test_watchlist_add_remove() {
    let mut state = AppState::new();
    state.add_to_watchlist("AAPL".to_string());
    state.add_to_watchlist("GOOGL".to_string());
    state.add_to_watchlist("AAPL".to_string());
    assert_eq!(state.get_watchlist().len(), 2);
    state.remove_from_watchlist("AAPL".to_string());
    let w = state.get_watchlist();
    assert_eq!(w.len(), 1);
    assert_eq!(w[0], "GOOGL");
    state.remove_from_watchlist("MSFT".to_string());
    assert_eq!(state.get_watchlist().len(), 1);
}

#[test]
fn test_set_holdings_map_validates() {
    let mut state = AppState::new();
    let good = vec![
        naviin::holdings::Holding::new("AAPL".to_string(), m("10"), m("150")),
        naviin::holdings::Holding::new("GOOGL".to_string(), m("5"), m("2800")),
    ];
    assert!(state.set_holdings_map(good).is_ok());
    assert_eq!(state.get_ticker_holdings_qty(&"AAPL".to_string()), m("10"));

    let dup = vec![
        naviin::holdings::Holding::new("AAPL".to_string(), m("10"), m("150")),
        naviin::holdings::Holding::new("AAPL".to_string(), m("5"), m("140")),
    ];
    assert_eq!(
        state.set_holdings_map(dup).unwrap_err(),
        LedgerError::InvalidAmount
    );
    // The previous holdings stay.
    assert_eq!(state.get_holdings_map().len(), 2);

    let zero = vec![naviin::holdings::Holding::new("TSLA".to_string(), m("0"), m("100"))];
    assert_eq!(
        state.set_holdings_map(zero).unwrap_err(),
        LedgerError::InvalidAmount
    );
}

#[test]
fn test_holding_pnl() {
    let h = naviin::holdings::Holding::new("AAPL".to_string(), m("10"), m("150"));
    assert_eq!(h.get_pnl(m("160")).unwrap(), m("100"));
    assert_eq!(h.get_pnl(m("140")).unwrap(), Money::from_units(-1_000_000));
}

#[test]
fn test_order_kind_names() {
    let bl = OpenOrder::with_kind(OrderType::BuyLimit, "A".to_string(), m("1"), m("1"));
    let sl = OpenOrder::with_kind(OrderType::StopLoss, "A".to_string(), m("1"), m("1"));
    let tp = OpenOrder::with_kind(OrderType::TakeProfit, "A".to_string(), m("1"), m("1"));
    assert_eq!(bl.get_order_type(), "BuyLimit");
    assert_eq!(sl.get_order_type(), "StopLoss");
    assert_eq!(tp.get_order_type(), "TakeProfit");
    assert_eq!(bl.get_side(), Side::Buy);
    assert_eq!(sl.get_side(), Side::Sell);
    assert_eq!(tp.get_side(), Side::Sell);
}

#[test]
fn test_set_trades_wholesale() {
    let mut state = AppState::new();
    let trades = vec![
        naviin::orders::Trade::from_database("AAPL".to_string(), m("10"), m("150"), Side::Buy, 42),
        naviin::orders::Trade::from_database("AAPL".to_string(), m("4"), m("160"), Side::Sell, 43),
    ];
    state.set_trades(trades);
    let out = state.get_trades();
    assert_eq!(out.len(), 2);
    assert_eq!(out[0].get_timestamp(), 42);
    assert_eq!(*out[1].get_side(), Side::Sell);
}

#[test]
fn test_set_watchlist_dedups() {
    let mut state = AppState::new();
    state.set_watchlist(vec![
        "AAPL".to_string(),
        "GOOGL".to_string(),
        "AAPL".to_string(),
    ]);
    let w = state.get_watchlist();
    assert_eq!(w, ["AAPL".to_string(), "GOOGL".to_string()]);
    // A later replacement discards the earlier watchlist wholesale.
    state.set_watchlist(vec!["MSFT".to_string()]);
    assert_eq!(state.get_watchlist(), ["MSFT".to_string()]);
}

#[test]
fn test_set_open_orders_restores_book() {
    let mut state = AppState::new();
    let _ = state.deposit(m("100000"));
    for p in ["145", "155", "150"] {
        let order = OpenOrder::new("AAPL".to_string(), m("10"), m(p), Side::Buy);
        assert!(state.add_open_order(order).is_ok());
    }
    let saved = state.get_open_orders();

    // A fresh ledger, even without the cash backing the reserves,
    // restores the saved book exactly, timestamps included.
    let mut restored = AppState::new();
    assert!(restored.set_open_orders(saved.clone()).is_ok());
    let book = restored.get_open_orders();
    assert_eq!(book.len(), 3);
    assert_eq!(book[0].get_price_per(), m("155"));
    assert_eq!(book[0].get_timestamp(), saved[0].get_timestamp());
}

#[test]
fn test_set_open_orders_rejects_bad_books() {
    let mut state = AppState::new();
    // A non-positive quantity is rejected.
    let zero = vec![OpenOrder::new("AAPL".to_string(), m("0"), m("150"), Side::Buy)];
    assert_eq!(
        state.set_open_orders(zero).unwrap_err(),
        LedgerError::InvalidAmount
    );
    // Buy orders for one symbol out of price order are rejected.
    let unsorted = vec![
        OpenOrder::new("AAPL".to_string(), m("10"), m("145"), Side::Buy),
        OpenOrder::new("AAPL".to_string(), m("10"), m("155"), Side::Buy),
    ];
    assert_eq!(
        state.set_open_orders(unsorted).unwrap_err(),
        LedgerError::InvalidAmount
    );
    assert!(state.get_open_orders().is_empty());
}

#[test]
fn test_get_pnl_overflow_is_none() {
    let h = naviin::holdings::Holding::new(
        "AAPL".to_string(),
        Money::from_units(i64::MAX),
        m("0"),
    );
    assert!(h.get_pnl(Money::from_units(i64::MAX)).is_none());
}
