use naviin::app_state::AppState;
use naviin::import::{
    build_header_map, get_optional, get_value, import_trades_from_lines, parse_csv_row,
    parse_side, parse_trade_row, push_error, RowError,
};
use naviin::money::Money;
use naviin::orders::Side;

fn m(s: &str) -> Money {
    Money::parse(s).unwrap()
}

#[test]
fn test_parse_csv_row_plain() {
    let fields = parse_csv_row("a, b ,c");
    assert_eq!(fields, vec!["a".to_string(), "b".to_string(), "c".to_string()]);
}

#[test]
fn test_parse_csv_row_quoted_comma() {
    let fields = parse_csv_row("\"a,b\",c");
    assert_eq!(fields, vec!["a,b".to_string(), "c".to_string()]);
}

#[test]
fn test_parse_csv_row_doubled_quote() {
    let fields = parse_csv_row("\"he said \"\"hi\"\"\",x");
    assert_eq!(fields, vec!["he said \"hi\"".to_string(), "x".to_string()]);
}

#[test]
fn test_parse_csv_row_empty_fields() {
    let fields = parse_csv_row(",,");
    assert_eq!(fields, vec![String::new(), String::new(), String::new()]);
}

#[test]
fn test_build_header_map_and_lookup() {
    let headers = parse_csv_row(" Date , ASSET ,, price");
    let map = build_header_map(&headers);
    let cols = parse_csv_row("2024-01-02, aapl , x, 150.5");
    assert_eq!(get_value(&cols, &map, "date").unwrap(), "2024-01-02");
    assert_eq!(get_value(&cols, &map, "asset").unwrap(), "aapl");
    assert_eq!(get_value(&cols, &map, "price").unwrap(), "150.5");
    assert!(get_value(&cols, &map, "side").is_none());
}

#[test]
fn test_get_value_short_row_defaults_empty() {
    let headers = parse_csv_row("date,asset,price");
    let map = build_header_map(&headers);
    let cols = parse_csv_row("2024-01-02");
    assert_eq!(get_value(&cols, &map, "price").unwrap(), "");
}

#[test]
fn test_get_optional() {
    let headers = parse_csv_row("date,currency");
    let map = build_header_map(&headers);
    let with = parse_csv_row("2024-01-02,USD");
    assert_eq!(get_optional(&with, &map, "currency").unwrap(), "USD");
    let without = parse_csv_row("2024-01-02, ");
    assert!(get_optional(&without, &map, "currency").is_none());
    assert!(get_optional(&with, &map, "venue").is_none());
}

#[test]
fn test_push_error_caps_at_three() {
    let mut errors: Vec<String> = Vec::new();
    push_error(&mut errors, "one".to_string());
    push_error(&mut errors, "two".to_string());
    push_error(&mut errors, "three".to_string());
    push_error(&mut errors, "four".to_string());
    assert_eq!(errors.len(), 3);
    assert_eq!(errors[2], "three");
}

#[test]
fn test_parse_side_values() {
    assert_eq!(parse_side("BUY").unwrap(), Side::Buy);
    assert_eq!(parse_side(" buy ").unwrap(), Side::Buy);
    assert_eq!(parse_side("Sell").unwrap(), Side::Sell);
    assert_eq!(parse_side("hold").unwrap_err(), RowError::BadSide);
}

fn standard_map() -> Vec<(String, usize)> {
    let headers = parse_csv_row("date,asset,asset_type,side,quantity,price,currency");
    build_header_map(&headers)
}

#[test]
fn test_parse_trade_row_valid() {
    let map = standard_map();
    let cols = parse_csv_row("2024-01-02, aapl ,stock,buy,10,150.5,usd");
    let row = parse_trade_row(&cols, &map).unwrap();
    assert_eq!(row.asset, "AAPL");
    assert_eq!(row.asset_type, "STOCK");
    assert_eq!(row.side, Side::Buy);
    assert_eq!(row.quantity, m("10"));
    assert_eq!(row.price, m("150.5"));
    assert_eq!(row.currency.unwrap(), "usd");
}

#[test]
fn test_parse_trade_row_errors() {
    let map = standard_map();
    let empty_asset = parse_csv_row("2024-01-02,,stock,buy,10,150");
    assert_eq!(parse_trade_row(&empty_asset, &map).unwrap_err(), RowError::EmptyAsset);

    let bad_side = parse_csv_row("2024-01-02,AAPL,stock,maybe,10,150");
    assert_eq!(parse_trade_row(&bad_side, &map).unwrap_err(), RowError::BadSide);

    let bad_qty = parse_csv_row("2024-01-02,AAPL,stock,buy,ten,150");
    assert_eq!(parse_trade_row(&bad_qty, &map).unwrap_err(), RowError::BadQuantity);

    let zero_qty = parse_csv_row("2024-01-02,AAPL,stock,buy,0,150");
    assert_eq!(parse_trade_row(&zero_qty, &map).unwrap_err(), RowError::BadQuantity);

    let bad_price = parse_csv_row("2024-01-02,AAPL,stock,buy,10,free");
    assert_eq!(parse_trade_row(&bad_price, &map).unwrap_err(), RowError::BadPrice);

    let bad_type = parse_csv_row("2024-01-02,AAPL,bond,buy,10,150");
    assert_eq!(parse_trade_row(&bad_type, &map).unwrap_err(), RowError::BadAssetType);

    let thin_map = build_header_map(&parse_csv_row("date,asset"));
    let cols = parse_csv_row("2024-01-02,AAPL");
    assert_eq!(parse_trade_row(&cols, &thin_map).unwrap_err(), RowError::MissingColumn);
}

#[test]
fn test_import_applies_trades() {
    let mut state = AppState::new();
    let lines = vec![
        "date,asset,asset_type,side,quantity,price".to_string(),
        "2024-01-02,AAPL,STOCK,BUY,10,150".to_string(),
        "".to_string(),
        "2024-01-03,AAPL,STOCK,SELL,4,160".to_string(),
    ];
    let outcome = import_trades_from_lines(&mut state, &lines).unwrap();
    assert_eq!(outcome.imported, 2);
    assert_eq!(outcome.errors, 0);
    assert_eq!(state.get_trades().len(), 2);
    assert_eq!(state.get_ticker_holdings_qty(&"AAPL".to_string()), m("6"));
    // Import moves holdings only, never cash.
    assert_eq!(state.check_balance(), m("0"));
}

#[test]
fn test_import_skips_oversell_row() {
    let mut state = AppState::new();
    let lines = vec![
        "date,asset,asset_type,side,quantity,price".to_string(),
        "2024-01-02,AAPL,STOCK,BUY,5,150".to_string(),
        "2024-01-03,AAPL,STOCK,SELL,9,160".to_string(),
    ];
    let outcome = import_trades_from_lines(&mut state, &lines).unwrap();
    assert_eq!(outcome.imported, 1);
    assert_eq!(outcome.errors, 1);
    assert_eq!(outcome.failures[0].1, RowError::InsufficientHoldings);
    assert_eq!(state.get_ticker_holdings_qty(&"AAPL".to_string()), m("5"));
}

#[test]
fn test_import_missing_column_rejected() {
    let mut state = AppState::new();
    let lines = vec![
        "date,asset,side,quantity,price".to_string(),
        "2024-01-02,AAPL,BUY,5,150".to_string(),
    ];
    assert_eq!(
        import_trades_from_lines(&mut state, &lines).unwrap_err(),
        RowError::MissingColumn
    );
    assert!(state.get_trades().is_empty());
}

#[test]
fn test_import_timestamp_from_date_cell() {
    let mut state = AppState::new();
    let lines = vec![
        "date,asset,asset_type,side,quantity,price".to_string(),
        "2024-01-02,AAPL,STOCK,BUY,1,150".to_string(),
    ];
    let _ = import_trades_from_lines(&mut state, &lines).unwrap();
    let trades = state.get_trades();
    // Midnight UTC, 2024-01-02.
    assert_eq!(trades[0].get_timestamp(), 1_704_153_600);
}

#[test]
fn test_parse_date_to_timestamp_rfc3339() {
    let ts = naviin::import::parse_date_to_timestamp("1970-01-01T00:02:00Z");
    assert_eq!(ts, 120);
}

#[test]
fn test_import_empty_input_rejected() {
    let mut state = AppState::new();
    let lines: Vec<String> = Vec::new();
    assert_eq!(
        import_trades_from_lines(&mut state, &lines).unwrap_err(),
        RowError::EmptyInput
    );
}

#[test]
fn test_import_nothing_imported_is_an_error() {
    let mut state = AppState::new();
    let lines = vec![
        "date,asset,asset_type,side,quantity,price".to_string(),
        "2024-01-02,AAPL,STOCK,SELL,5,150".to_string(),
    ];
    assert_eq!(
        import_trades_from_lines(&mut state, &lines).unwrap_err(),
        RowError::NothingImported
    );
    assert!(state.get_trades().is_empty());
}
