//! Value types of the ledger: trade records and pending conditional orders.

use vstd::prelude::*;

use crate::clock::now_timestamp;
use crate::money::Money;

verus! {

/// Which way a trade or order moves shares.
#[derive(Clone, Copy, Debug, PartialEq, Eq, Structural)]
pub enum Side {
    Buy,
    Sell,
}

/// Category of conditional order.
#[derive(Clone, Copy, Debug, PartialEq, Eq, Structural)]
pub enum OrderType {
    BuyLimit,
    StopLoss,
    TakeProfit,
}

/// The side implied by an order's category: a buy limit buys, a stop loss
/// and a take profit sell.
pub open spec fn side_of_kind(kind: OrderType) -> Side {
    match kind {
        OrderType::BuyLimit => Side::Buy,
        OrderType::StopLoss => Side::Sell,
        OrderType::TakeProfit => Side::Sell,
    }
}

/// Mathematical image of a completed trade.
pub ghost struct TradeView {
    pub symbol: Seq<char>,
    pub quantity: int,
    pub price_per: int,
    pub side: Side,
    pub timestamp: int,
}

/// An immutable record of a completed buy or sell.
#[derive(Clone, Debug)]
pub struct Trade {
    symbol: String,
    quantity: Money,
    price_per: Money,
    side: Side,
    timestamp: i64,
}

impl View for Trade {
    type V = TradeView;

    closed spec fn view(&self) -> TradeView {
        TradeView {
            symbol: self.symbol@,
            quantity: self.quantity@,
            price_per: self.price_per@,
            side: self.side,
            timestamp: self.timestamp as int,
        }
    }
}

impl Trade {
    /// A buy record, stamped with the current time.
    pub fn buy(symbol: String, quantity: Money, price_per: Money) -> (t: Trade)
        ensures
            t@.symbol == symbol@,
            t@.quantity == quantity@,
            t@.price_per == price_per@,
            t@.side == Side::Buy,
    {
        Trade { symbol, quantity, price_per, side: Side::Buy, timestamp: now_timestamp() }
    }

    /// A sell record, stamped with the current time.
    pub fn sell(symbol: String, quantity: Money, price_per: Money) -> (t: Trade)
        ensures
            t@.symbol == symbol@,
            t@.quantity == quantity@,
            t@.price_per == price_per@,
            t@.side == Side::Sell,
    {
        Trade { symbol, quantity, price_per, side: Side::Sell, timestamp: now_timestamp() }
    }

    /// Rebuilds a record from persisted fields, exactly as given.
    pub fn from_database(
        symbol: String,
        quantity: Money,
        price_per: Money,
        side: Side,
        timestamp: i64,
    ) -> (t: Trade)
        ensures
            t@ == (TradeView {
                symbol: symbol@,
                quantity: quantity@,
                price_per: price_per@,
                side,
                timestamp: timestamp as int,
            }),
    {
        Trade { symbol, quantity, price_per, side, timestamp }
    }

    pub fn get_symbol(&self) -> (s: &String)
        ensures
            s@ == self@.symbol,
    {
        &self.symbol
    }

    pub fn get_quantity(&self) -> (q: Money)
        ensures
            q@ == self@.quantity,
    {
        self.quantity
    }

    pub fn get_price_per(&self) -> (p: Money)
        ensures
            p@ == self@.price_per,
    {
        self.price_per
    }

    pub fn get_side(&self) -> (s: &Side)
        ensures
            *s == self@.side,
    {
        &self.side
    }

    pub fn get_timestamp(&self) -> (ts: i64)
        ensures
            ts == self@.timestamp,
    {
        self.timestamp
    }

    /// Overwrites the timestamp; every other field is kept.
    pub fn set_timestamp(&mut self, timestamp: i64)
        ensures
            final(self)@ == (TradeView { timestamp: timestamp as int, ..old(self)@ }),
    {
        self.timestamp = timestamp;
    }

    /// An exact copy.
    pub fn duplicate(&self) -> (t: Trade)
        ensures
            t@ == self@,
    {
        Trade {
            symbol: self.symbol.clone(),
            quantity: self.quantity,
            price_per: self.price_per,
            side: self.side,
            timestamp: self.timestamp,
        }
    }
}

/// Mathematical image of a pending conditional order.
pub ghost struct OrderView {
    pub kind: OrderType,
    pub symbol: Seq<char>,
    pub quantity: int,
    pub price: int,
    pub timestamp: int,
}

impl OrderView {
    /// The side implied by the order's category.
    pub open spec fn side(self) -> Side {
        side_of_kind(self.kind)
    }
}

/// A pending conditional order waiting for its trigger price.
#[derive(Clone, Debug)]
pub enum OpenOrder {
    BuyLimit { symbol: String, quantity: Money, price: Money, timestamp: i64 },
    StopLoss { symbol: String, quantity: Money, price: Money, timestamp: i64 },
    TakeProfit { symbol: String, quantity: Money, price: Money, timestamp: i64 },
}

impl View for OpenOrder {
    type V = OrderView;

    closed spec fn view(&self) -> OrderView {
        match self {
            OpenOrder::BuyLimit { symbol, quantity, price, timestamp } => OrderView {
                kind: OrderType::BuyLimit,
                symbol: symbol@,
                quantity: quantity@,
                price: price@,
                timestamp: *timestamp as int,
            },
            OpenOrder::StopLoss { symbol, quantity, price, timestamp } => OrderView {
                kind: OrderType::StopLoss,
                symbol: symbol@,
                quantity: quantity@,
                price: price@,
                timestamp: *timestamp as int,
            },
            OpenOrder::TakeProfit { symbol, quantity, price, timestamp } => OrderView {
                kind: OrderType::TakeProfit,
                symbol: symbol@,
                quantity: quantity@,
                price: price@,
                timestamp: *timestamp as int,
            },
        }
    }
}

impl OpenOrder {
    /// A new pending order stamped with the current time.  A buy side makes
    /// a buy limit; a sell side makes a stop loss.
    pub fn new(symbol: String, quantity: Money, price: Money, side: Side) -> (o: OpenOrder)
        ensures
            o@.kind == (match side {
                Side::Buy => OrderType::BuyLimit,
                Side::Sell => OrderType::StopLoss,
            }),
            o@.symbol == symbol@,
            o@.quantity == quantity@,
            o@.price == price@,
    {
        let timestamp = now_timestamp();
        match side {
            Side::Buy => OpenOrder::BuyLimit { symbol, quantity, price, timestamp },
            Side::Sell => OpenOrder::StopLoss { symbol, quantity, price, timestamp },
        }
    }

    /// A new pending order of the given category, stamped with the current time.
    pub fn with_kind(kind: OrderType, symbol: String, quantity: Money, price: Money) -> (o:
        OpenOrder)
        ensures
            o@.kind == kind,
            o@.symbol == symbol@,
            o@.quantity == quantity@,
            o@.price == price@,
    {
        let timestamp = now_timestamp();
        match kind {
            OrderType::BuyLimit => OpenOrder::BuyLimit { symbol, quantity, price, timestamp },
            OrderType::StopLoss => OpenOrder::StopLoss { symbol, quantity, price, timestamp },
            OrderType::TakeProfit => OpenOrder::TakeProfit { symbol, quantity, price, timestamp },
        }
    }

    /// The order's category.
    pub fn kind(&self) -> (k: OrderType)
        ensures
            k == self@.kind,
    {
        match self {
            OpenOrder::BuyLimit { .. } => OrderType::BuyLimit,
            OpenOrder::StopLoss { .. } => OrderType::StopLoss,
            OpenOrder::TakeProfit { .. } => OrderType::TakeProfit,
        }
    }

    pub fn get_symbol(&self) -> (s: &String)
        ensures
            s@ == self@.symbol,
    {
        match self {
            OpenOrder::BuyLimit { symbol, .. } => symbol,
            OpenOrder::StopLoss { symbol, .. } => symbol,
            OpenOrder::TakeProfit { symbol, .. } => symbol,
        }
    }

    pub fn get_qty(&self) -> (q: Money)
        ensures
            q@ == self@.quantity,
    {
        match self {
            OpenOrder::BuyLimit { quantity, .. } => *quantity,
            OpenOrder::StopLoss { quantity, .. } => *quantity,
            OpenOrder::TakeProfit { quantity, .. } => *quantity,
        }
    }

    pub fn get_price_per(&self) -> (p: Money)
        ensures
            p@ == self@.price,
    {
        match self {
            OpenOrder::BuyLimit { price, .. } => *price,
            OpenOrder::StopLoss { price, .. } => *price,
            OpenOrder::TakeProfit { price, .. } => *price,
        }
    }

    pub fn get_timestamp(&self) -> (ts: i64)
        ensures
            ts == self@.timestamp,
    {
        match self {
            OpenOrder::BuyLimit { timestamp, .. } => *timestamp,
            OpenOrder::StopLoss { timestamp, .. } => *timestamp,
            OpenOrder::TakeProfit { timestamp, .. } => *timestamp,
        }
    }

    pub fn get_side(&self) -> (s: Side)
        ensures
            s == self@.side(),
    {
        match self {
            OpenOrder::BuyLimit { .. } => Side::Buy,
            OpenOrder::StopLoss { .. } => Side::Sell,
            OpenOrder::TakeProfit { .. } => Side::Sell,
        }
    }

    pub fn get_order_type(&self) -> (s: &'static str)
        ensures
            self@.kind == OrderType::BuyLimit ==> s@ == "BuyLimit"@,
            self@.kind == OrderType::StopLoss ==> s@ == "StopLoss"@,
            self@.kind == OrderType::TakeProfit ==> s@ == "TakeProfit"@,
    {
        match self {
            OpenOrder::BuyLimit { .. } => "BuyLimit",
            OpenOrder::StopLoss { .. } => "StopLoss",
            OpenOrder::TakeProfit { .. } => "TakeProfit",
        }
    }

    /// An exact copy.
    pub fn duplicate(&self) -> (o: OpenOrder)
        ensures
            o@ == self@,
    {
        match self {
            OpenOrder::BuyLimit { symbol, quantity, price, timestamp } => OpenOrder::BuyLimit {
                symbol: symbol.clone(),
                quantity: *quantity,
                price: *price,
                timestamp: *timestamp,
            },
            OpenOrder::StopLoss { symbol, quantity, price, timestamp } => OpenOrder::StopLoss {
                symbol: symbol.clone(),
                quantity: *quantity,
                price: *price,
                timestamp: *timestamp,
            },
            OpenOrder::TakeProfit { symbol, quantity, price, timestamp } => OpenOrder::TakeProfit {
                symbol: symbol.clone(),
                quantity: *quantity,
                price: *price,
                timestamp: *timestamp,
            },
        }
    }
}

/// A plain buy-limit request record: a symbol, a quantity and a limit price.
#[derive(Clone, Debug)]
pub struct LimitOrder {
    symbol: String,
    quantity: Money,
    price_per: Money,
}

impl LimitOrder {
    pub fn new(symbol: String, quantity: Money, price_per: Money) -> (o: LimitOrder)
        ensures
            o.get_symbol_spec() == symbol@,
            o.get_qty_spec() == quantity@,
            o.get_price_per_spec() == price_per@,
    {
        LimitOrder { symbol, quantity, price_per }
    }

    pub closed spec fn get_symbol_spec(&self) -> Seq<char> {
        self.symbol@
    }

    pub closed spec fn get_qty_spec(&self) -> int {
        self.quantity@
    }

    pub closed spec fn get_price_per_spec(&self) -> int {
        self.price_per@
    }

    pub fn get_symbol(&self) -> (s: &String)
        ensures
            s@ == self.get_symbol_spec(),
    {
        &self.symbol
    }

    pub fn get_qty(&self) -> (q: Money)
        ensures
            q@ == self.get_qty_spec(),
    {
        self.quantity
    }

    pub fn get_price_per(&self) -> (p: Money)
        ensures
            p@ == self.get_price_per_spec(),
    {
        self.price_per
    }
}

} // verus!
