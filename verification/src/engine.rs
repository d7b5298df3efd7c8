//! The conditional-order execution engine's decision logic.
//!
//! Each function evaluates one pending order against a freshly fetched
//! price supplied by the caller and, when the trigger condition and the
//! funds or holdings check both pass, converts it into a trade with the
//! same application logic used by direct buys and sells.  An order that
//! does not execute leaves the ledger exactly as it was: a transient
//! insufficiency is not fatal, and the order stays pending for the next
//! evaluation.

use vstd::prelude::*;

use crate::app_state::AppState;
use crate::book::order_matches;
use crate::holdings::qty_of;
use crate::money::{cost_units, Money};
use crate::orders::{OpenOrder, OrderType, OrderView, Side};

verus! {

broadcast use crate::money::lemma_money_in_i64;

/// Whether a pending order's price condition holds at price `p`: a buy
/// limit or a stop loss triggers when the price has fallen to the trigger
/// or below, a take profit when it has risen to the trigger or above.
pub open spec fn triggered(o: OrderView, p: int) -> bool {
    match o.kind {
        OrderType::BuyLimit => p <= o.price,
        OrderType::StopLoss => p <= o.price,
        OrderType::TakeProfit => p >= o.price,
    }
}

/// Whether one evaluation of the order against price `p` must convert it
/// into a trade: the trigger holds, the post-trigger funds or holdings
/// check passes, and the amounts involved stay representable.  A buy limit
/// is checked and charged at the live price; a take profit is credited at
/// its trigger price.
pub open spec fn executes(s: crate::app_state::StateView, o: OrderView, p: int) -> bool {
    match o.kind {
        OrderType::BuyLimit => p <= o.price && cost_units(o.quantity, p) <= s.cash && qty_of(
            s.holdings,
            o.symbol,
        ) + o.quantity <= i64::MAX,
        OrderType::StopLoss => p <= o.price && o.quantity <= qty_of(s.holdings, o.symbol)
            && cost_units(o.quantity, p) <= i64::MAX && s.cash + cost_units(o.quantity, p)
            <= i64::MAX,
        OrderType::TakeProfit => p >= o.price && o.quantity <= qty_of(s.holdings, o.symbol)
            && cost_units(o.quantity, o.price) <= i64::MAX && s.cash + cost_units(
            o.quantity,
            o.price,
        ) <= i64::MAX,
    }
}

/// Evaluates an order's trigger condition against a current price.
pub fn check_trigger(order: &OpenOrder, curr_price: Money) -> (r: bool)
    ensures
        r == triggered(order@, curr_price@),
{
    match order.kind() {
        OrderType::BuyLimit => curr_price <= order.get_price_per(),
        OrderType::StopLoss => curr_price <= order.get_price_per(),
        OrderType::TakeProfit => curr_price >= order.get_price_per(),
    }
}

/// Executes a buy-limit order when the current price has reached the limit
/// and the cash balance covers the cost at the live price (not the limit).
/// Executes exactly when the trigger holds, `quantity * price` fits in the
/// balance, and the grown position stays representable; otherwise the
/// ledger is left untouched and the order stays pending.
pub fn buy_limit(state: &mut AppState, order: &OpenOrder, curr_price: Money) -> (executed: bool)
    requires
        old(state).wf(),
        order@.kind == OrderType::BuyLimit,
        order@.quantity > 0,
        order@.price > 0,
        curr_price@ > 0,
    ensures
        final(state).wf(),
        executed == (curr_price@ <= order@.price && cost_units(order@.quantity, curr_price@)
            <= old(state)@.cash && qty_of(old(state)@.holdings, order@.symbol) + order@.quantity
            <= i64::MAX),
        executed ==> final(state)@.cash == old(state)@.cash - cost_units(
            order@.quantity,
            curr_price@,
        ) && final(state)@.holdings == crate::holdings::buy_holdings(
            old(state)@.holdings,
            order@.symbol,
            order@.quantity,
            curr_price@,
        ) && final(state)@.trades.len() == old(state)@.trades.len() + 1
            && final(state)@.trades.drop_last() == old(state)@.trades
            && final(state)@.trades.last().symbol == order@.symbol
            && final(state)@.trades.last().quantity == order@.quantity
            && final(state)@.trades.last().price_per == curr_price@
            && final(state)@.trades.last().side == Side::Buy && final(state)@.open_orders == old(
            state,
        )@.open_orders && final(state)@.watchlist == old(state)@.watchlist,
        !executed ==> final(state)@ == old(state)@,
{
    if curr_price > order.get_price_per() {
        return false;
    }
    let qty = order.get_qty();
    match qty.times_price(curr_price) {
        None => false,
        Some(cost) => {
            if cost > state.check_balance() {
                false
            } else {
                let held = state.get_ticker_holdings_qty(order.get_symbol());
                proof {
                    assert(held@ >= 0) by {
                        let hs = state@.holdings;
                        if crate::holdings::holds(hs, order@.symbol) {
                            let idx = crate::holdings::idx_of(hs, order@.symbol);
                            assert(hs[idx].quantity > 0);
                        }
                    }
                }
                match held.checked_plus(qty) {
                    None => false,
                    Some(grown) => {
                        proof {
                            assert(grown@ <= i64::MAX);
                        }
                        state.apply_buy(order.get_symbol().clone(), qty, curr_price);
                        true
                    },
                }
            }
        },
    }
}

/// Executes a stop-loss order when the current price has fallen to the stop
/// or below, selling at the live price.  Executes exactly when the trigger
/// holds, the position covers the quantity, and the proceeds stay
/// representable; otherwise the ledger is left untouched.
pub fn sell_stop_loss(state: &mut AppState, order: &OpenOrder, curr_price: Money) -> (executed:
    bool)
    requires
        old(state).wf(),
        order@.kind == OrderType::StopLoss,
        order@.quantity > 0,
        order@.price > 0,
        curr_price@ > 0,
    ensures
        final(state).wf(),
        executed == (curr_price@ <= order@.price && order@.quantity <= qty_of(
            old(state)@.holdings,
            order@.symbol,
        ) && cost_units(order@.quantity, curr_price@) <= i64::MAX && old(state)@.cash + cost_units(
            order@.quantity,
            curr_price@,
        ) <= i64::MAX),
        executed ==> final(state)@.cash == old(state)@.cash + cost_units(
            order@.quantity,
            curr_price@,
        ) && final(state)@.holdings == crate::holdings::sell_holdings(
            old(state)@.holdings,
            order@.symbol,
            order@.quantity,
        ) && final(state)@.trades.len() == old(state)@.trades.len() + 1
            && final(state)@.trades.drop_last() == old(state)@.trades
            && final(state)@.trades.last().symbol == order@.symbol
            && final(state)@.trades.last().quantity == order@.quantity
            && final(state)@.trades.last().price_per == curr_price@
            && final(state)@.trades.last().side == Side::Sell && final(state)@.open_orders == old(
            state,
        )@.open_orders && final(state)@.watchlist == old(state)@.watchlist,
        !executed ==> final(state)@ == old(state)@,
{
    if curr_price > order.get_price_per() {
        return false;
    }
    let qty = order.get_qty();
    match qty.times_price(curr_price) {
        None => false,
        Some(proceeds) => {
            match state.check_balance().checked_plus(proceeds) {
                None => false,
                Some(total) => {
                    proof {
                        assert(total@ <= i64::MAX);
                    }
                    let held = state.get_ticker_holdings_qty(order.get_symbol());
                    if qty > held {
                        false
                    } else {
                        let _ = state.apply_sell(order.get_symbol().clone(), qty, curr_price);
                        true
                    }
                },
            }
        },
    }
}

/// Executes a take-profit order when the current price has risen to the
/// target or above.  The sale is made at the trigger price, not the live
/// price: the trade is recorded and the proceeds computed from the target.
/// Executes exactly when the trigger holds, the position covers the
/// quantity, and the proceeds stay representable; otherwise the ledger is
/// left untouched.
pub fn sell_take_profit(state: &mut AppState, order: &OpenOrder, curr_price: Money) -> (executed:
    bool)
    requires
        old(state).wf(),
        order@.kind == OrderType::TakeProfit,
        order@.quantity > 0,
        order@.price > 0,
        curr_price@ > 0,
    ensures
        final(state).wf(),
        executed == (curr_price@ >= order@.price && order@.quantity <= qty_of(
            old(state)@.holdings,
            order@.symbol,
        ) && cost_units(order@.quantity, order@.price) <= i64::MAX && old(state)@.cash
            + cost_units(order@.quantity, order@.price) <= i64::MAX),
        executed ==> final(state)@.cash == old(state)@.cash + cost_units(
            order@.quantity,
            order@.price,
        ) && final(state)@.holdings == crate::holdings::sell_holdings(
            old(state)@.holdings,
            order@.symbol,
            order@.quantity,
        ) && final(state)@.trades.len() == old(state)@.trades.len() + 1
            && final(state)@.trades.drop_last() == old(state)@.trades
            && final(state)@.trades.last().symbol == order@.symbol
            && final(state)@.trades.last().quantity == order@.quantity
            && final(state)@.trades.last().price_per == order@.price
            && final(state)@.trades.last().side == Side::Sell && final(state)@.open_orders == old(
            state,
        )@.open_orders && final(state)@.watchlist == old(state)@.watchlist,
        !executed ==> final(state)@ == old(state)@,
{
    if curr_price < order.get_price_per() {
        return false;
    }
    let qty = order.get_qty();
    let target = order.get_price_per();
    match qty.times_price(target) {
        None => false,
        Some(proceeds) => {
            match state.check_balance().checked_plus(proceeds) {
                None => false,
                Some(total) => {
                    proof {
                        assert(total@ <= i64::MAX);
                    }
                    let held = state.get_ticker_holdings_qty(order.get_symbol());
                    if qty > held {
                        false
                    } else {
                        let _ = state.apply_sell(order.get_symbol().clone(), qty, target);
                        true
                    }
                },
            }
        },
    }
}

/// One evaluation step of the engine's tick: evaluates the order against
/// the current price, executes it when its trigger and its funds or
/// holdings check pass, and removes the first matching entry from the book
/// once executed.  When the order does not execute, the ledger is left
/// exactly as it was and the order stays pending.
pub fn execute_open_order(state: &mut AppState, order: &OpenOrder, curr_price: Money) -> (executed:
    bool)
    requires
        old(state).wf(),
        order@.quantity > 0,
        order@.price > 0,
        curr_price@ > 0,
    ensures
        final(state).wf(),
        executed == executes(old(state)@, order@, curr_price@),
        !executed ==> final(state)@ == old(state)@,
        executed ==> triggered(order@, curr_price@),
        executed ==> final(state)@.trades.len() == old(state)@.trades.len() + 1
            && final(state)@.trades.drop_last() == old(state)@.trades
            && final(state)@.trades.last().symbol == order@.symbol
            && final(state)@.trades.last().quantity == order@.quantity
            && final(state)@.trades.last().side == order@.side()
            && final(state)@.trades.last().price_per == (if order@.kind == OrderType::TakeProfit {
            order@.price
        } else {
            curr_price@
        }),
        executed && order@.kind == OrderType::BuyLimit ==> final(state)@.cash == old(state)@.cash
            - cost_units(order@.quantity, curr_price@) && final(state)@.holdings
            == crate::holdings::buy_holdings(
            old(state)@.holdings,
            order@.symbol,
            order@.quantity,
            curr_price@,
        ),
        executed && order@.kind == OrderType::StopLoss ==> final(state)@.cash == old(state)@.cash
            + cost_units(order@.quantity, curr_price@) && final(state)@.holdings
            == crate::holdings::sell_holdings(old(state)@.holdings, order@.symbol, order@.quantity),
        executed && order@.kind == OrderType::TakeProfit ==> final(state)@.cash == old(state)@.cash
            + cost_units(order@.quantity, order@.price) && final(state)@.holdings
            == crate::holdings::sell_holdings(old(state)@.holdings, order@.symbol, order@.quantity),
        executed ==> (final(state)@.open_orders == old(state)@.open_orders && forall|j: int|
            0 <= j < old(state)@.open_orders.len() ==> !order_matches(
                #[trigger] old(state)@.open_orders[j],
                order@,
            )) || exists|i: int|
            0 <= i < old(state)@.open_orders.len() && order_matches(
                #[trigger] old(state)@.open_orders[i],
                order@,
            ) && (forall|j: int| 0 <= j < i ==> !order_matches(#[trigger] old(state)@.open_orders[j], order@))
                && final(state)@.open_orders == old(state)@.open_orders.remove(i),
        executed ==> final(state)@.watchlist == old(state)@.watchlist,
    {
    let executed = match order.kind() {
        OrderType::BuyLimit => buy_limit(state, order, curr_price),
        OrderType::StopLoss => sell_stop_loss(state, order, curr_price),
        OrderType::TakeProfit => sell_take_profit(state, order, curr_price),
    };
    if executed {
        let _ = state.remove_one_order(order);
    }
    executed
}

/// One order's share of a tick, fed with the outcome of the price lookup.
/// A missing quote (the source failed, or supplied a non-positive price)
/// never executes anything and leaves the ledger untouched: the failure is
/// absorbed and the order is simply not triggered this tick.
pub fn process_quote(state: &mut AppState, order: &OpenOrder, quote: Option<Money>) -> (executed:
    bool)
    requires
        old(state).wf(),
        order@.quantity > 0,
        order@.price > 0,
    ensures
        final(state).wf(),
        executed == (quote matches Some(p) && p@ > 0 && executes(old(state)@, order@, p@)),
        !executed ==> final(state)@ == old(state)@,
        quote is None ==> !executed,
        executed ==> (quote matches Some(p) && p@ > 0 && triggered(order@, p@)),
{
    match quote {
        Some(p) => {
            if p.is_positive() {
                execute_open_order(state, order, p)
            } else {
                false
            }
        },
        None => false,
    }
}

} // verus!
