//! The ledger aggregate: cash, holdings, trade log, open orders, watchlist.
//!
//! `AppState` is the only component that mutates these fields, and every
//! mutating operation is all-or-nothing: a rejected operation leaves every
//! field exactly as it was.

use vstd::prelude::*;

use crate::book::{
    book_sorted, buy_reserved, orders_positive, sell_reserved,
};
use crate::errors::LedgerError;
use crate::holdings::{holdings_wf, Holding, HoldingView};
use crate::money::Money;
use crate::orders::{OpenOrder, OrderView, Trade, TradeView};

verus! {

broadcast use crate::money::lemma_money_in_i64;

/// Mathematical image of the whole ledger.
pub ghost struct StateView {
    pub cash: int,
    pub holdings: Seq<HoldingView>,
    pub trades: Seq<TradeView>,
    pub open_orders: Seq<OrderView>,
    pub watchlist: Seq<Seq<char>>,
}

/// The images of a list of positions.
pub open spec fn holding_views(hs: Seq<Holding>) -> Seq<HoldingView> {
    hs.map_values(|h: Holding| h@)
}

/// The images of a list of trades.
pub open spec fn trade_views(ts: Seq<Trade>) -> Seq<TradeView> {
    ts.map_values(|t: Trade| t@)
}

/// The images of a list of open orders.
pub open spec fn order_views(os: Seq<OpenOrder>) -> Seq<OrderView> {
    os.map_values(|o: OpenOrder| o@)
}

/// The images of a list of symbols.
pub open spec fn symbol_views(ws: Seq<String>) -> Seq<Seq<char>> {
    ws.map_values(|w: String| w@)
}

/// The image of a freshly created ledger: zero cash, nothing held,
/// no trades, no orders, nothing watched.
pub open spec fn empty_state() -> StateView {
    StateView {
        cash: 0,
        holdings: Seq::empty(),
        trades: Seq::empty(),
        open_orders: Seq::empty(),
        watchlist: Seq::empty(),
    }
}

/// The ledger's cross-field invariant, true between operations:
/// cash never negative, positions well formed, every pending order
/// for a positive quantity at a positive price, the book in its canonical
/// order, the reserved sums representable, and no symbol watched twice.
pub open spec fn state_wf(s: StateView) -> bool {
    &&& 0 <= s.cash <= i64::MAX
    &&& holdings_wf(s.holdings)
    &&& orders_positive(s.open_orders)
    &&& book_sorted(s.open_orders)
    &&& buy_reserved(s.open_orders) <= i64::MAX
    &&& forall|sym: Seq<char>| #[trigger] sell_reserved(s.open_orders, sym) <= i64::MAX
    &&& forall|i: int, j: int|
        0 <= i < j < s.watchlist.len() ==> s.watchlist[i] != s.watchlist[j]
}

/// Moving cash within the representable range, or rewriting the trade
/// log, cannot break the ledger invariant: it constrains only the cash
/// bounds, the holdings, the order book and the watchlist.
proof fn lemma_wf_same_core(a: StateView, b: StateView)
    requires
        state_wf(a),
        0 <= b.cash <= i64::MAX,
        b.holdings == a.holdings,
        b.open_orders == a.open_orders,
        b.watchlist == a.watchlist,
    ensures
        state_wf(b),
{
}

/// The ledger: cash balance, holdings, executed trades, pending orders and
/// the watchlist.
#[derive(Debug)]
pub struct AppState {
    cash_balance: Money,
    holdings: Vec<Holding>,
    trades: Vec<Trade>,
    open_orders: Vec<OpenOrder>,
    watchlist: Vec<String>,
}

impl View for AppState {
    type V = StateView;

    closed spec fn view(&self) -> StateView {
        StateView {
            cash: self.cash_balance@,
            holdings: holding_views(self.holdings@),
            trades: trade_views(self.trades@),
            open_orders: order_views(self.open_orders@),
            watchlist: symbol_views(self.watchlist@),
        }
    }
}

impl AppState {
    /// The ledger's invariant, stated of this instance.
    pub open spec fn wf(&self) -> bool {
        state_wf(self@)
    }

    /// A fresh, empty ledger.
    pub fn new() -> (s: AppState)
        ensures
            s@ == empty_state(),
            s.wf(),
    {
        let s = AppState {
            cash_balance: Money::zero(),
            holdings: Vec::new(),
            trades: Vec::new(),
            open_orders: Vec::new(),
            watchlist: Vec::new(),
        };
        proof {
            assert(s@.holdings =~= Seq::<HoldingView>::empty());
            assert(s@.trades =~= Seq::<TradeView>::empty());
            assert(s@.open_orders =~= Seq::<OrderView>::empty());
            assert(s@.watchlist =~= Seq::<Seq<char>>::empty());
        }
        s
    }

    /// Empties the ledger: zero cash, no holdings, trades, orders or
    /// watched symbols.
    pub fn reset(&mut self)
        ensures
            final(self)@ == empty_state(),
            final(self).wf(),
    {
        self.cash_balance = Money::zero();
        self.holdings = Vec::new();
        self.trades = Vec::new();
        self.open_orders = Vec::new();
        self.watchlist = Vec::new();
        proof {
            assert(self@.holdings =~= Seq::<HoldingView>::empty());
            assert(self@.trades =~= Seq::<TradeView>::empty());
            assert(self@.open_orders =~= Seq::<OrderView>::empty());
            assert(self@.watchlist =~= Seq::<Seq<char>>::empty());
        }
    }

    /// The current cash balance.
    pub fn check_balance(&self) -> (m: Money)
        ensures
            m@ == self@.cash,
    {
        self.cash_balance
    }

    /// Adds funds.  A non-positive amount is rejected with `InvalidAmount`
    /// and changes nothing; otherwise the cash balance grows by exactly the
    /// amount.  There is no upper bound beyond what the representation holds.
    pub fn deposit(&mut self, amount: Money) -> (r: Result<&'static str, LedgerError>)
        requires
            old(self).wf(),
            amount@ > 0 ==> old(self)@.cash + amount@ <= i64::MAX,
        ensures
            final(self).wf(),
            amount@ > 0 ==> r is Ok && final(self)@ == (StateView {
                cash: old(self)@.cash + amount@,
                ..old(self)@
            }),
            amount@ <= 0 ==> r == Err::<&'static str, LedgerError>(LedgerError::InvalidAmount)
                && final(self)@ == old(self)@,
            final(self)@.cash == crate::laws::cash_step(
                old(self)@.cash,
                crate::laws::CashOp::Deposit(amount@),
            ),
    {
        if !amount.is_positive() {
            return Err(LedgerError::InvalidAmount);
        }
        self.cash_balance = self.cash_balance.plus(amount);
        Ok("Funds deposited")
    }

    /// Removes funds.  A non-positive amount is rejected with
    /// `InvalidAmount`; an amount above the cash balance is rejected with
    /// `InsufficientBalance`; rejections change nothing.  Otherwise the cash
    /// balance shrinks by exactly the amount.
    pub fn withdraw(&mut self, amount: Money) -> (r: Result<&'static str, LedgerError>)
        requires
            old(self).wf(),
        ensures
            final(self).wf(),
            amount@ <= 0 ==> r == Err::<&'static str, LedgerError>(LedgerError::InvalidAmount)
                && final(self)@ == old(self)@,
            amount@ > old(self)@.cash ==> r == Err::<&'static str, LedgerError>(
                LedgerError::InsufficientBalance,
            ) && final(self)@ == old(self)@,
            0 < amount@ <= old(self)@.cash ==> r is Ok && final(self)@ == (StateView {
                cash: old(self)@.cash - amount@,
                ..old(self)@
            }),
            final(self)@.cash == crate::laws::cash_step(
                old(self)@.cash,
                crate::laws::CashOp::Withdraw(amount@),
            ),
    {
        if !amount.is_positive() {
            return Err(LedgerError::InvalidAmount);
        }
        if amount > self.cash_balance {
            return Err(LedgerError::InsufficientBalance);
        }
        self.cash_balance = self.cash_balance.minus(amount);
        Ok("Funds withdrawn")
    }

    /// Removes the already-validated cost of a purchase from the cash
    /// balance.  The caller has checked availability under the same lock;
    /// this call does not re-validate.  A non-positive amount changes
    /// nothing.
    pub fn withdraw_purchase(&mut self, amount: Money)
        requires
            old(self).wf(),
            amount@ > 0 ==> amount@ <= old(self)@.cash,
        ensures
            final(self).wf(),
            amount@ > 0 ==> final(self)@ == (StateView { cash: old(self)@.cash - amount@, ..old(self)@ }),
            amount@ <= 0 ==> final(self)@ == old(self)@,
    {
        if !amount.is_positive() {
            return ;
        }
        self.cash_balance = self.cash_balance.minus(amount);
    }

    /// Adds the proceeds of a sale to the cash balance.
    pub fn deposit_sell(&mut self, amount: Money)
        requires
            old(self).wf(),
            amount@ >= 0,
            old(self)@.cash + amount@ <= i64::MAX,
        ensures
            final(self).wf(),
            final(self)@ == (StateView { cash: old(self)@.cash + amount@, ..old(self)@ }),
    {
        self.cash_balance = self.cash_balance.plus(amount);
    }

    /// Appends a completed trade to the log.  The log is append-only:
    /// nothing else about the ledger moves.
    pub fn add_trade(&mut self, trade_to_add: Trade)
        ensures
            final(self)@ == (StateView {
                trades: old(self)@.trades.push(trade_to_add@),
                ..old(self)@
            }),
            old(self).wf() ==> final(self).wf(),
    {
        let ghost prev = self.trades@;
        self.trades.push(trade_to_add);
        proof {
            assert(trade_views(self.trades@) =~= trade_views(prev).push(trade_to_add@));
        }
    }

    /// A snapshot of the trade log, in insertion order.
    #[verifier::loop_isolation(false)]
    pub fn get_trades(&self) -> (r: Vec<Trade>)
        ensures
            trade_views(r@) == self@.trades,
    {
        let mut out: Vec<Trade> = Vec::new();
        let n = self.trades.len();
        let mut i: usize = 0;
        while i < n
            invariant
                i <= n,
                n == self.trades.len(),
                trade_views(out@) =~= self@.trades.subrange(0, i as int),
            decreases n - i,
        {
            out.push(self.trades[i].duplicate());
            proof {
                assert(trade_views(out@) =~= self@.trades.subrange(0, (i + 1) as int));
            }
            i = i + 1;
        }
        proof {
            assert(self@.trades.subrange(0, n as int) =~= self@.trades);
        }
        out
    }

    /// The index of the position for `symbol`, if one exists.
    #[verifier::loop_isolation(false)]
    fn find_holding_index(&self, symbol: &String) -> (r: Option<usize>)
        ensures
            match r {
                Some(i) => i < self.holdings_len_spec() && self@.holdings[i as int].name
                    == symbol@ && crate::holdings::holds(self@.holdings, symbol@),
                None => !crate::holdings::holds(self@.holdings, symbol@),
            },
    {
        let n = self.holdings.len();
        let mut i: usize = 0;
        while i < n
            invariant
                i <= n,
                n == self.holdings.len(),
                forall|j: int| 0 <= j < i ==> self@.holdings[j].name != symbol@,
            decreases n - i,
        {
            if *self.holdings[i].get_symbol() == *symbol {
                return Some(i);
            }
            i = i + 1;
        }
        None
    }

    /// The number of positions (specification helper).
    pub closed spec fn holdings_len_spec(&self) -> usize {
        self.holdings.len()
    }

    /// The held quantity of `ticker`, zero when no position exists.
    pub fn get_ticker_holdings_qty(&self, ticker: &String) -> (q: Money)
        requires
            self.wf(),
        ensures
            q@ == crate::holdings::qty_of(self@.holdings, ticker@),
    {
        match self.find_holding_index(ticker) {
            Some(i) => {
                proof {
                    assert(crate::holdings::idx_of(self@.holdings, ticker@) == i) by {
                        let k = crate::holdings::idx_of(self@.holdings, ticker@);
                        assert(self@.holdings[k].name == ticker@);
                    }
                }
                self.holdings[i].get_qty()
            },
            None => Money::zero(),
        }
    }

    /// A snapshot of every position, in their stored order.
    #[verifier::loop_isolation(false)]
    pub fn get_holdings_map(&self) -> (r: Vec<Holding>)
        ensures
            holding_views(r@) == self@.holdings,
    {
        let mut out: Vec<Holding> = Vec::new();
        let n = self.holdings.len();
        let mut i: usize = 0;
        while i < n
            invariant
                i <= n,
                n == self.holdings.len(),
                holding_views(out@) =~= self@.holdings.subrange(0, i as int),
            decreases n - i,
        {
            out.push(self.holdings[i].duplicate());
            proof {
                assert(holding_views(out@) =~= self@.holdings.subrange(0, (i + 1) as int));
            }
            i = i + 1;
        }
        proof {
            assert(self@.holdings.subrange(0, n as int) =~= self@.holdings);
        }
        out
    }

    /// Replaces the positions wholesale (used when rehydrating from
    /// storage).  The replacement is validated: a list with a non-positive
    /// quantity, a negative average cost or a repeated symbol is rejected
    /// with `InvalidAmount` and changes nothing.
    #[verifier::loop_isolation(false)]
    pub fn set_holdings_map(&mut self, new_holdings_map: Vec<Holding>) -> (r: Result<
        &'static str,
        LedgerError,
    >)
        requires
            old(self).wf(),
        ensures
            final(self).wf(),
            r is Ok <==> holdings_wf(holding_views(new_holdings_map@)),
            r is Ok ==> final(self)@ == (StateView {
                holdings: holding_views(new_holdings_map@),
                ..old(self)@
            }),
            r is Err ==> r == Err::<&'static str, LedgerError>(LedgerError::InvalidAmount)
                && final(self)@ == old(self)@,
    {
        let ghost views = holding_views(new_holdings_map@);
        let n = new_holdings_map.len();
        let mut i: usize = 0;
        while i < n
            invariant
                i <= n,
                n == new_holdings_map.len(),
                views == holding_views(new_holdings_map@),
                forall|k: int|
                    0 <= k < i ==> (#[trigger] views[k]).quantity > 0 && views[k].avg_cost >= 0
                        && views[k].quantity <= i64::MAX && views[k].avg_cost <= i64::MAX,
                forall|k: int, l: int| 0 <= k < l < i ==> views[k].name != views[l].name,
            decreases n - i,
        {
            let q = new_holdings_map[i].get_qty();
            let a = new_holdings_map[i].get_avg_price();
            proof {
                assert(views[i as int].quantity == q@);
                assert(views[i as int].avg_cost == a@);
            }
            if !q.is_positive() {
                proof {
                    assert(views[i as int].quantity <= 0);
                }
                return Err(LedgerError::InvalidAmount);
            }
            if a.units() < 0 {
                proof {
                    assert(views[i as int].avg_cost < 0);
                }
                return Err(LedgerError::InvalidAmount);
            }
            let mut j: usize = 0;
            while j < i
                invariant
                    j <= i,
                    i < n,
                    n == new_holdings_map.len(),
                    views == holding_views(new_holdings_map@),
                    forall|k: int| 0 <= k < j ==> views[k].name != views[i as int].name,
                decreases i - j,
            {
                if *new_holdings_map[j].get_symbol() == *new_holdings_map[i].get_symbol() {
                    proof {
                        assert(views[j as int].name == views[i as int].name);
                    }
                    return Err(LedgerError::InvalidAmount);
                }
                j = j + 1;
            }
            i = i + 1;
        }
        self.holdings = new_holdings_map;
        Ok("Holdings replaced")
    }

    /// A snapshot of the watchlist.
    #[verifier::loop_isolation(false)]
    pub fn get_watchlist(&self) -> (r: Vec<String>)
        ensures
            symbol_views(r@) == self@.watchlist,
    {
        let mut out: Vec<String> = Vec::new();
        let n = self.watchlist.len();
        let mut i: usize = 0;
        while i < n
            invariant
                i <= n,
                n == self.watchlist.len(),
                symbol_views(out@) =~= self@.watchlist.subrange(0, i as int),
            decreases n - i,
        {
            out.push(self.watchlist[i].clone());
            proof {
                assert(symbol_views(out@) =~= self@.watchlist.subrange(0, (i + 1) as int));
            }
            i = i + 1;
        }
        proof {
            assert(self@.watchlist.subrange(0, n as int) =~= self@.watchlist);
        }
        out
    }

    /// Starts watching a symbol.  A symbol already watched is not added
    /// twice; nothing else about the ledger moves.
    #[verifier::loop_isolation(false)]
    pub fn add_to_watchlist(&mut self, symbol: String)
        requires
            old(self).wf(),
        ensures
            final(self).wf(),
            old(self)@.watchlist.contains(symbol@) ==> final(self)@ == old(self)@,
            !old(self)@.watchlist.contains(symbol@) ==> final(self)@ == (StateView {
                watchlist: old(self)@.watchlist.push(symbol@),
                ..old(self)@
            }),
    {
        let n = self.watchlist.len();
        let mut i: usize = 0;
        while i < n
            invariant
                i <= n,
                n == self.watchlist.len(),
                forall|j: int| 0 <= j < i ==> self@.watchlist[j] != symbol@,
            decreases n - i,
        {
            if self.watchlist[i].eq(&symbol) {
                proof {
                    assert(self@.watchlist[i as int] == symbol@);
                    assert(self@.watchlist.contains(symbol@));
                }
                return ;
            }
            i = i + 1;
        }
        proof {
            assert(!self@.watchlist.contains(symbol@));
        }
        let ghost prev = self.watchlist@;
        self.watchlist.push(symbol);
        proof {
            assert(symbol_views(self.watchlist@) =~= symbol_views(prev).push(
                self.watchlist@[prev.len() as int]@,
            ));
        }
    }

    /// Stops watching a symbol.  Removing a symbol that is not watched
    /// changes nothing.
    #[verifier::loop_isolation(false)]
    pub fn remove_from_watchlist(&mut self, symbol: String)
        requires
            old(self).wf(),
        ensures
            final(self).wf(),
            !old(self)@.watchlist.contains(symbol@) ==> final(self)@ == old(self)@,
            old(self)@.watchlist.contains(symbol@) ==> exists|i: int|
                0 <= i < old(self)@.watchlist.len() && old(self)@.watchlist[i] == symbol@
                    && final(self)@ == (StateView {
                    watchlist: old(self)@.watchlist.remove(i),
                    ..old(self)@
                }),
    {
        let n = self.watchlist.len();
        let mut i: usize = 0;
        while i < n
            invariant
                i <= n,
                *self == *old(self),
                n == self.watchlist.len(),
                forall|j: int| 0 <= j < i ==> self@.watchlist[j] != symbol@,
            decreases n - i,
        {
            if self.watchlist[i].eq(&symbol) {
                proof {
                    assert(old(self)@.watchlist[i as int] == symbol@);
                    assert(old(self)@.watchlist.contains(symbol@));
                }
                let ghost prev = self.watchlist@;
                self.watchlist.remove(i);
                proof {
                    assert(symbol_views(self.watchlist@) =~= symbol_views(prev).remove(i as int));
                    assert(self@ == (StateView {
                        watchlist: old(self)@.watchlist.remove(i as int),
                        ..old(self)@
                    }));
                    assert forall|k: int, l: int|
                        0 <= k < l < self@.watchlist.len() implies self@.watchlist[k]
                        != self@.watchlist[l] by {
                        let k0 = if k < i { k } else { k + 1 };
                        let l0 = if l < i { l } else { l + 1 };
                        assert(self@.watchlist[k] == old(self)@.watchlist[k0]);
                        assert(self@.watchlist[l] == old(self)@.watchlist[l0]);
                    }
                }
                return ;
            }
            i = i + 1;
        }
        proof {
            assert(!self@.watchlist.contains(symbol@));
        }
    }
}

impl AppState {
    /// Grows (or opens) the position for `ticker` by `quantity` bought at
    /// `price_per`, with weighted-average-cost accounting.  Only the
    /// holdings move: cash, trades, orders and watchlist are untouched.
    pub fn add_to_holdings(&mut self, ticker: &String, quantity: Money, price_per: Money)
        requires
            old(self).wf(),
            quantity@ > 0,
            price_per@ > 0,
            crate::holdings::qty_of(old(self)@.holdings, ticker@) + quantity@ <= i64::MAX,
        ensures
            final(self).wf(),
            final(self)@ == (StateView {
                holdings: crate::holdings::buy_holdings(
                    old(self)@.holdings,
                    ticker@,
                    quantity@,
                    price_per@,
                ),
                ..old(self)@
            }),
    {
        let ghost hs0 = self@.holdings;
        match self.find_holding_index(ticker) {
            Some(i) => {
                proof {
                    let k = crate::holdings::idx_of(hs0, ticker@);
                    assert(hs0[k].name == ticker@);
                    assert(k == i);
                }
                let old_qty = self.holdings[i].get_qty();
                let old_avg = self.holdings[i].get_avg_price();
                let new_qty = old_qty.plus(quantity);
                let new_avg = Money::weighted_avg(old_qty, old_avg, quantity, price_per);
                self.holdings.set(i, Holding::new(ticker.clone(), new_qty, new_avg));
                proof {
                    assert(holding_views(self.holdings@) =~= crate::holdings::buy_holdings(
                        hs0,
                        ticker@,
                        quantity@,
                        price_per@,
                    ));
                }
            },
            None => {
                self.holdings.push(Holding::new(ticker.clone(), quantity, price_per));
                proof {
                    assert(holding_views(self.holdings@) =~= crate::holdings::buy_holdings(
                        hs0,
                        ticker@,
                        quantity@,
                        price_per@,
                    ));
                }
            },
        }
        proof {
            crate::holdings::lemma_buy_holdings_wf(hs0, ticker@, quantity@, price_per@);
            assert(0 <= self@.cash <= i64::MAX);
            assert(self@.watchlist == old(self)@.watchlist);
            assert(forall|i: int, j: int|
                0 <= i < j < self@.watchlist.len() ==> self@.watchlist[i] != self@.watchlist[j]);
        }
    }

    /// Shrinks the position for `ticker` by `quantity`, leaving the average
    /// cost untouched and removing a position sold down to exactly zero.
    /// Only the holdings move.
    pub fn remove_from_holdings(&mut self, ticker: &String, quantity: Money)
        requires
            old(self).wf(),
            0 < quantity@ <= crate::holdings::qty_of(old(self)@.holdings, ticker@),
        ensures
            final(self).wf(),
            final(self)@ == (StateView {
                holdings: crate::holdings::sell_holdings(old(self)@.holdings, ticker@, quantity@),
                ..old(self)@
            }),
    {
        let ghost hs0 = self@.holdings;
        match self.find_holding_index(ticker) {
            None => {
                proof {
                    assert(false);
                }
            },
            Some(i) => {
                proof {
                    let k = crate::holdings::idx_of(hs0, ticker@);
                    assert(hs0[k].name == ticker@);
                    assert(k == i);
                }
                let held = self.holdings[i].get_qty();
                if quantity.units() == held.units() {
                    let ghost v0 = self.holdings@;
                    self.holdings.remove(i);
                    proof {
                        v0.remove_ensures(i as int);
                        hs0.remove_ensures(i as int);
                        assert forall|k: int|
                            0 <= k < holding_views(self.holdings@).len() implies holding_views(
                            self.holdings@,
                        )[k] == hs0.remove(i as int)[k] by {
                            if k < i {
                                assert(self.holdings@[k] == v0[k]);
                                assert(hs0.remove(i as int)[k] == hs0[k]);
                            } else {
                                assert(self.holdings@[k] == v0[k + 1]);
                                assert(hs0.remove(i as int)[k] == hs0[k + 1]);
                            }
                        }
                        assert(holding_views(self.holdings@) =~= hs0.remove(i as int));
                        assert(hs0[i as int].quantity == quantity@);
                        assert(holding_views(self.holdings@) =~= crate::holdings::sell_holdings(
                            hs0,
                            ticker@,
                            quantity@,
                        ));
                    }
                } else {
                    let old_avg = self.holdings[i].get_avg_price();
                    let new_qty = held.minus(quantity);
                    self.holdings.set(i, Holding::new(ticker.clone(), new_qty, old_avg));
                    proof {
                        let target = crate::holdings::sell_holdings(hs0, ticker@, quantity@);
                        assert(target == hs0.update(
                            i as int,
                            crate::holdings::HoldingView {
                                name: ticker@,
                                quantity: hs0[i as int].quantity - quantity@,
                                avg_cost: hs0[i as int].avg_cost,
                            },
                        ));
                        assert(holding_views(self.holdings@) =~= target);
                    }
                }
                proof {
                    crate::holdings::lemma_sell_holdings_wf(hs0, ticker@, quantity@);
                    assert(0 <= self@.cash <= i64::MAX);
                    assert(self@.watchlist == old(self)@.watchlist);
                    assert(forall|a: int, b: int|
                        0 <= a < b < self@.watchlist.len() ==> self@.watchlist[a]
                            != self@.watchlist[b]);
                }
            },
        }
    }

    /// Applies an already-validated purchase: withdraws the exact cost
    /// `quantity * price` from cash, grows (or opens) the position with
    /// weighted-average-cost accounting, and appends a buy trade.  The
    /// caller has checked fund availability under the same lock; this call
    /// does not re-validate.
    pub fn apply_buy(&mut self, symbol: String, quantity: Money, price: Money)
        requires
            old(self).wf(),
            quantity@ > 0,
            price@ > 0,
            crate::money::cost_units(quantity@, price@) <= old(self)@.cash,
            crate::holdings::qty_of(old(self)@.holdings, symbol@) + quantity@ <= i64::MAX,
        ensures
            final(self).wf(),
            final(self)@.cash == old(self)@.cash - crate::money::cost_units(quantity@, price@),
            final(self)@.holdings == crate::holdings::buy_holdings(
                old(self)@.holdings,
                symbol@,
                quantity@,
                price@,
            ),
            final(self)@.trades.len() == old(self)@.trades.len() + 1,
            final(self)@.trades.drop_last() == old(self)@.trades,
            final(self)@.trades.last().symbol == symbol@,
            final(self)@.trades.last().quantity == quantity@,
            final(self)@.trades.last().price_per == price@,
            final(self)@.trades.last().side == crate::orders::Side::Buy,
            final(self)@.open_orders == old(self)@.open_orders,
            final(self)@.watchlist == old(self)@.watchlist,
    {
        let ghost hs0 = self@.holdings;
        let cost = quantity.times_price(price).unwrap();
        self.cash_balance = self.cash_balance.minus(cost);
        proof {
            lemma_wf_same_core(old(self)@, self@);
        }
        self.add_to_holdings(&symbol, quantity, price);
        let ghost mid = self@;
        let ghost ts0 = trade_views(self.trades@);
        let t = Trade::buy(symbol, quantity, price);
        self.trades.push(t);
        proof {
            assert(trade_views(self.trades@) =~= ts0.push(self.trades@.last()@));
            assert(trade_views(self.trades@).drop_last() =~= ts0);
            lemma_wf_same_core(mid, self@);
        }
    }

    /// Applies a sale: rejects with `InsufficientHoldings` (changing
    /// nothing) when more is sold than is held; otherwise deposits the
    /// exact proceeds `quantity * price`, shrinks the position (removing it
    /// when it reaches exactly zero, with the average cost untouched), and
    /// appends a sell trade.
    pub fn apply_sell(&mut self, symbol: String, quantity: Money, price: Money) -> (r: Result<
        &'static str,
        LedgerError,
    >)
        requires
            old(self).wf(),
            quantity@ > 0,
            price@ > 0,
            crate::money::cost_units(quantity@, price@) <= i64::MAX,
            old(self)@.cash + crate::money::cost_units(quantity@, price@) <= i64::MAX,
        ensures
            final(self).wf(),
            quantity@ <= crate::holdings::qty_of(old(self)@.holdings, symbol@) ==> r is Ok
                && final(self)@.cash == old(self)@.cash + crate::money::cost_units(
                quantity@,
                price@,
            ) && final(self)@.holdings == crate::holdings::sell_holdings(
                old(self)@.holdings,
                symbol@,
                quantity@,
            ) && final(self)@.trades.len() == old(self)@.trades.len() + 1
                && final(self)@.trades.drop_last() == old(self)@.trades
                && final(self)@.trades.last().symbol == symbol@
                && final(self)@.trades.last().quantity == quantity@
                && final(self)@.trades.last().price_per == price@
                && final(self)@.trades.last().side == crate::orders::Side::Sell
                && final(self)@.open_orders == old(self)@.open_orders
                && final(self)@.watchlist == old(self)@.watchlist,
            quantity@ > crate::holdings::qty_of(old(self)@.holdings, symbol@) ==> r == Err::<
                &'static str,
                LedgerError,
            >(LedgerError::InsufficientHoldings) && final(self)@ == old(self)@,
    {
        let ghost hs0 = self@.holdings;
        match self.find_holding_index(&symbol) {
            None => Err(LedgerError::InsufficientHoldings),
            Some(i) => {
                proof {
                    let k = crate::holdings::idx_of(hs0, symbol@);
                    assert(hs0[k].name == symbol@);
                    assert(k == i);
                }
                let held = self.holdings[i].get_qty();
                if quantity > held {
                    return Err(LedgerError::InsufficientHoldings);
                }
                let proceeds = quantity.times_price(price).unwrap();
                self.cash_balance = self.cash_balance.plus(proceeds);
                proof {
                    lemma_wf_same_core(old(self)@, self@);
                }
                self.remove_from_holdings(&symbol, quantity);
                let ghost mid = self@;
                let ghost ts0 = trade_views(self.trades@);
                let t = Trade::sell(symbol, quantity, price);
                self.trades.push(t);
                proof {
                    assert(trade_views(self.trades@) =~= ts0.push(self.trades@.last()@));
                    assert(trade_views(self.trades@).drop_last() =~= ts0);
                    lemma_wf_same_core(mid, self@);
                }
                Ok("Sale applied")
            },
        }
    }

    /// A market buy: validates the quantity and price, checks the cash
    /// balance, and applies the purchase at the given price.  Exactly the
    /// orders with a positive quantity and price whose full cost fits in the
    /// balance go through.
    pub fn market_buy(&mut self, symbol: String, quantity: Money, price: Money) -> (r: Result<
        &'static str,
        LedgerError,
    >)
        requires
            old(self).wf(),
            crate::holdings::qty_of(old(self)@.holdings, symbol@) + quantity@ <= i64::MAX,
        ensures
            final(self).wf(),
            quantity@ <= 0 || price@ <= 0 ==> r == Err::<&'static str, LedgerError>(
                LedgerError::InvalidAmount,
            ) && final(self)@ == old(self)@,
            quantity@ > 0 && price@ > 0 && crate::money::cost_units(quantity@, price@)
                > old(self)@.cash ==> r == Err::<&'static str, LedgerError>(
                LedgerError::InsufficientFunds,
            ) && final(self)@ == old(self)@,
            quantity@ > 0 && price@ > 0 && crate::money::cost_units(quantity@, price@) <= old(
                self,
            )@.cash ==> r is Ok && final(self)@.cash == old(self)@.cash
                - crate::money::cost_units(quantity@, price@) && final(self)@.holdings
                == crate::holdings::buy_holdings(old(self)@.holdings, symbol@, quantity@, price@)
                && final(self)@.trades.len() == old(self)@.trades.len() + 1
                && final(self)@.trades.drop_last() == old(self)@.trades
                && final(self)@.trades.last().symbol == symbol@
                && final(self)@.trades.last().quantity == quantity@
                && final(self)@.trades.last().price_per == price@
                && final(self)@.trades.last().side == crate::orders::Side::Buy
                && final(self)@.open_orders == old(self)@.open_orders
                && final(self)@.watchlist == old(self)@.watchlist,
    {
        if !quantity.is_positive() || !price.is_positive() {
            return Err(LedgerError::InvalidAmount);
        }
        match quantity.times_price(price) {
            None => Err(LedgerError::InsufficientFunds),
            Some(cost) => {
                if cost > self.cash_balance {
                    Err(LedgerError::InsufficientFunds)
                } else {
                    self.apply_buy(symbol, quantity, price);
                    Ok("Purchase complete")
                }
            },
        }
    }

    /// A market sell: validates the quantity and price, checks the held
    /// quantity, and applies the sale at the given price.  Exactly the
    /// orders with a positive quantity and price not exceeding the held
    /// quantity go through.
    pub fn market_sell(&mut self, symbol: String, quantity: Money, price: Money) -> (r: Result<
        &'static str,
        LedgerError,
    >)
        requires
            old(self).wf(),
            crate::money::cost_units(quantity@, price@) <= i64::MAX,
            old(self)@.cash + crate::money::cost_units(quantity@, price@) <= i64::MAX,
        ensures
            final(self).wf(),
            quantity@ <= 0 || price@ <= 0 ==> r == Err::<&'static str, LedgerError>(
                LedgerError::InvalidAmount,
            ) && final(self)@ == old(self)@,
            quantity@ > 0 && price@ > 0 && quantity@ > crate::holdings::qty_of(
                old(self)@.holdings,
                symbol@,
            ) ==> r == Err::<&'static str, LedgerError>(LedgerError::InsufficientHoldings)
                && final(self)@ == old(self)@,
            quantity@ > 0 && price@ > 0 && quantity@ <= crate::holdings::qty_of(
                old(self)@.holdings,
                symbol@,
            ) ==> r is Ok && final(self)@.cash == old(self)@.cash + crate::money::cost_units(
                quantity@,
                price@,
            ) && final(self)@.holdings == crate::holdings::sell_holdings(
                old(self)@.holdings,
                symbol@,
                quantity@,
            ) && final(self)@.trades.len() == old(self)@.trades.len() + 1
                && final(self)@.trades.drop_last() == old(self)@.trades
                && final(self)@.trades.last().symbol == symbol@
                && final(self)@.trades.last().quantity == quantity@
                && final(self)@.trades.last().price_per == price@
                && final(self)@.trades.last().side == crate::orders::Side::Sell
                && final(self)@.open_orders == old(self)@.open_orders
                && final(self)@.watchlist == old(self)@.watchlist,
    {
        if !quantity.is_positive() || !price.is_positive() {
            return Err(LedgerError::InvalidAmount);
        }
        self.apply_sell(symbol, quantity, price)
    }
}

impl AppState {
    /// A snapshot of the open-order book, in its canonical order.
    pub fn get_open_orders(&self) -> (r: Vec<OpenOrder>)
        ensures
            order_views(r@) == self@.open_orders,
    {
        let mut out: Vec<OpenOrder> = Vec::new();
        let n = self.open_orders.len();
        let mut i: usize = 0;
        while i < n
            invariant
                i <= n,
                n == self.open_orders.len(),
                out.len() == i,
                order_views(out@) =~= self@.open_orders.subrange(0, i as int),
            decreases n - i,
        {
            let ghost prev = out@;
            let d = self.open_orders[i].duplicate();
            proof {
                assert(d@ == self@.open_orders[i as int]);
            }
            out.push(d);
            proof {
                assert forall|k: int|
                    0 <= k < order_views(out@).len() implies order_views(out@)[k]
                    == self@.open_orders.subrange(0, (i + 1) as int)[k] by {
                    if k < i {
                        assert(out@[k] == prev[k]);
                    } else {
                        assert(out@[k] == d);
                    }
                }
                assert(order_views(out@) =~= self@.open_orders.subrange(0, (i + 1) as int));
            }
            i = i + 1;
        }
        proof {
            assert(self@.open_orders.subrange(0, n as int) =~= self@.open_orders);
        }
        out
    }

    /// The cash balance net of everything reserved by pending buy-limit
    /// orders.  It can be negative: a later withdrawal may dip into the
    /// reserve.
    #[verifier::loop_isolation(false)]
    pub fn available_cash(&self) -> (m: Money)
        requires
            self.wf(),
        ensures
            m@ == self@.cash - crate::book::buy_reserved(self@.open_orders),
    {
        let ghost os = self@.open_orders;
        let ghost f = crate::book::buy_reserve_fn();
        proof {
            assert forall|k: int| 0 <= k < os.len() implies #[trigger] f(os[k]) >= 0 by {
                crate::book::lemma_cost_nonneg(os[k].quantity, os[k].price);
            }
        }
        let n = self.open_orders.len();
        let mut acc: i64 = 0;
        let mut i: usize = 0;
        proof {
            assert(os.subrange(0, 0) =~= Seq::<OrderView>::empty());
        }
        while i < n
            invariant
                i <= n,
                acc == crate::book::osum(os.subrange(0, i as int), f),
                acc >= 0,
            decreases n - i,
        {
            proof {
                crate::book::lemma_osum_prefix_le(os, f, i + 1);
                assert(os.subrange(0, (i + 1) as int) =~= os.subrange(0, i as int).push(
                    os[i as int],
                ));
                crate::book::lemma_osum_push(os.subrange(0, i as int), f, os[i as int]);
            }
            let o = &self.open_orders[i];
            if o.kind() == crate::orders::OrderType::BuyLimit {
                let cost = o.get_qty().times_price(o.get_price_per()).unwrap();
                acc = acc + cost.units();
            } else {
                proof {
                    assert(f(os[i as int]) == 0);
                }
            }
            i = i + 1;
        }
        proof {
            assert(os.subrange(0, n as int) =~= os);
        }
        Money::from_units(self.cash_balance.units() - acc)
    }

    /// The held quantity of `symbol` net of everything reserved by pending
    /// sell-side orders for it.  It can be negative: a later direct sale may
    /// dip into the reserve.
    #[verifier::loop_isolation(false)]
    pub fn available_holdings(&self, symbol: &String) -> (m: Money)
        requires
            self.wf(),
        ensures
            m@ == crate::holdings::qty_of(self@.holdings, symbol@) - crate::book::sell_reserved(
                self@.open_orders,
                symbol@,
            ),
    {
        let ghost os = self@.open_orders;
        let ghost f = crate::book::sell_reserve_fn(symbol@);
        proof {
            assert(forall|k: int| 0 <= k < os.len() ==> #[trigger] f(os[k]) >= 0);
            assert(crate::book::sell_reserved(os, symbol@) <= i64::MAX);
        }
        let n = self.open_orders.len();
        let mut acc: i64 = 0;
        let mut i: usize = 0;
        proof {
            assert(os.subrange(0, 0) =~= Seq::<OrderView>::empty());
        }
        while i < n
            invariant
                i <= n,
                acc == crate::book::osum(os.subrange(0, i as int), f),
                acc >= 0,
            decreases n - i,
        {
            proof {
                crate::book::lemma_osum_prefix_le(os, f, i + 1);
                assert(os.subrange(0, (i + 1) as int) =~= os.subrange(0, i as int).push(
                    os[i as int],
                ));
                crate::book::lemma_osum_push(os.subrange(0, i as int), f, os[i as int]);
            }
            let o = &self.open_orders[i];
            if o.get_side() == crate::orders::Side::Sell && *o.get_symbol() == *symbol {
                acc = acc + o.get_qty().units();
            } else {
                proof {
                    assert(f(os[i as int]) == 0);
                }
            }
            i = i + 1;
        }
        proof {
            assert(os.subrange(0, n as int) =~= os);
        }
        let held = self.get_ticker_holdings_qty(symbol);
        Money::from_units(held.units() - acc)
    }

    /// The position in the canonical book where `order` belongs: just
    /// before the first competing order it beats on price.
    fn insert_position(&self, order: &OpenOrder) -> (pos: usize)
        ensures
            pos <= self@.open_orders.len(),
            forall|j: int|
                0 <= j < pos ==> !crate::book::more_aggressive(
                    order@,
                    #[trigger] self@.open_orders[j],
                ),
            pos < self@.open_orders.len() ==> crate::book::more_aggressive(
                order@,
                self@.open_orders[pos as int],
            ),
    {
        let n = self.open_orders.len();
        let mut i: usize = 0;
        while i < n
            invariant
                i <= n,
                n == self.open_orders.len(),
                forall|j: int|
                    0 <= j < i ==> !crate::book::more_aggressive(
                        order@,
                        #[trigger] self@.open_orders[j],
                    ),
            decreases n - i,
        {
            let o = &self.open_orders[i];
            let same_class = order.get_side() == o.get_side() && *order.get_symbol()
                == *o.get_symbol();
            if same_class {
                let beats = if order.get_side() == crate::orders::Side::Buy {
                    order.get_price_per() > o.get_price_per()
                } else {
                    order.get_price_per() < o.get_price_per()
                };
                if beats {
                    return i;
                }
            }
            i = i + 1;
        }
        n
    }

    /// Inserts an already-validated order at its canonical position.
    #[verifier::loop_isolation(false)]
    fn insert_order(&mut self, order: OpenOrder)
        requires
            old(self).wf(),
            order@.quantity > 0,
            order@.price > 0,
            order@.side() == crate::orders::Side::Buy ==> crate::book::buy_reserved(
                old(self)@.open_orders,
            ) + crate::money::cost_units(order@.quantity, order@.price) <= old(self)@.cash,
            order@.side() == crate::orders::Side::Sell ==> crate::book::sell_reserved(
                old(self)@.open_orders,
                order@.symbol,
            ) + order@.quantity <= crate::holdings::qty_of(old(self)@.holdings, order@.symbol),
        ensures
            final(self).wf(),
            exists|i: int|
                0 <= i <= old(self)@.open_orders.len() && final(self)@.open_orders == old(
                    self,
                )@.open_orders.insert(i, order@),
            crate::book::buy_reserved(final(self)@.open_orders) == crate::book::buy_reserved(
                old(self)@.open_orders,
            ) + crate::book::buy_reserve(order@),
            forall|sym: Seq<char>|
                #[trigger] crate::book::sell_reserved(final(self)@.open_orders, sym)
                    == crate::book::sell_reserved(old(self)@.open_orders, sym)
                    + crate::book::sell_reserve(order@, sym),
            final(self)@.cash == old(self)@.cash,
            final(self)@.holdings == old(self)@.holdings,
            final(self)@.trades == old(self)@.trades,
            final(self)@.watchlist == old(self)@.watchlist,
    {
        let ghost os0 = self@.open_orders;
        let ghost x = order@;
        let q = order.get_qty();
        let p = order.get_price_per();
        proof {
            assert(x.quantity == q@ && x.price == p@);
        }
        let pos = self.insert_position(&order);
        let ghost v0 = self.open_orders@;
        self.open_orders.insert(pos, order);
        proof {
            v0.insert_ensures(pos as int, self.open_orders@[pos as int]);
            os0.insert_ensures(pos as int, x);
            assert forall|k: int|
                0 <= k < order_views(self.open_orders@).len() implies order_views(
                self.open_orders@,
            )[k] == os0.insert(pos as int, x)[k] by {
                if k < pos {
                    assert(self.open_orders@[k] == v0[k]);
                    assert(os0.insert(pos as int, x)[k] == os0[k]);
                } else if k == pos {
                    assert(os0.insert(pos as int, x)[k] == x);
                } else {
                    assert(self.open_orders@[k] == v0[k - 1]);
                    assert(os0.insert(pos as int, x)[(k - 1) + 1] == os0[k - 1]);
                }
            }
            assert(order_views(self.open_orders@) =~= os0.insert(pos as int, x));
            let t = os0.insert(pos as int, x);
            crate::book::lemma_sorted_insert(os0, pos as int, x);
            crate::book::lemma_osum_insert(os0, crate::book::buy_reserve_fn(), pos as int, x);
            if x.side() == crate::orders::Side::Sell {
                assert(crate::book::buy_reserve(x) == 0);
                crate::book::lemma_reserves_nonneg(os0);
                crate::book::lemma_osum_nonneg(os0, crate::book::buy_reserve_fn());
            } else {
                crate::book::lemma_cost_nonneg(x.quantity, x.price);
            }
            assert(crate::book::buy_reserved(t) <= i64::MAX);
            assert forall|sym: Seq<char>| #[trigger] crate::book::sell_reserved(t, sym)
                <= i64::MAX by {
                crate::book::lemma_osum_insert(
                    os0,
                    crate::book::sell_reserve_fn(sym),
                    pos as int,
                    x,
                );
                assert(crate::book::sell_reserved(os0, sym) <= i64::MAX);
                if x.side() == crate::orders::Side::Sell && x.symbol == sym {
                    let hs = old(self)@.holdings;
                    assert(crate::book::sell_reserved(os0, sym) + x.quantity
                        <= crate::holdings::qty_of(hs, x.symbol));
                    assert(crate::holdings::qty_of(hs, x.symbol) <= i64::MAX) by {
                        if crate::holdings::holds(hs, x.symbol) {
                            let idx = crate::holdings::idx_of(hs, x.symbol);
                            assert(hs[idx].quantity <= i64::MAX);
                        }
                    }
                } else {
                    assert(crate::book::sell_reserve(x, sym) == 0);
                    assert(crate::book::sell_reserve_fn(sym)(x) == 0);
                }
            }
            assert forall|sym: Seq<char>|
                #[trigger] crate::book::sell_reserved(t, sym) == crate::book::sell_reserved(
                os0,
                sym,
            ) + crate::book::sell_reserve(x, sym) by {
                crate::book::lemma_osum_insert(
                    os0,
                    crate::book::sell_reserve_fn(sym),
                    pos as int,
                    x,
                );
            }
            assert forall|k: int|
                0 <= k < t.len() implies (#[trigger] t[k]).quantity > 0 && t[k].price > 0
                && t[k].quantity <= i64::MAX && t[k].price <= i64::MAX by {
                if k < pos {
                    assert(t[k] == os0[k]);
                } else if k == pos {
                    assert(t[k] == x);
                } else {
                    assert(t[(k - 1) + 1] == os0[k - 1]);
                }
            }
            assert(crate::book::orders_positive(t));
            assert(0 <= self@.cash <= i64::MAX);
            assert(crate::holdings::holdings_wf(self@.holdings));
            assert(self@.watchlist == old(self)@.watchlist);
            assert(forall|i: int, j: int|
                0 <= i < j < self@.watchlist.len() ==> self@.watchlist[i] != self@.watchlist[j]);
        }
    }

    /// Queues a conditional order.  A non-positive quantity or price is
    /// rejected with `InvalidAmount`.  A buy-side order whose full cost
    /// exceeds the available cash (balance net of reserves) is rejected
    /// with `InsufficientFunds`; a sell-side order for more than the
    /// available holdings (position net of reserves) is rejected with
    /// `InsufficientHoldings`.  Rejections change nothing.  An accepted
    /// order enters the book at its canonical position; nothing else moves.
    pub fn add_open_order(&mut self, order: OpenOrder) -> (r: Result<&'static str, LedgerError>)
        requires
            old(self).wf(),
        ensures
            final(self).wf(),
            order@.quantity <= 0 || order@.price <= 0 ==> r == Err::<&'static str, LedgerError>(
                LedgerError::InvalidAmount,
            ) && final(self)@ == old(self)@,
            order@.quantity > 0 && order@.price > 0 && order@.side() == crate::orders::Side::Buy
                ==> (if crate::money::cost_units(order@.quantity, order@.price) > old(self)@.cash
                - crate::book::buy_reserved(old(self)@.open_orders) {
                r == Err::<&'static str, LedgerError>(LedgerError::InsufficientFunds)
                    && final(self)@ == old(self)@
            } else {
                r is Ok
            }),
            order@.quantity > 0 && order@.price > 0 && order@.side() == crate::orders::Side::Sell
                ==> (if order@.quantity > crate::holdings::qty_of(old(self)@.holdings, order@.symbol)
                - crate::book::sell_reserved(old(self)@.open_orders, order@.symbol) {
                r == Err::<&'static str, LedgerError>(LedgerError::InsufficientHoldings)
                    && final(self)@ == old(self)@
            } else {
                r is Ok
            }),
            r is Ok ==> exists|i: int|
                0 <= i <= old(self)@.open_orders.len() && final(self)@.open_orders == old(
                    self,
                )@.open_orders.insert(i, order@),
            r is Ok ==> final(self)@.cash == old(self)@.cash && final(self)@.holdings == old(
                self,
            )@.holdings && final(self)@.trades == old(self)@.trades && final(self)@.watchlist
                == old(self)@.watchlist,
            r is Ok && order@.side() == crate::orders::Side::Buy ==> final(self)@.cash
                - crate::book::buy_reserved(final(self)@.open_orders) >= 0,
            r is Ok && order@.side() == crate::orders::Side::Sell ==> crate::holdings::qty_of(
                final(self)@.holdings,
                order@.symbol,
            ) - crate::book::sell_reserved(final(self)@.open_orders, order@.symbol) >= 0,
    {
        let qty = order.get_qty();
        let price = order.get_price_per();
        if !qty.is_positive() || !price.is_positive() {
            return Err(LedgerError::InvalidAmount);
        }
        if order.get_side() == crate::orders::Side::Buy {
            let avail = self.available_cash();
            match qty.times_price(price) {
                None => Err(LedgerError::InsufficientFunds),
                Some(cost) => {
                    if cost > avail {
                        Err(LedgerError::InsufficientFunds)
                    } else {
                        self.insert_order(order);
                        Ok("Order added to the book")
                    }
                },
            }
        } else {
            let avail = self.available_holdings(order.get_symbol());
            if qty > avail {
                Err(LedgerError::InsufficientHoldings)
            } else {
                self.insert_order(order);
                Ok("Order added to the book")
            }
        }
    }

    /// The index of the first booked order structurally equal to `order`
    /// (same category, symbol, price and quantity), if any.
    fn find_order_match(&self, order: &OpenOrder) -> (r: Option<usize>)
        ensures
            match r {
                Some(i) => i < self@.open_orders.len() && crate::book::order_matches(
                    self@.open_orders[i as int],
                    order@,
                ) && forall|j: int|
                    0 <= j < i ==> !crate::book::order_matches(
                        #[trigger] self@.open_orders[j],
                        order@,
                    ),
                None => forall|j: int|
                    0 <= j < self@.open_orders.len() ==> !crate::book::order_matches(
                        #[trigger] self@.open_orders[j],
                        order@,
                    ),
            },
    {
        let n = self.open_orders.len();
        let mut i: usize = 0;
        while i < n
            invariant
                i <= n,
                n == self.open_orders.len(),
                forall|j: int|
                    0 <= j < i ==> !crate::book::order_matches(
                        #[trigger] self@.open_orders[j],
                        order@,
                    ),
            decreases n - i,
        {
            let o = &self.open_orders[i];
            if o.kind() == order.kind() && *o.get_symbol() == *order.get_symbol()
                && o.get_price_per().units() == order.get_price_per().units()
                && o.get_qty().units() == order.get_qty().units() {
                return Some(i);
            }
            i = i + 1;
        }
        None
    }

    /// Removes the first booked order structurally equal to `order`, if one
    /// is in the book.  Nothing else about the ledger moves.
    pub(crate) fn remove_one_order(&mut self, order: &OpenOrder) -> (removed: bool)
        requires
            old(self).wf(),
        ensures
            final(self).wf(),
            final(self)@.cash == old(self)@.cash,
            final(self)@.holdings == old(self)@.holdings,
            final(self)@.trades == old(self)@.trades,
            final(self)@.watchlist == old(self)@.watchlist,
            !removed ==> final(self)@.open_orders == old(self)@.open_orders && forall|j: int|
                0 <= j < old(self)@.open_orders.len() ==> !crate::book::order_matches(
                    #[trigger] old(self)@.open_orders[j],
                    order@,
                ),
            removed ==> exists|i: int|
                0 <= i < old(self)@.open_orders.len() && crate::book::order_matches(
                    #[trigger] old(self)@.open_orders[i],
                    order@,
                ) && (forall|j: int|
                    0 <= j < i ==> !crate::book::order_matches(
                        #[trigger] old(self)@.open_orders[j],
                        order@,
                    )) && final(self)@.open_orders == old(self)@.open_orders.remove(i),
    {
        match self.find_order_match(order) {
            None => false,
            Some(i) => {
                let ghost os0 = self@.open_orders;
                let ghost v0 = self.open_orders@;
                self.open_orders.remove(i);
                proof {
                    v0.remove_ensures(i as int);
                    os0.remove_ensures(i as int);
                    assert forall|k: int|
                        0 <= k < order_views(self.open_orders@).len() implies order_views(
                        self.open_orders@,
                    )[k] == os0.remove(i as int)[k] by {
                        if k < i {
                            assert(self.open_orders@[k] == v0[k]);
                        } else {
                            assert(self.open_orders@[k] == v0[k + 1]);
                        }
                    }
                    assert(order_views(self.open_orders@) =~= os0.remove(i as int));
                    let t = os0.remove(i as int);
                    crate::book::lemma_sorted_remove(os0, i as int);
                    crate::book::lemma_cost_nonneg(os0[i as int].quantity, os0[i as int].price);
                    crate::book::lemma_osum_remove(os0, crate::book::buy_reserve_fn(), i as int);
                    assert(crate::book::buy_reserved(t) <= i64::MAX);
                    assert forall|sym: Seq<char>| #[trigger] crate::book::sell_reserved(t, sym)
                        <= i64::MAX by {
                        crate::book::lemma_osum_remove(
                            os0,
                            crate::book::sell_reserve_fn(sym),
                            i as int,
                        );
                        assert(crate::book::sell_reserved(os0, sym) <= i64::MAX);
                        assert(crate::book::sell_reserve(os0[i as int], sym) >= 0);
                    }
                    assert forall|k: int|
                        0 <= k < t.len() implies (#[trigger] t[k]).quantity > 0 && t[k].price > 0
                        && t[k].quantity <= i64::MAX && t[k].price <= i64::MAX by {
                        if k < i {
                            assert(t[k] == os0[k]);
                        } else {
                            assert(t[k] == os0[k + 1]);
                        }
                    }
                    assert(crate::book::orders_positive(t));
                    assert(0 <= self@.cash <= i64::MAX);
                    assert(crate::holdings::holdings_wf(self@.holdings));
                    assert(self@.watchlist == old(self)@.watchlist);
                    assert(forall|a: int, b: int|
                        0 <= a < b < self@.watchlist.len() ==> self@.watchlist[a]
                            != self@.watchlist[b]);
                }
                true
            },
        }
    }

    /// Deletes every booked order structurally equal to `order` (symbol,
    /// price and quantity of the same category; the submission time is not
    /// part of the identity).  Removing an order that is not in the book
    /// changes nothing.  The remaining book keeps its canonical order.
    #[verifier::loop_isolation(false)]
    pub fn remove_from_open_orders(&mut self, order: OpenOrder)
        requires
            old(self).wf(),
        ensures
            final(self).wf(),
            final(self)@.open_orders == crate::book::keep(
                old(self)@.open_orders,
                crate::book::not_matching(order@),
            ),
            final(self)@.cash == old(self)@.cash,
            final(self)@.holdings == old(self)@.holdings,
            final(self)@.trades == old(self)@.trades,
            final(self)@.watchlist == old(self)@.watchlist,
    {
        let ghost not_match = crate::book::not_matching(order@);
        let mut more = true;
        while more
            invariant
                crate::book::keep(self@.open_orders, not_match) == crate::book::keep(
                    old(self)@.open_orders,
                    not_match,
                ),
                self@.cash == old(self)@.cash,
                self@.holdings == old(self)@.holdings,
                self@.trades == old(self)@.trades,
                self@.watchlist == old(self)@.watchlist,
                self.wf(),
                !more ==> forall|j: int|
                    0 <= j < self@.open_orders.len() ==> !crate::book::order_matches(
                        #[trigger] self@.open_orders[j],
                        order@,
                    ),
            decreases self.open_orders.len() + (if more {
                1int
            } else {
                0int
            }),
        {
            let ghost os0 = self@.open_orders;
            let removed = self.remove_one_order(&order);
            if removed {
                proof {
                    let i = choose|i: int|
                        0 <= i < os0.len() && crate::book::order_matches(#[trigger] os0[i], order@)
                            && (forall|j: int|
                            0 <= j < i ==> !crate::book::order_matches(
                                #[trigger] os0[j],
                                order@,
                            )) && self@.open_orders == os0.remove(i);
                    crate::book::lemma_keep_remove_rejected(os0, not_match, i);
                }
            } else {
                more = false;
            }
        }
        proof {
            crate::book::lemma_keep_all(self@.open_orders, not_match);
        }
    }
}

/// The watched symbols with later duplicates dropped: each symbol keeps
/// its first occurrence.
pub open spec fn dedup_symbols(s: Seq<Seq<char>>) -> Seq<Seq<char>>
    decreases s.len(),
{
    if s.len() == 0 {
        Seq::empty()
    } else {
        let d = dedup_symbols(s.drop_last());
        if d.contains(s.last()) {
            d
        } else {
            d.push(s.last())
        }
    }
}

impl AppState {
    /// Replaces the trade log wholesale (used when rehydrating from
    /// storage).  The log carries no invariant, so any list is accepted.
    pub fn set_trades(&mut self, new_trades: Vec<Trade>)
        requires
            old(self).wf(),
        ensures
            final(self).wf(),
            final(self)@ == (StateView { trades: trade_views(new_trades@), ..old(self)@ }),
    {
        self.trades = new_trades;
        proof {
            lemma_wf_same_core(old(self)@, self@);
        }
    }

    /// Replaces the watchlist wholesale (used when rehydrating from
    /// storage).  The watchlist is a set: each symbol keeps its first
    /// occurrence and later duplicates are dropped.
    #[verifier::loop_isolation(false)]
    pub fn set_watchlist(&mut self, new_watchlist: Vec<String>)
        requires
            old(self).wf(),
        ensures
            final(self).wf(),
            final(self)@ == (StateView {
                watchlist: dedup_symbols(symbol_views(new_watchlist@)),
                ..old(self)@
            }),
    {
        let ghost target = symbol_views(new_watchlist@);
        self.watchlist = Vec::new();
        proof {
            assert(self@.watchlist =~= Seq::<Seq<char>>::empty());
            assert(self@.watchlist =~= dedup_symbols(target.subrange(0, 0)));
        }
        let n = new_watchlist.len();
        let mut i: usize = 0;
        while i < n
            invariant
                i <= n,
                n == new_watchlist.len(),
                self.wf(),
                self@.cash == old(self)@.cash,
                self@.holdings == old(self)@.holdings,
                self@.trades == old(self)@.trades,
                self@.open_orders == old(self)@.open_orders,
                self@.watchlist == dedup_symbols(target.subrange(0, i as int)),
            decreases n - i,
        {
            proof {
                assert(target.subrange(0, (i + 1) as int).drop_last() =~= target.subrange(
                    0,
                    i as int,
                ));
                assert(target.subrange(0, (i + 1) as int).last() == target[i as int]);
            }
            self.add_to_watchlist(new_watchlist[i].clone());
            i = i + 1;
        }
        proof {
            assert(target.subrange(0, n as int) =~= target);
        }
    }

    /// Replaces the open-order book wholesale (used when rehydrating from
    /// storage).  The replacement must be a valid book as this ledger keeps
    /// one: positive quantities and prices, the canonical order (within a
    /// side and symbol, most aggressive price first), and representable
    /// reserve totals.  Anything else is rejected with `InvalidAmount` and
    /// changes nothing, so a saved book always restores exactly.
    #[verifier::loop_isolation(false)]
    pub fn set_open_orders(&mut self, new_orders: Vec<OpenOrder>) -> (r: Result<
        &'static str,
        LedgerError,
    >)
        requires
            old(self).wf(),
        ensures
            final(self).wf(),
            r is Ok <==> crate::book::orders_positive(order_views(new_orders@))
                && crate::book::book_sorted(order_views(new_orders@)) && crate::book::buy_reserved(
                order_views(new_orders@),
            ) <= i64::MAX && (forall|sym: Seq<char>|
                #[trigger] crate::book::sell_reserved(order_views(new_orders@), sym) <= i64::MAX),
            r is Ok ==> final(self)@ == (StateView {
                open_orders: order_views(new_orders@),
                ..old(self)@
            }),
            r is Err ==> r == Err::<&'static str, LedgerError>(LedgerError::InvalidAmount)
                && final(self)@ == old(self)@,
    {
        let ghost views = order_views(new_orders@);
        let n = new_orders.len();

        // Positive quantities and prices.
        let mut i: usize = 0;
        while i < n
            invariant
                i <= n,
                n == new_orders.len(),
                forall|k: int|
                    0 <= k < i ==> (#[trigger] views[k]).quantity > 0 && views[k].price > 0
                        && views[k].quantity <= i64::MAX && views[k].price <= i64::MAX,
            decreases n - i,
        {
            let q = new_orders[i].get_qty();
            let p = new_orders[i].get_price_per();
            proof {
                assert(views[i as int].quantity == q@ && views[i as int].price == p@);
            }
            if !q.is_positive() || !p.is_positive() {
                proof {
                    assert(!crate::book::orders_positive(views));
                }
                return Err(LedgerError::InvalidAmount);
            }
            i = i + 1;
        }
        proof {
            assert(crate::book::orders_positive(views));
        }

        // Canonical order: within a class, most aggressive price first.
        let mut a: usize = 0;
        while a < n
            invariant
                a <= n,
                n == new_orders.len(),
                forall|p: int, q: int|
                    0 <= p < q < n && p < a && crate::book::same_class(views[p], views[q])
                        ==> crate::book::class_le(#[trigger] views[p], #[trigger] views[q]),
            decreases n - a,
        {
            let mut b: usize = a + 1;
            while b < n
                invariant
                    a < b <= n,
                    a < n,
                    n == new_orders.len(),
                    forall|q: int|
                        a < q < b && crate::book::same_class(views[a as int], views[q])
                            ==> crate::book::class_le(views[a as int], #[trigger] views[q]),
                decreases n - b,
            {
                let first = &new_orders[a];
                let second = &new_orders[b];
                let competing = first.get_side() == second.get_side() && *first.get_symbol()
                    == *second.get_symbol();
                if competing {
                    let ordered = if first.get_side() == crate::orders::Side::Buy {
                        first.get_price_per() >= second.get_price_per()
                    } else {
                        first.get_price_per() <= second.get_price_per()
                    };
                    if !ordered {
                        proof {
                            assert(!crate::book::class_le(views[a as int], views[b as int]));
                            assert(!crate::book::book_sorted(views));
                        }
                        return Err(LedgerError::InvalidAmount);
                    }
                }
                b = b + 1;
            }
            a = a + 1;
        }
        proof {
            assert(crate::book::book_sorted(views));
        }

        // Representable buy reserve.
        let ghost bf = crate::book::buy_reserve_fn();
        proof {
            assert forall|k: int| 0 <= k < views.len() implies #[trigger] bf(views[k]) >= 0 by {
                crate::book::lemma_cost_nonneg(views[k].quantity, views[k].price);
            }
            assert(views.subrange(0, 0) =~= Seq::<OrderView>::empty());
        }
        let mut acc: i64 = 0;
        let mut i2: usize = 0;
        while i2 < n
            invariant
                i2 <= n,
                n == new_orders.len(),
                acc == crate::book::osum(views.subrange(0, i2 as int), bf),
                acc >= 0,
            decreases n - i2,
        {
            proof {
                assert(views.subrange(0, (i2 + 1) as int) =~= views.subrange(0, i2 as int).push(
                    views[i2 as int],
                ));
                crate::book::lemma_osum_push(views.subrange(0, i2 as int), bf, views[i2 as int]);
            }
            let o = &new_orders[i2];
            if o.kind() == crate::orders::OrderType::BuyLimit {
                match o.get_qty().times_price(o.get_price_per()) {
                    None => {
                        proof {
                            lemma_reserve_suffix_overflow(views, bf, (i2 + 1) as int);
                        }
                        return Err(LedgerError::InvalidAmount);
                    },
                    Some(cost) => {
                        match acc.checked_add(cost.units()) {
                            None => {
                                proof {
                                    lemma_reserve_suffix_overflow(views, bf, (i2 + 1) as int);
                                }
                                return Err(LedgerError::InvalidAmount);
                            },
                            Some(total) => {
                                acc = total;
                            },
                        }
                    },
                }
            } else {
                proof {
                    assert(bf(views[i2 as int]) == 0);
                }
            }
            i2 = i2 + 1;
        }
        proof {
            assert(views.subrange(0, n as int) =~= views);
            assert(crate::book::buy_reserved(views) <= i64::MAX);
        }

        // Representable sell reserve, for the symbol of every sell order.
        let mut i3: usize = 0;
        while i3 < n
            invariant
                i3 <= n,
                n == new_orders.len(),
                forall|k: int|
                    0 <= k < i3 && (#[trigger] views[k]).side() == crate::orders::Side::Sell
                        ==> crate::book::sell_reserved(views, views[k].symbol) <= i64::MAX,
            decreases n - i3,
        {
            if new_orders[i3].get_side() == crate::orders::Side::Sell {
                let sym = new_orders[i3].get_symbol();
                let ghost sf = crate::book::sell_reserve_fn(sym@);
                proof {
                    assert(forall|k: int| 0 <= k < views.len() ==> #[trigger] sf(views[k]) >= 0);
                    assert(views.subrange(0, 0) =~= Seq::<OrderView>::empty());
                }
                let mut sacc: i64 = 0;
                let mut j: usize = 0;
                while j < n
                    invariant
                        j <= n,
                        n == new_orders.len(),
                        i3 < n,
                        sym@ == views[i3 as int].symbol,
                        sf == crate::book::sell_reserve_fn(sym@),
                        sacc == crate::book::osum(views.subrange(0, j as int), sf),
                        sacc >= 0,
                    decreases n - j,
                {
                    proof {
                        assert(views.subrange(0, (j + 1) as int) =~= views.subrange(
                            0,
                            j as int,
                        ).push(views[j as int]));
                        crate::book::lemma_osum_push(views.subrange(0, j as int), sf, views[j as int]);
                    }
                    let o = &new_orders[j];
                    if o.get_side() == crate::orders::Side::Sell && *o.get_symbol() == *sym {
                        match sacc.checked_add(o.get_qty().units()) {
                            None => {
                                proof {
                                    lemma_reserve_suffix_overflow(views, sf, (j + 1) as int);
                                }
                                return Err(LedgerError::InvalidAmount);
                            },
                            Some(total) => {
                                sacc = total;
                            },
                        }
                    } else {
                        proof {
                            assert(sf(views[j as int]) == 0);
                        }
                    }
                    j = j + 1;
                }
                proof {
                    assert(views.subrange(0, n as int) =~= views);
                    assert(crate::book::sell_reserved(views, sym@) <= i64::MAX);
                }
            }
            i3 = i3 + 1;
        }
        proof {
            assert forall|sym: Seq<char>| #[trigger] crate::book::sell_reserved(views, sym)
                <= i64::MAX by {
                if exists|k: int|
                    0 <= k < views.len() && (#[trigger] views[k]).side()
                        == crate::orders::Side::Sell && views[k].symbol == sym {
                    let k = choose|k: int|
                        0 <= k < views.len() && (#[trigger] views[k]).side()
                            == crate::orders::Side::Sell && views[k].symbol == sym;
                    assert(crate::book::sell_reserved(views, views[k].symbol) <= i64::MAX);
                } else {
                    let sf = crate::book::sell_reserve_fn(sym);
                    assert forall|k: int| 0 <= k < views.len() implies #[trigger] sf(views[k])
                        == 0 by {
                        assert(!(views[k].side() == crate::orders::Side::Sell && views[k].symbol
                            == sym));
                    }
                    crate::book::lemma_osum_zero(views, sf);
                }
            }
        }
        self.open_orders = new_orders;
        proof {
            assert(self@.watchlist == old(self)@.watchlist);
            assert(forall|a2: int, b2: int|
                0 <= a2 < b2 < self@.watchlist.len() ==> self@.watchlist[a2]
                    != self@.watchlist[b2]);
        }
        Ok("Open orders replaced")
    }
}

/// When the running reserve total overflows at some prefix, the whole
/// book's total is already beyond the representable range.
proof fn lemma_reserve_suffix_overflow(
    s: Seq<OrderView>,
    f: spec_fn(OrderView) -> int,
    i: int,
)
    requires
        0 <= i <= s.len(),
        forall|k: int| 0 <= k < s.len() ==> #[trigger] f(s[k]) >= 0,
        crate::book::osum(s.subrange(0, i), f) > i64::MAX,
    ensures
        crate::book::osum(s, f) > i64::MAX,
{
    crate::book::lemma_osum_split(s, f, i);
    let suf = s.subrange(i, s.len() as int);
    assert(forall|k: int| 0 <= k < suf.len() ==> #[trigger] f(suf[k]) >= 0);
    crate::book::lemma_osum_nonneg(suf, f);
}

} // verus!
