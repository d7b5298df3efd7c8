//! Positions held per symbol, with weighted-average-cost accounting.

use vstd::prelude::*;

use crate::money::{cost_units, weighted_avg_units, Money};

verus! {

/// Mathematical image of one position.
pub ghost struct HoldingView {
    pub name: Seq<char>,
    pub quantity: int,
    pub avg_cost: int,
}

/// One symbol's position: its quantity and weighted-average cost.
#[derive(Clone, Debug)]
pub struct Holding {
    name: String,
    quantity: Money,
    avg_cost: Money,
}

impl View for Holding {
    type V = HoldingView;

    closed spec fn view(&self) -> HoldingView {
        HoldingView { name: self.name@, quantity: self.quantity@, avg_cost: self.avg_cost@ }
    }
}

impl Holding {
    pub fn new(name: String, quantity: Money, avg_cost: Money) -> (h: Holding)
        ensures
            h@ == (HoldingView { name: name@, quantity: quantity@, avg_cost: avg_cost@ }),
    {
        Holding { name, quantity, avg_cost }
    }

    pub fn get_symbol(&self) -> (s: &String)
        ensures
            s@ == self@.name,
    {
        &self.name
    }

    pub fn get_qty(&self) -> (q: Money)
        ensures
            q@ == self@.quantity,
    {
        self.quantity
    }

    pub fn get_avg_price(&self) -> (p: Money)
        ensures
            p@ == self@.avg_cost,
    {
        self.avg_cost
    }

    /// Unrealized profit or loss of this position at the given price:
    /// the per-share delta against the average cost, times the quantity.
    /// `None` exactly when the magnitude does not fit in a `Money`.
    pub fn get_pnl(&self, curr_price: Money) -> (r: Option<Money>)
        requires
            self@.quantity >= 0,
            self@.avg_cost >= 0,
            curr_price@ >= 0,
        ensures
            match r {
                Some(m) => m@ == (if curr_price@ >= self@.avg_cost {
                    cost_units(self@.quantity, curr_price@ - self@.avg_cost)
                } else {
                    -cost_units(self@.quantity, self@.avg_cost - curr_price@)
                }),
                None => (if curr_price@ >= self@.avg_cost {
                    cost_units(self@.quantity, curr_price@ - self@.avg_cost)
                } else {
                    cost_units(self@.quantity, self@.avg_cost - curr_price@)
                }) > i64::MAX,
            },
    {
        if curr_price.units() >= self.avg_cost.units() {
            let delta = curr_price.minus(self.avg_cost);
            self.quantity.times_price(delta)
        } else {
            let delta = self.avg_cost.minus(curr_price);
            match self.quantity.times_price(delta) {
                Some(loss) => {
                    let u = loss.units();
                    proof {
                        assert(self@.quantity * delta@ >= 0) by (nonlinear_arith)
                            requires
                                self@.quantity >= 0,
                                delta@ >= 0,
                        ;
                        assert(cost_units(self@.quantity, delta@) >= 0) by (nonlinear_arith)
                            requires
                                self@.quantity * delta@ >= 0,
                        ;
                    }
                    Some(Money::from_units(-u))
                },
                None => None,
            }
        }
    }

    /// An exact copy.
    pub fn duplicate(&self) -> (h: Holding)
        ensures
            h@ == self@,
    {
        Holding { name: self.name.clone(), quantity: self.quantity, avg_cost: self.avg_cost }
    }
}

/// Well-formed positions: every quantity strictly positive (a position that
/// reaches zero is removed, never kept as a zero row), every average cost
/// non-negative, and no symbol listed twice.
pub open spec fn holdings_wf(hs: Seq<HoldingView>) -> bool {
    &&& forall|i: int|
        0 <= i < hs.len() ==> (#[trigger] hs[i]).quantity > 0 && hs[i].avg_cost >= 0
            && hs[i].quantity <= i64::MAX && hs[i].avg_cost <= i64::MAX
    &&& forall|i: int, j: int| 0 <= i < j < hs.len() ==> hs[i].name != hs[j].name
}

/// Whether a position for `sym` exists.
pub open spec fn holds(hs: Seq<HoldingView>, sym: Seq<char>) -> bool {
    exists|i: int| 0 <= i < hs.len() && (#[trigger] hs[i]).name == sym
}

/// The index of the position for `sym` (meaningful only when one exists;
/// unique when the positions are well formed).
pub open spec fn idx_of(hs: Seq<HoldingView>, sym: Seq<char>) -> int {
    choose|i: int| 0 <= i < hs.len() && (#[trigger] hs[i]).name == sym
}

/// The held quantity of `sym`, zero when no position exists.
pub open spec fn qty_of(hs: Seq<HoldingView>, sym: Seq<char>) -> int {
    if holds(hs, sym) {
        hs[idx_of(hs, sym)].quantity
    } else {
        0
    }
}

/// The average cost of `sym`, zero when no position exists.
pub open spec fn avg_of(hs: Seq<HoldingView>, sym: Seq<char>) -> int {
    if holds(hs, sym) {
        hs[idx_of(hs, sym)].avg_cost
    } else {
        0
    }
}

/// The positions after buying `q` of `sym` at price `p`: a fresh position
/// opens at average cost `p`; an existing one grows and its average cost
/// becomes the quantity-weighted average of the old cost and `p`.
pub open spec fn buy_holdings(hs: Seq<HoldingView>, sym: Seq<char>, q: int, p: int) -> Seq<
    HoldingView,
> {
    if holds(hs, sym) {
        let i = idx_of(hs, sym);
        hs.update(
            i,
            HoldingView {
                name: sym,
                quantity: hs[i].quantity + q,
                avg_cost: weighted_avg_units(hs[i].quantity, hs[i].avg_cost, q, p),
            },
        )
    } else {
        hs.push(HoldingView { name: sym, quantity: q, avg_cost: p })
    }
}

/// The positions after selling `q` of `sym`: the quantity shrinks, the
/// average cost is untouched, and a position sold down to exactly zero is
/// removed from the list.
pub open spec fn sell_holdings(hs: Seq<HoldingView>, sym: Seq<char>, q: int) -> Seq<HoldingView> {
    if holds(hs, sym) {
        let i = idx_of(hs, sym);
        if hs[i].quantity == q {
            hs.remove(i)
        } else {
            hs.update(i, HoldingView { name: sym, quantity: hs[i].quantity - q, ..hs[i] })
        }
    } else {
        hs
    }
}

/// A buy preserves well-formedness and grows the bought symbol's quantity.
pub proof fn lemma_buy_holdings_wf(hs: Seq<HoldingView>, sym: Seq<char>, q: int, p: int)
    requires
        holdings_wf(hs),
        q > 0,
        0 <= p <= i64::MAX,
        qty_of(hs, sym) + q <= i64::MAX,
    ensures
        holdings_wf(buy_holdings(hs, sym, q, p)),
        holds(buy_holdings(hs, sym, q, p), sym),
        qty_of(buy_holdings(hs, sym, q, p), sym) == qty_of(hs, sym) + q,
{
    let r = buy_holdings(hs, sym, q, p);
    if holds(hs, sym) {
        let i = idx_of(hs, sym);
        crate::money::lemma_weighted_avg_bounds(hs[i].quantity, hs[i].avg_cost, q, p);
        assert(r[i].name == sym);
        assert(holds(r, sym));
        assert(r[idx_of(r, sym)].name == sym);
        assert(idx_of(r, sym) == i);
    } else {
        let i = hs.len() as int;
        assert(r[i].name == sym);
        assert(holds(r, sym));
        assert(idx_of(r, sym) == i);
    }
}

/// A sell preserves well-formedness and shrinks the sold symbol's quantity.
pub proof fn lemma_sell_holdings_wf(hs: Seq<HoldingView>, sym: Seq<char>, q: int)
    requires
        holdings_wf(hs),
        0 < q <= qty_of(hs, sym),
    ensures
        holdings_wf(sell_holdings(hs, sym, q)),
        qty_of(sell_holdings(hs, sym, q), sym) == qty_of(hs, sym) - q,
{
    let r = sell_holdings(hs, sym, q);
    assert(holds(hs, sym));
    let i = idx_of(hs, sym);
    if hs[i].quantity == q {
        assert(!holds(r, sym)) by {
            if holds(r, sym) {
                let j = idx_of(r, sym);
                let j0 = if j < i {
                    j
                } else {
                    j + 1
                };
                assert(r[j] == hs[j0]);
            }
        }
    } else {
        assert(r[i].name == sym);
        assert(holds(r, sym));
        assert(idx_of(r, sym) == i);
    }
}

} // verus!
