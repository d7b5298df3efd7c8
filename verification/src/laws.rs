//! Ledger-wide laws, stated and proved over the same spec functions the
//! operations' contracts use.

use vstd::prelude::*;

use crate::holdings::{buy_holdings, holdings_wf, holds, idx_of, sell_holdings, HoldingView};
use crate::money::{cost_units, weighted_avg_units};

verus! {

/// One cash operation, as the ledger sees it.
pub ghost enum CashOp {
    Deposit(int),
    Withdraw(int),
}

/// The cash balance after one operation: a deposit of a positive amount
/// adds it; a withdrawal of a positive amount within the balance subtracts
/// it; every other request is rejected and changes nothing.  This is
/// exactly what `AppState::deposit` and `AppState::withdraw` promise.
pub open spec fn cash_step(c: int, op: CashOp) -> int {
    match op {
        CashOp::Deposit(a) => if a > 0 {
            c + a
        } else {
            c
        },
        CashOp::Withdraw(a) => if 0 < a <= c {
            c - a
        } else {
            c
        },
    }
}

/// The cash balance after a sequence of operations, applied in order.
pub open spec fn cash_run(c: int, ops: Seq<CashOp>) -> int
    decreases ops.len(),
{
    if ops.len() == 0 {
        c
    } else {
        cash_run(cash_step(c, ops[0]), ops.drop_first())
    }
}

/// What one operation contributes to the algebraic sum: the full amount
/// for an accepted deposit, the negated amount for an accepted withdrawal,
/// and nothing for a rejected operation.
pub open spec fn accepted_delta(c: int, op: CashOp) -> int {
    match op {
        CashOp::Deposit(a) => if a > 0 {
            a
        } else {
            0
        },
        CashOp::Withdraw(a) => if 0 < a <= c {
            -a
        } else {
            0
        },
    }
}

/// The algebraic sum of the accepted operations in a sequence, each judged
/// against the balance at its own turn.
pub open spec fn accepted_sum(c: int, ops: Seq<CashOp>) -> int
    decreases ops.len(),
{
    if ops.len() == 0 {
        0
    } else {
        accepted_delta(c, ops[0]) + accepted_sum(cash_step(c, ops[0]), ops.drop_first())
    }
}

/// Law: over any sequence of deposits and withdrawals, the cash balance
/// equals the starting balance plus the algebraic sum of the accepted
/// operations; rejected operations (non-positive amounts, withdrawals
/// beyond the balance) contribute nothing.
pub proof fn lemma_cash_balance_is_algebraic_sum(c: int, ops: Seq<CashOp>)
    ensures
        cash_run(c, ops) == c + accepted_sum(c, ops),
    decreases ops.len(),
{
    if ops.len() > 0 {
        lemma_cash_balance_is_algebraic_sum(cash_step(c, ops[0]), ops.drop_first());
    }
}

/// Law: buying a quantity of a symbol not yet held and then selling the
/// same quantity returns the holdings exactly to their pre-buy state (the
/// fresh position is removed, not kept as a zero row), and selling at the
/// buy price returns the cash spent, restoring the balance.
pub proof fn lemma_buy_sell_round_trip(
    hs: Seq<HoldingView>,
    cash: int,
    sym: Seq<char>,
    q: int,
    p: int,
)
    requires
        holdings_wf(hs),
        !holds(hs, sym),
        0 < q <= i64::MAX,
        0 < p <= i64::MAX,
    ensures
        sell_holdings(buy_holdings(hs, sym, q, p), sym, q) == hs,
        cash - cost_units(q, p) + cost_units(q, p) == cash,
{
    let h1 = buy_holdings(hs, sym, q, p);
    crate::holdings::lemma_buy_holdings_wf(hs, sym, q, p);
    let n = hs.len() as int;
    assert(h1[n].name == sym);
    assert(holds(h1, sym));
    assert(h1[idx_of(h1, sym)].name == sym);
    assert(idx_of(h1, sym) == n);
    assert(h1.remove(n) =~= hs);
}

/// Law: buying equal quantities at two prices leaves the average cost at
/// the midpoint of the two prices (truncated toward zero).
pub proof fn lemma_equal_weights_average(q: int, a: int, p: int)
    requires
        q > 0,
        a >= 0,
        p >= 0,
    ensures
        weighted_avg_units(q, a, q, p) == (a + p) / 2,
{
    assert(q * a + q * p == q * (a + p)) by (nonlinear_arith);
    assert(q + q == 2 * q);
    assert(q * (a + p) == (a + p) * q) by (nonlinear_arith);
    assert(2 * q == q * 2) by (nonlinear_arith);
    vstd::arithmetic::div_mod::lemma_div_multiples_vanish_quotient(q, a + p, 2);
    assert((q * (a + p)) / (q * 2) == (a + p) / 2);
}

} // verus!
