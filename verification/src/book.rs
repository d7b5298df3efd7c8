//! The open-order book: its canonical order and the reserved-amount sums.
//!
//! Orders of one class (same side, same symbol) stand in the book with the
//! most aggressive price first: buy-side orders descending by price,
//! sell-side orders ascending.  Orders of different classes keep their
//! relative order of arrival.

use vstd::prelude::*;

use crate::money::cost_units;
use crate::orders::{OrderType, OrderView, Side};

verus! {

/// Two orders compete in the book exactly when they have the same side and
/// the same symbol.
pub open spec fn same_class(a: OrderView, b: OrderView) -> bool {
    a.side() == b.side() && a.symbol == b.symbol
}

/// `a` may stand before `b` within one class: the more aggressive price
/// first (buys pay most first, sells ask least first).
pub open spec fn class_le(a: OrderView, b: OrderView) -> bool {
    if a.side() == Side::Buy {
        a.price >= b.price
    } else {
        a.price <= b.price
    }
}

/// `a` must stand strictly before `b`: they compete and `a`'s price is
/// strictly more aggressive.
pub open spec fn more_aggressive(a: OrderView, b: OrderView) -> bool {
    same_class(a, b) && (if a.side() == Side::Buy {
        a.price > b.price
    } else {
        a.price < b.price
    })
}

/// Two orders are the same for removal purposes: same category, symbol,
/// trigger price and quantity (the submission time is not part of the
/// identity).
pub open spec fn order_matches(a: OrderView, b: OrderView) -> bool {
    a.kind == b.kind && a.symbol == b.symbol && a.price == b.price && a.quantity == b.quantity
}

/// The book's canonical order: within every class, prices run from most to
/// least aggressive.
pub open spec fn book_sorted(s: Seq<OrderView>) -> bool {
    forall|i: int, j: int|
        0 <= i < j < s.len() && same_class(s[i], s[j]) ==> class_le(s[i], s[j])
}

/// Every order in the book names a positive quantity and a positive price.
pub open spec fn orders_positive(s: Seq<OrderView>) -> bool {
    forall|i: int|
        0 <= i < s.len() ==> (#[trigger] s[i]).quantity > 0 && s[i].price > 0 && s[i].quantity
            <= i64::MAX && s[i].price <= i64::MAX
}

/// A per-order contribution summed over the whole book.
pub open spec fn osum(s: Seq<OrderView>, f: spec_fn(OrderView) -> int) -> int
    decreases s.len(),
{
    if s.len() == 0 {
        0
    } else {
        f(s[0]) + osum(s.drop_first(), f)
    }
}

/// What a buy-limit order reserves out of the cash balance.
pub open spec fn buy_reserve(o: OrderView) -> int {
    if o.kind == OrderType::BuyLimit {
        cost_units(o.quantity, o.price)
    } else {
        0
    }
}

/// The buy-reserve contribution, as a function value for summing.
pub open spec fn buy_reserve_fn() -> spec_fn(OrderView) -> int {
    |o: OrderView| buy_reserve(o)
}

/// Cash reserved by all pending buy-limit orders.
pub open spec fn buy_reserved(s: Seq<OrderView>) -> int {
    osum(s, buy_reserve_fn())
}

/// What an order reserves out of the holding of `sym`.
pub open spec fn sell_reserve(o: OrderView, sym: Seq<char>) -> int {
    if o.side() == Side::Sell && o.symbol == sym {
        o.quantity
    } else {
        0
    }
}

/// The reserve contribution against `sym`, as a function value for summing.
pub open spec fn sell_reserve_fn(sym: Seq<char>) -> spec_fn(OrderView) -> int {
    |o: OrderView| sell_reserve(o, sym)
}

/// Quantity of `sym` reserved by all pending sell-side orders.
pub open spec fn sell_reserved(s: Seq<OrderView>, sym: Seq<char>) -> int {
    osum(s, sell_reserve_fn(sym))
}

/// Keeps the orders not structurally equal to `b`, as a predicate value.
pub open spec fn not_matching(b: OrderView) -> spec_fn(OrderView) -> bool {
    |o: OrderView| !order_matches(o, b)
}

/// Orders kept by a predicate, in their original order.
pub open spec fn keep(s: Seq<OrderView>, pred: spec_fn(OrderView) -> bool) -> Seq<OrderView>
    decreases s.len(),
{
    if s.len() == 0 {
        Seq::empty()
    } else if pred(s[0]) {
        seq![s[0]] + keep(s.drop_first(), pred)
    } else {
        keep(s.drop_first(), pred)
    }
}

/// A sum of non-negative contributions is non-negative.
pub proof fn lemma_osum_nonneg(s: Seq<OrderView>, f: spec_fn(OrderView) -> int)
    requires
        forall|i: int| 0 <= i < s.len() ==> #[trigger] f(s[i]) >= 0,
    ensures
        osum(s, f) >= 0,
    decreases s.len(),
{
    if s.len() > 0 {
        assert(forall|i: int|
            0 <= i < s.drop_first().len() ==> #[trigger] f(s.drop_first()[i]) >= 0);
        lemma_osum_nonneg(s.drop_first(), f);
    }
}

/// A sum of all-zero contributions is zero.
pub proof fn lemma_osum_zero(s: Seq<OrderView>, f: spec_fn(OrderView) -> int)
    requires
        forall|i: int| 0 <= i < s.len() ==> #[trigger] f(s[i]) == 0,
    ensures
        osum(s, f) == 0,
    decreases s.len(),
{
    if s.len() > 0 {
        assert(forall|i: int|
            0 <= i < s.drop_first().len() ==> #[trigger] f(s.drop_first()[i]) == 0);
        lemma_osum_zero(s.drop_first(), f);
    }
}

/// Appending one order adds exactly its contribution.
pub proof fn lemma_osum_push(s: Seq<OrderView>, f: spec_fn(OrderView) -> int, x: OrderView)
    ensures
        osum(s.push(x), f) == osum(s, f) + f(x),
    decreases s.len(),
{
    if s.len() == 0 {
        assert(s.push(x).drop_first() =~= s);
    } else {
        assert(s.push(x).drop_first() =~= s.drop_first().push(x));
        lemma_osum_push(s.drop_first(), f, x);
    }
}

/// Inserting one order adds exactly its contribution.
pub proof fn lemma_osum_insert(s: Seq<OrderView>, f: spec_fn(OrderView) -> int, i: int, x: OrderView)
    requires
        0 <= i <= s.len(),
    ensures
        osum(s.insert(i, x), f) == osum(s, f) + f(x),
    decreases s.len(),
{
    if i == 0 {
        assert(s.insert(0, x).drop_first() =~= s);
        assert(s.insert(0, x)[0] == x);
    } else {
        assert(s.insert(i, x)[0] == s[0]);
        assert(s.insert(i, x).drop_first() =~= s.drop_first().insert(i - 1, x));
        lemma_osum_insert(s.drop_first(), f, i - 1, x);
    }
}

/// Removing one order subtracts exactly its contribution.
pub proof fn lemma_osum_remove(s: Seq<OrderView>, f: spec_fn(OrderView) -> int, i: int)
    requires
        0 <= i < s.len(),
    ensures
        osum(s.remove(i), f) == osum(s, f) - f(s[i]),
    decreases s.len(),
{
    if i == 0 {
        assert(s.remove(0) =~= s.drop_first());
    } else {
        assert(s.remove(i)[0] == s[0]);
        assert(s.remove(i).drop_first() =~= s.drop_first().remove(i - 1));
        lemma_osum_remove(s.drop_first(), f, i - 1);
    }
}

/// Splitting the book splits the sum.
pub proof fn lemma_osum_split(s: Seq<OrderView>, f: spec_fn(OrderView) -> int, i: int)
    requires
        0 <= i <= s.len(),
    ensures
        osum(s, f) == osum(s.subrange(0, i), f) + osum(s.subrange(i, s.len() as int), f),
    decreases i,
{
    if i == 0 {
        assert(s.subrange(0, 0) =~= Seq::<OrderView>::empty());
        assert(s.subrange(0, s.len() as int) =~= s);
    } else {
        lemma_osum_split(s, f, i - 1);
        assert(s.subrange(0, i) =~= s.subrange(0, i - 1).push(s[i - 1]));
        lemma_osum_push(s.subrange(0, i - 1), f, s[i - 1]);
        assert(s.subrange(i - 1, s.len() as int).drop_first() =~= s.subrange(i, s.len() as int));
        assert(osum(s.subrange(i - 1, s.len() as int), f) == f(s[i - 1]) + osum(
            s.subrange(i, s.len() as int),
            f,
        ));
    }
}

/// Removing an order the predicate rejects leaves the kept orders unchanged.
pub proof fn lemma_keep_remove_rejected(
    s: Seq<OrderView>,
    pred: spec_fn(OrderView) -> bool,
    i: int,
)
    requires
        0 <= i < s.len(),
        !pred(s[i]),
    ensures
        keep(s.remove(i), pred) == keep(s, pred),
    decreases s.len(),
{
    if i == 0 {
        assert(s.remove(0) =~= s.drop_first());
    } else {
        assert(s.remove(i)[0] == s[0]);
        assert(s.remove(i).drop_first() =~= s.drop_first().remove(i - 1));
        lemma_keep_remove_rejected(s.drop_first(), pred, i - 1);
    }
}

/// When every order passes the predicate, keeping them changes nothing.
pub proof fn lemma_keep_all(s: Seq<OrderView>, pred: spec_fn(OrderView) -> bool)
    requires
        forall|i: int| 0 <= i < s.len() ==> pred(#[trigger] s[i]),
    ensures
        keep(s, pred) == s,
    decreases s.len(),
{
    if s.len() > 0 {
        assert(forall|i: int|
            0 <= i < s.drop_first().len() ==> pred(#[trigger] s.drop_first()[i]));
        lemma_keep_all(s.drop_first(), pred);
        assert(seq![s[0]] + s.drop_first() =~= s);
    }
}

/// Removing one order keeps the book's canonical order.
pub proof fn lemma_sorted_remove(s: Seq<OrderView>, i: int)
    requires
        book_sorted(s),
        0 <= i < s.len(),
    ensures
        book_sorted(s.remove(i)),
{
    let t = s.remove(i);
    assert forall|p: int, q: int|
        0 <= p < q < t.len() && same_class(t[p], t[q]) implies class_le(t[p], t[q]) by {
        let p0 = if p < i { p } else { p + 1 };
        let q0 = if q < i { q } else { q + 1 };
        assert(t[p] == s[p0]);
        assert(t[q] == s[q0]);
    }
}

/// The cost of a non-negative quantity at a non-negative price is
/// non-negative.
pub proof fn lemma_cost_nonneg(q: int, p: int)
    requires
        q >= 0,
        p >= 0,
    ensures
        cost_units(q, p) >= 0,
{
    assert(q * p >= 0) by (nonlinear_arith)
        requires
            q >= 0,
            p >= 0,
    ;
    assert((q * p) / (crate::money::SCALE as int) >= 0) by (nonlinear_arith)
        requires
            q * p >= 0,
    ;
}

/// In a well-formed book every reserve contribution is non-negative.
pub proof fn lemma_reserves_nonneg(s: Seq<OrderView>)
    requires
        orders_positive(s),
    ensures
        forall|i: int| 0 <= i < s.len() ==> #[trigger] buy_reserve(s[i]) >= 0,
        forall|i: int, sym: Seq<char>|
            0 <= i < s.len() ==> #[trigger] sell_reserve(s[i], sym) >= 0,
{
    assert forall|i: int| 0 <= i < s.len() implies #[trigger] buy_reserve(s[i]) >= 0 by {
        lemma_cost_nonneg(s[i].quantity, s[i].price);
    }
}

/// A prefix of a book reserves no more than the whole book.
pub proof fn lemma_osum_prefix_le(s: Seq<OrderView>, f: spec_fn(OrderView) -> int, i: int)
    requires
        0 <= i <= s.len(),
        forall|k: int| 0 <= k < s.len() ==> #[trigger] f(s[k]) >= 0,
    ensures
        0 <= osum(s.subrange(0, i), f) <= osum(s, f),
{
    lemma_osum_split(s, f, i);
    let pre = s.subrange(0, i);
    let suf = s.subrange(i, s.len() as int);
    assert(forall|k: int| 0 <= k < pre.len() ==> #[trigger] f(pre[k]) >= 0);
    assert(forall|k: int| 0 <= k < suf.len() ==> #[trigger] f(suf[k]) >= 0);
    lemma_osum_nonneg(pre, f);
    lemma_osum_nonneg(suf, f);
}

/// Inserting an order at a position found by the canonical scan keeps the
/// book's canonical order: everything before the position is at least as
/// aggressive, and the order beats the one it lands in front of.
pub proof fn lemma_sorted_insert(s: Seq<OrderView>, pos: int, x: OrderView)
    requires
        book_sorted(s),
        0 <= pos <= s.len(),
        forall|j: int| 0 <= j < pos ==> !more_aggressive(x, #[trigger] s[j]),
        pos < s.len() ==> more_aggressive(x, s[pos]),
    ensures
        book_sorted(s.insert(pos, x)),
{
    let t = s.insert(pos, x);
    s.insert_ensures(pos, x);
    assert forall|p: int, q: int|
        0 <= p < q < t.len() && same_class(t[p], t[q]) implies class_le(t[p], t[q]) by {
        if p == pos {
            let j = q - 1;
            assert(t[q] == s[j]);
            assert(more_aggressive(x, s[pos]));
            if j > pos {
                assert(same_class(s[pos], s[j]));
                assert(class_le(s[pos], s[j]));
            }
        } else if q == pos {
            assert(t[p] == s[p]);
            assert(!more_aggressive(x, s[p]));
        } else {
            let p0 = if p < pos {
                p
            } else {
                p - 1
            };
            let q0 = if q < pos {
                q
            } else {
                q - 1
            };
            assert(t[p] == s[p0]);
            assert(t[q] == s[q0]);
        }
    }
}

/// What a keep leaves behind: only orders the predicate accepts, and every
/// accepted order of the original book is still there.
pub proof fn lemma_keep_exact(s: Seq<OrderView>, pred: spec_fn(OrderView) -> bool)
    ensures
        forall|k: int| 0 <= k < keep(s, pred).len() ==> pred(#[trigger] keep(s, pred)[k]),
        forall|j: int|
            0 <= j < s.len() && pred(#[trigger] s[j]) ==> keep(s, pred).contains(s[j]),
    decreases s.len(),
{
    if s.len() > 0 {
        lemma_keep_exact(s.drop_first(), pred);
        let t = keep(s, pred);
        let u = keep(s.drop_first(), pred);
        assert forall|j: int|
            0 <= j < s.len() && pred(#[trigger] s[j]) implies t.contains(s[j]) by {
            if j == 0 {
                assert(t[0] == s[0]);
            } else {
                assert(s.drop_first()[j - 1] == s[j]);
                assert(u.contains(s[j]));
                let k = choose|k: int| 0 <= k < u.len() && u[k] == s[j];
                if pred(s[0]) {
                    assert(t[k + 1] == u[k]);
                } else {
                    assert(t[k] == u[k]);
                }
            }
        }
        if pred(s[0]) {
            assert forall|k: int| 0 <= k < t.len() implies pred(#[trigger] t[k]) by {
                if k > 0 {
                    assert(t[k] == u[k - 1]);
                }
            }
        }
    }
}

/// Law: removing an order tuple that matches nothing in the book leaves
/// the book unchanged.
pub proof fn lemma_remove_absent_is_noop(s: Seq<OrderView>, b: OrderView)
    requires
        forall|j: int| 0 <= j < s.len() ==> !order_matches(#[trigger] s[j], b),
    ensures
        keep(s, not_matching(b)) == s,
{
    lemma_keep_all(s, not_matching(b));
}

} // verus!
