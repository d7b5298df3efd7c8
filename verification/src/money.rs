//! Exact fixed-point arithmetic for cash amounts, prices and quantities.
//!
//! A `Money` value stores an integer count of ten-thousandths (four decimal
//! places), so every amount the ledger handles is an exact decimal; repeated
//! averaging can never drift the way binary floating point would.

use vstd::prelude::*;

use crate::errors::LedgerError;

verus! {

/// Number of stored units per whole currency unit (four decimal places).
pub const SCALE: i64 = 10000;

/// An exact decimal amount: `units` ten-thousandths of the currency unit.
#[derive(Clone, Copy, Debug, PartialEq, Eq, Structural)]
pub struct Money {
    units: i64,
}

impl View for Money {
    type V = int;

    closed spec fn view(&self) -> int {
        self.units as int
    }
}

/// The stored-unit cost of `q` units of quantity at price `p`:
/// both are scaled by `SCALE`, so the product must be divided once.
/// Division truncates toward zero (the arguments are never negative
/// where this is used).
pub open spec fn cost_units(q: int, p: int) -> int {
    (q * p) / (SCALE as int)
}

/// The weighted average of `a1` (weight `q1`) and `p2` (weight `q2`),
/// truncated toward zero.
pub open spec fn weighted_avg_units(q1: int, a1: int, q2: int, p2: int) -> int {
    (q1 * a1 + q2 * p2) / (q1 + q2)
}

impl Money {
    /// The zero amount.
    pub fn zero() -> (m: Money)
        ensures
            m@ == 0,
    {
        Money { units: 0 }
    }

    /// Builds an amount from a raw count of ten-thousandths.
    pub fn from_units(units: i64) -> (m: Money)
        ensures
            m@ == units,
    {
        Money { units }
    }

    /// The raw count of ten-thousandths.
    pub fn units(&self) -> (u: i64)
        ensures
            u == self@,
    {
        self.units
    }

    /// True when the amount is strictly positive.
    pub fn is_positive(&self) -> (r: bool)
        ensures
            r == (self@ > 0),
    {
        self.units > 0
    }

    /// Exact sum; the caller must know it fits.
    pub fn plus(self, other: Money) -> (r: Money)
        requires
            i64::MIN <= self@ + other@ <= i64::MAX,
        ensures
            r@ == self@ + other@,
    {
        Money { units: self.units + other.units }
    }

    /// Exact difference; the caller must know it fits.
    pub fn minus(self, other: Money) -> (r: Money)
        requires
            i64::MIN <= self@ - other@ <= i64::MAX,
        ensures
            r@ == self@ - other@,
    {
        Money { units: self.units - other.units }
    }

    /// Sum with an overflow check.
    pub fn checked_plus(self, other: Money) -> (r: Option<Money>)
        ensures
            match r {
                Some(m) => m@ == self@ + other@,
                None => !(i64::MIN <= self@ + other@ <= i64::MAX),
            },
    {
        match self.units.checked_add(other.units) {
            Some(u) => Some(Money { units: u }),
            None => None,
        }
    }

    /// Total cost of a quantity at a unit price, or `None` when the exact
    /// cost does not fit in a `Money`.  Both arguments must be non-negative.
    pub fn times_price(self, price: Money) -> (r: Option<Money>)
        requires
            self@ >= 0,
            price@ >= 0,
        ensures
            match r {
                Some(c) => c@ == cost_units(self@, price@),
                None => cost_units(self@, price@) > i64::MAX,
            },
    {
        let q: u128 = self.units as u128;
        let p: u128 = price.units as u128;
        proof {
            assert(q * p <= 0xffff_ffff_ffff_ffff_ffff_ffff_ffff_ffffu128) by (nonlinear_arith)
                requires
                    q <= 0x7fff_ffff_ffff_ffffu128,
                    p <= 0x7fff_ffff_ffff_ffffu128,
            ;
        }
        let prod: u128 = q * p;
        let c: u128 = prod / (SCALE as u128);
        if c <= i64::MAX as u128 {
            Some(Money { units: c as i64 })
        } else {
            None
        }
    }

    /// The new weighted-average cost after adding `q2` units at price `p2`
    /// to a position of `q1` units at average cost `a1`.
    pub fn weighted_avg(q1: Money, a1: Money, q2: Money, p2: Money) -> (r: Money)
        requires
            q1@ >= 0,
            a1@ >= 0,
            q2@ >= 0,
            p2@ >= 0,
            q1@ + q2@ > 0,
        ensures
            r@ == weighted_avg_units(q1@, a1@, q2@, p2@),
            r@ >= 0,
    {
        proof {
            lemma_weighted_avg_bounds(q1@, a1@, q2@, p2@);
        }
        let n1: u128 = q1.units as u128;
        let n2: u128 = q2.units as u128;
        let v1: u128 = a1.units as u128;
        let v2: u128 = p2.units as u128;
        proof {
            assert(n1 * v1 + n2 * v2 <= 0xffff_ffff_ffff_ffff_ffff_ffff_ffff_ffffu128)
                by (nonlinear_arith)
                requires
                    n1 <= 0x7fff_ffff_ffff_ffffu128,
                    v1 <= 0x7fff_ffff_ffff_ffffu128,
                    n2 <= 0x7fff_ffff_ffff_ffffu128,
                    v2 <= 0x7fff_ffff_ffff_ffffu128,
            ;
        }
        let total: u128 = n1 * v1 + n2 * v2;
        let avg: u128 = total / (n1 + n2);
        Money { units: avg as i64 }
    }
}

/// Every amount is representable: its view lies within the `i64` range.
pub broadcast proof fn lemma_money_in_i64(m: Money)
    ensures
        i64::MIN <= #[trigger] m@ <= i64::MAX,
{
}

/// A truncated weighted average of two non-negative values lies between
/// zero and the larger of the two values.
pub proof fn lemma_weighted_avg_bounds(q1: int, a1: int, q2: int, p2: int)
    requires
        q1 >= 0,
        a1 >= 0,
        q2 >= 0,
        p2 >= 0,
        q1 + q2 > 0,
    ensures
        0 <= weighted_avg_units(q1, a1, q2, p2),
        weighted_avg_units(q1, a1, q2, p2) <= a1 || weighted_avg_units(q1, a1, q2, p2) <= p2,
{
    let m = if a1 >= p2 { a1 } else { p2 };
    assert(q1 * a1 + q2 * p2 <= (q1 + q2) * m) by (nonlinear_arith)
        requires
            q1 >= 0,
            q2 >= 0,
            a1 <= m,
            p2 <= m,
            a1 >= 0,
            p2 >= 0,
    ;
    assert(0 <= (q1 * a1 + q2 * p2) / (q1 + q2)) by (nonlinear_arith)
        requires
            q1 >= 0,
            q2 >= 0,
            a1 >= 0,
            p2 >= 0,
            q1 + q2 > 0,
    ;
    assert((q1 * a1 + q2 * p2) / (q1 + q2) <= m) by (nonlinear_arith)
        requires
            q1 * a1 + q2 * p2 <= (q1 + q2) * m,
            q1 + q2 > 0,
            m >= 0,
    ;
}

impl PartialOrd for Money {
    fn partial_cmp(&self, other: &Money) -> (r: Option<core::cmp::Ordering>) {
        if self.units < other.units {
            Some(core::cmp::Ordering::Less)
        } else if self.units == other.units {
            Some(core::cmp::Ordering::Equal)
        } else {
            Some(core::cmp::Ordering::Greater)
        }
    }
}

impl vstd::std_specs::cmp::PartialOrdSpecImpl for Money {
    open spec fn obeys_partial_cmp_spec() -> bool {
        true
    }

    open spec fn partial_cmp_spec(&self, other: &Money) -> Option<core::cmp::Ordering> {
        if self@ < other@ {
            Some(core::cmp::Ordering::Less)
        } else if self@ == other@ {
            Some(core::cmp::Ordering::Equal)
        } else {
            Some(core::cmp::Ordering::Greater)
        }
    }
}

/// Whether `c` is an ASCII decimal digit.
pub open spec fn is_digit_char(c: char) -> bool {
    48 <= c as int <= 57
}

/// The numeric value of an ASCII decimal digit.
pub open spec fn digit_of(c: char) -> int {
    c as int - 48
}

/// Whether every character of `s` is an ASCII decimal digit.
pub open spec fn all_digits(s: Seq<char>) -> bool {
    forall|i: int| 0 <= i < s.len() ==> is_digit_char(#[trigger] s[i])
}

/// The value of a sequence of decimal digits, most significant first.
pub open spec fn digits_val(s: Seq<char>) -> int
    decreases s.len(),
{
    if s.len() == 0 {
        0
    } else {
        digits_val(s.drop_last()) * 10 + digit_of(s.last())
    }
}

/// The index of the first decimal point in `s`, or `s.len()` if there is
/// none.
pub open spec fn find_dot(s: Seq<char>) -> int
    decreases s.len(),
{
    if s.len() == 0 {
        0
    } else if s[0] == '.' {
        0
    } else {
        1 + find_dot(s.drop_first())
    }
}

/// Ten to the `k`.
pub open spec fn pow10(k: nat) -> int
    decreases k,
{
    if k == 0 {
        1
    } else {
        10 * pow10((k - 1) as nat)
    }
}

/// A well-shaped decimal amount: non-empty, decimal digits with at most one
/// point, and one to four fraction digits when a point is present.  With no
/// point the whole text is the integer part; a leading point (".5") is
/// accepted, a trailing one ("5.") is not.  No sign is accepted: amounts
/// are never negative.
pub open spec fn money_shape_ok(s: Seq<char>) -> bool {
    let d = find_dot(s);
    &&& s.len() > 0
    &&& all_digits(s.subrange(0, d))
    &&& (d == s.len() || {
        let fl = s.len() - d - 1;
        &&& all_digits(s.subrange(d + 1, s.len() as int))
        &&& 1 <= fl <= 4
    })
}

/// The stored-unit value of a well-shaped decimal amount: the integer part
/// scaled by `SCALE`, plus the fraction digits scaled to ten-thousandths.
pub open spec fn money_shape_val(s: Seq<char>) -> int {
    let d = find_dot(s);
    if d == s.len() {
        digits_val(s) * (SCALE as int)
    } else {
        let fl = s.len() - d - 1;
        digits_val(s.subrange(0, d)) * (SCALE as int) + digits_val(
            s.subrange(d + 1, s.len() as int),
        ) * pow10((4 - fl) as nat)
    }
}

/// What a text parses to: its exact stored-unit value when it is a
/// well-shaped decimal amount that the representation can hold, nothing
/// otherwise.
pub open spec fn money_units_of(s: Seq<char>) -> Option<int> {
    if money_shape_ok(s) && money_shape_val(s) <= i64::MAX {
        Some(money_shape_val(s))
    } else {
        None
    }
}

/// The first decimal point is where the scan says it is.
proof fn lemma_find_dot_at(s: Seq<char>, i: int)
    requires
        0 <= i <= s.len(),
        forall|j: int| 0 <= j < i ==> s[j] != '.',
        i < s.len() ==> s[i] == '.',
    ensures
        find_dot(s) == i,
    decreases s.len(),
{
    if s.len() > 0 {
        if i == 0 {
        } else {
            assert(forall|j: int| 0 <= j < i - 1 ==> s.drop_first()[j] != '.');
            lemma_find_dot_at(s.drop_first(), i - 1);
        }
    }
}

/// A digit string's value is non-negative.
proof fn lemma_digits_val_nonneg(s: Seq<char>)
    requires
        all_digits(s),
    ensures
        digits_val(s) >= 0,
    decreases s.len(),
{
    if s.len() > 0 {
        assert(forall|i: int|
            0 <= i < s.drop_last().len() ==> is_digit_char(#[trigger] s.drop_last()[i]));
        lemma_digits_val_nonneg(s.drop_last());
    }
}

/// A digit string's value is below ten to its length.
proof fn lemma_digits_val_upper(s: Seq<char>)
    requires
        all_digits(s),
    ensures
        digits_val(s) < pow10(s.len()),
    decreases s.len(),
{
    if s.len() > 0 {
        assert(forall|i: int|
            0 <= i < s.drop_last().len() ==> is_digit_char(#[trigger] s.drop_last()[i]));
        lemma_digits_val_upper(s.drop_last());
        lemma_digits_val_nonneg(s.drop_last());
        assert(digits_val(s.drop_last()) * 10 <= (pow10(s.drop_last().len()) - 1) * 10)
            by (nonlinear_arith)
            requires
                digits_val(s.drop_last()) <= pow10(s.drop_last().len()) - 1,
        ;
    }
}

/// A digit-string prefix is worth no more than the whole string.
proof fn lemma_digits_val_prefix_le(s: Seq<char>, i: int)
    requires
        all_digits(s),
        0 <= i <= s.len(),
    ensures
        digits_val(s.subrange(0, i)) <= digits_val(s),
    decreases s.len() - i,
{
    if i == s.len() {
        assert(s.subrange(0, i) =~= s);
    } else {
        lemma_digits_val_prefix_le(s, i + 1);
        let t = s.subrange(0, i + 1);
        assert(t.drop_last() =~= s.subrange(0, i));
        assert(forall|j: int| 0 <= j < t.len() ==> is_digit_char(#[trigger] t[j]));
        assert(forall|j: int|
            0 <= j < s.subrange(0, i).len() ==> is_digit_char(#[trigger] s.subrange(0, i)[j]));
        lemma_digits_val_nonneg(s.subrange(0, i));
        assert(digits_val(s.subrange(0, i)) * 10 >= digits_val(s.subrange(0, i)))
            by (nonlinear_arith)
            requires
                digits_val(s.subrange(0, i)) >= 0,
        ;
    }
}

/// The index of the first decimal point, or the length if there is none.
#[verifier::loop_isolation(false)]
fn find_dot_pos(s: &str) -> (d: usize)
    ensures
        d == find_dot(s@),
        d <= s@.len(),
{
    let n = s.unicode_len();
    let mut i: usize = 0;
    while i < n
        invariant
            i <= n,
            forall|j: int| 0 <= j < i ==> s@[j] != '.',
        decreases n - i,
    {
        if s.get_char(i) == '.' {
            proof {
                lemma_find_dot_at(s@, i as int);
            }
            return i;
        }
        i = i + 1;
    }
    proof {
        lemma_find_dot_at(s@, n as int);
    }
    n
}

/// The value of the digit run `s[from..to]`, or `InvalidAmount` when a
/// non-digit occurs or the value leaves the representable range.
#[verifier::loop_isolation(false)]
fn digit_run_value(s: &str, from: usize, to: usize) -> (r: Result<i64, LedgerError>)
    requires
        from <= to <= s@.len(),
    ensures
        match r {
            Ok(v) => all_digits(s@.subrange(from as int, to as int)) && v == digits_val(
                s@.subrange(from as int, to as int),
            ) && v >= 0,
            Err(e) => e == LedgerError::InvalidAmount && (!all_digits(
                s@.subrange(from as int, to as int),
            ) || digits_val(s@.subrange(from as int, to as int)) > i64::MAX),
        },
{
    let ghost whole = s@.subrange(from as int, to as int);
    let mut acc: i64 = 0;
    let mut i: usize = from;
    proof {
        assert(s@.subrange(from as int, from as int) =~= Seq::<char>::empty());
    }
    while i < to
        invariant
            from <= i <= to,
            forall|j: int| from <= j < i ==> is_digit_char(#[trigger] s@[j]),
            acc == digits_val(s@.subrange(from as int, i as int)),
            acc >= 0,
        decreases to - i,
    {
        let c = s.get_char(i);
        let u = c as u32;
        if u < 48 || u > 57 {
            proof {
                assert(whole[i - from] == s@[i as int]);
                assert(!is_digit_char(whole[i - from]));
            }
            return Err(LedgerError::InvalidAmount);
        }
        let digit = (u - 48) as i64;
        let step = match acc.checked_mul(10) {
            Some(t) => t.checked_add(digit),
            None => None,
        };
        match step {
            None => {
                proof {
                    let pre1 = s@.subrange(from as int, (i + 1) as int);
                    assert(pre1.drop_last() =~= s@.subrange(from as int, i as int));
                    assert(digits_val(pre1) > i64::MAX);
                    if all_digits(whole) {
                        assert(forall|j: int|
                            0 <= j < whole.len() ==> is_digit_char(#[trigger] whole[j]));
                        assert(forall|j: int|
                            from <= j < to ==> is_digit_char(#[trigger] s@[j])) by {
                            assert(forall|j: int|
                                from <= j < to ==> s@[j] == whole[j - from]);
                        }
                        assert(forall|j: int|
                            0 <= j < whole.len() ==> #[trigger] whole[j] == s@[j + from]);
                        lemma_digits_val_prefix_le(whole, i + 1 - from);
                        assert(whole.subrange(0, i + 1 - from) =~= pre1);
                        assert(digits_val(whole) > i64::MAX);
                    }
                }
                return Err(LedgerError::InvalidAmount);
            },
            Some(u2) => {
                proof {
                    let pre1 = s@.subrange(from as int, (i + 1) as int);
                    assert(pre1.drop_last() =~= s@.subrange(from as int, i as int));
                }
                acc = u2;
            },
        }
        i = i + 1;
    }
    proof {
        assert(s@.subrange(from as int, to as int) =~= whole);
        assert(forall|j: int| 0 <= j < whole.len() ==> #[trigger] whole[j] == s@[j + from]);
    }
    Ok(acc)
}

impl Money {
    /// Parses a decimal amount ("150", "0.5", "150.75", up to four fraction
    /// digits).  Anything else — an empty text, a sign, a non-digit, too
    /// many fraction digits, or a value beyond the representation — fails
    /// with `InvalidAmount`.
    pub fn parse(s: &str) -> (r: Result<Money, LedgerError>)
        ensures
            match r {
                Ok(m) => money_units_of(s@) == Some(m@) && m@ >= 0,
                Err(e) => e == LedgerError::InvalidAmount && money_units_of(s@) is None,
            },
    {
        let n = s.unicode_len();
        if n == 0 {
            return Err(LedgerError::InvalidAmount);
        }
        let d = find_dot_pos(s);
        let ip = match digit_run_value(s, 0, d) {
            Ok(v) => v,
            Err(e) => {
                proof {
                    lemma_money_parse_int_rejected(s@);
                }
                return Err(e);
            },
        };
        if d == n {
            proof {
                assert(s@.subrange(0, n as int) =~= s@);
            }
            match ip.checked_mul(SCALE) {
                None => {
                    proof {
                        assert(ip * (SCALE as int) > i64::MAX);
                    }
                    Err(LedgerError::InvalidAmount)
                },
                Some(v) => Ok(Money { units: v }),
            }
        } else {
            let fl = n - d - 1;
            if fl < 1 || fl > 4 {
                return Err(LedgerError::InvalidAmount);
            }
            let fp = match digit_run_value(s, d + 1, n) {
                Ok(v) => v,
                Err(e) => {
                    proof {
                        let frac = s@.subrange(d + 1, n as int);
                        lemma_pow10_small();
                        if all_digits(frac) {
                            lemma_digits_val_upper_pub(frac);
                            lemma_pow10_le_4(frac.len() as nat);
                        }
                        assert(!all_digits(frac));
                    }
                    return Err(e);
                },
            };
            proof {
                let frac = s@.subrange(d + 1, n as int);
                lemma_pow10_small();
                lemma_digits_val_upper_pub(frac);
                lemma_pow10_le_4(frac.len() as nat);
            }
            let mult: i64 = if fl == 1 {
                1000
            } else if fl == 2 {
                100
            } else if fl == 3 {
                10
            } else {
                1
            };
            proof {
                lemma_pow10_small();
                assert(mult as int == pow10((4 - fl) as nat));
                let frac = s@.subrange(d + 1, n as int);
                assert(digits_val(frac) * (mult as int) < pow10(frac.len() as nat) * (
                mult as int)) by (nonlinear_arith)
                    requires
                        digits_val(frac) < pow10(frac.len() as nat),
                        digits_val(frac) >= 0,
                        mult as int >= 1,
                ;
                assert(pow10(frac.len() as nat) * (mult as int) == pow10(4)) by {
                    lemma_pow10_split(frac.len() as nat, (4 - fl) as nat);
                }
            }
            let frac_units = fp * mult;
            match ip.checked_mul(SCALE) {
                None => {
                    proof {
                        lemma_money_val_ge_int_part(s@);
                    }
                    Err(LedgerError::InvalidAmount)
                },
                Some(whole_units) => {
                    match whole_units.checked_add(frac_units) {
                        None => {
                            proof {
                                assert(money_shape_val(s@) > i64::MAX);
                            }
                            Err(LedgerError::InvalidAmount)
                        },
                        Some(v) => Ok(Money { units: v }),
                    }
                },
            }
        }
    }
}

/// Ten-powers multiply when exponents add (stated for the split this
/// parser needs).
proof fn lemma_pow10_split(a: nat, b: nat)
    requires
        a + b == 4,
    ensures
        pow10(a) * pow10(b) == pow10(4),
{
    lemma_pow10_small();
    if a == 0 {
    } else if a == 1 {
        assert(pow10(1) * pow10(3) == 10000);
    } else if a == 2 {
        assert(pow10(2) * pow10(2) == 10000);
    } else if a == 3 {
        assert(pow10(3) * pow10(1) == 10000);
    } else {
        assert(pow10(4) * pow10(0) == 10000);
    }
}

/// The small ten-powers this module computes with.
proof fn lemma_pow10_small()
    ensures
        pow10(0) == 1,
        pow10(1) == 10,
        pow10(2) == 100,
        pow10(3) == 1000,
        pow10(4) == 10000,
{
    assert(pow10(0) == 1);
    assert(pow10(1) == 10);
    assert(pow10(2) == 100);
    assert(pow10(3) == 1000);
    assert(pow10(4) == 10000);
}

/// A digit string's value is below ten to its length.
pub proof fn lemma_digits_val_upper_pub(s: Seq<char>)
    requires
        all_digits(s),
    ensures
        0 <= digits_val(s) < pow10(s.len()),
{
    lemma_digits_val_nonneg(s);
    lemma_digits_val_upper(s);
}

/// When the integer-part scan rejects, the whole text has no value.
proof fn lemma_money_parse_int_rejected(s: Seq<char>)
    requires
        !all_digits(s.subrange(0, find_dot(s))) || digits_val(s.subrange(0, find_dot(s)))
            > i64::MAX,
    ensures
        money_units_of(s) is None,
{
    if money_shape_ok(s) {
        let d = find_dot(s);
        let ipv = digits_val(s.subrange(0, d));
        assert(ipv > i64::MAX);
        lemma_money_val_ge_int_part(s);
    }
}

/// A well-shaped amount is worth at least its integer part.
proof fn lemma_money_val_ge_int_part(s: Seq<char>)
    requires
        money_shape_ok(s),
    ensures
        money_shape_val(s) >= digits_val(s.subrange(0, find_dot(s))),
{
    let d = find_dot(s);
    if d == s.len() {
        assert(s.subrange(0, d) =~= s);
        lemma_digits_val_nonneg(s);
        assert(digits_val(s) * (SCALE as int) >= digits_val(s)) by (nonlinear_arith)
            requires
                digits_val(s) >= 0,
        ;
    } else {
        let ipv = digits_val(s.subrange(0, d));
        let frac = s.subrange(d + 1, s.len() as int);
        lemma_digits_val_nonneg(s.subrange(0, d));
        lemma_digits_val_nonneg(frac);
        assert(ipv * (SCALE as int) >= ipv) by (nonlinear_arith)
            requires
                ipv >= 0,
        ;
        lemma_pow10_nonneg((4 - (s.len() - d - 1)) as nat);
        assert(digits_val(frac) * pow10((4 - (s.len() - d - 1)) as nat) >= 0) by (nonlinear_arith)
            requires
                digits_val(frac) >= 0,
                pow10((4 - (s.len() - d - 1)) as nat) >= 0,
        ;
    }
}

/// A ten-power with exponent at most four is at most ten thousand.
proof fn lemma_pow10_le_4(k: nat)
    requires
        k <= 4,
    ensures
        1 <= pow10(k) <= 10000,
{
    lemma_pow10_small();
    if k == 0 {
    } else if k == 1 {
    } else if k == 2 {
    } else if k == 3 {
    } else {
    }
}

/// Ten-powers are positive.
proof fn lemma_pow10_nonneg(k: nat)
    ensures
        pow10(k) >= 1,
    decreases k,
{
    if k > 0 {
        lemma_pow10_nonneg((k - 1) as nat);
    }
}

} // verus!
