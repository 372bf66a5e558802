//! Per-ticker positions with an exact average cost basis.
//!
//! The average cost basis is the quantity-weighted mean of the purchase
//! prices of the units still held. It is kept as an exact rational number
//! `basis_num / basis_den` in cents, reduced by the greatest common divisor
//! after every purchase. A purchase of `q` units at price `p` moves the basis
//! from `n/d` over quantity `m` to `(n*m + p*q*d) / (d*(m+q))`; a sale leaves
//! the basis unchanged and only lowers the quantity.

use vstd::prelude::*;

use vstd::arithmetic::div_mod::{lemma_fundamental_div_mod, lemma_mod_multiples_vanish};

verus! {

/// Greatest common divisor by Euclid's method.
pub open spec fn spec_gcd(a: int, b: int) -> int
    recommends
        0 <= a,
        0 <= b,
    decreases b, when b >= 0
{
    if b <= 0 {
        a
    } else {
        spec_gcd(b, a % b)
    }
}

/// The greatest common divisor with a positive number is positive.
pub proof fn lemma_gcd_pos(a: int, b: int)
    requires
        0 <= a,
        1 <= b,
    ensures
        1 <= spec_gcd(a, b),
    decreases b,
{
    if a % b == 0 {
        assert(spec_gcd(a, b) == spec_gcd(b, 0) == b);
    } else {
        lemma_gcd_pos(b, a % b);
    }
}

/// The greatest common divisor divides both its arguments.
pub proof fn lemma_gcd_divides(a: int, b: int)
    requires
        0 <= a,
        0 <= b,
        1 <= spec_gcd(a, b),
    ensures
        a % spec_gcd(a, b) == 0,
        b % spec_gcd(a, b) == 0,
    decreases b,
{
    let g = spec_gcd(a, b);
    if b == 0 {
        assert(g == a);
        assert(a % a == 0) by {
            assert(a == 1 * a + 0) by (nonlinear_arith);
            vstd::arithmetic::div_mod::lemma_fundamental_div_mod_converse(a, a, 1, 0);
        }
        assert(0int % a == 0) by {
            vstd::arithmetic::div_mod::lemma_small_mod(0nat, a as nat);
        }
    } else {
        lemma_gcd_divides(b, a % b);
        // g divides b and a % b, and a == (a / b) * b + a % b, so g divides a.
        let q = a / b;
        let r = a % b;
        lemma_fundamental_div_mod(a, b);
        assert(b == (b / g) * g) by {
            lemma_fundamental_div_mod(b, g);
        }
        assert(q * b == (q * (b / g)) * g) by (nonlinear_arith)
            requires b == (b / g) * g;
        assert(a % g == (r + (q * (b / g)) * g) % g);
        assert((r + (q * (b / g)) * g) % g == r % g) by {
            lemma_mod_multiples_vanish(q * (b / g), r, g);
        }
    }
}

/// Two rationals given as numerator/denominator pairs are equal.
pub open spec fn avg_eq(n1: int, d1: int, n2: int, d2: int) -> bool {
    n1 * d2 == n2 * d1
}

/// Equality of rationals is transitive when the middle denominator is
/// non-zero.
pub proof fn lemma_avg_eq_trans(n1: int, d1: int, n2: int, d2: int, n3: int, d3: int)
    by (nonlinear_arith)
    requires
        avg_eq(n1, d1, n2, d2),
        avg_eq(n2, d2, n3, d3),
        d2 != 0,
    ensures
        avg_eq(n1, d1, n3, d3),
{
}

/// Dividing numerator and denominator by a common divisor keeps the rational
/// value and keeps the denominator positive.
pub proof fn lemma_reduce_keeps_ratio(n: int, d: int, g: int)
    requires
        0 <= n,
        1 <= d,
        1 <= g,
        n % g == 0,
        d % g == 0,
    ensures
        avg_eq(n / g, d / g, n, d),
        1 <= d / g,
        0 <= n / g,
        (n / g) * g == n,
        (d / g) * g == d,
{
    lemma_fundamental_div_mod(n, g);
    lemma_fundamental_div_mod(d, g);
    assert(n == (n / g) * g) by (nonlinear_arith)
        requires n == g * (n / g) + n % g && n % g == 0;
    assert(d == (d / g) * g) by (nonlinear_arith)
        requires d == g * (d / g) + d % g && d % g == 0;
    assert((n / g) * d == n * (d / g)) by (nonlinear_arith)
        requires
            n == (n / g) * g,
            d == (d / g) * g;
    assert(1 <= d / g) by (nonlinear_arith)
        requires
            d == (d / g) * g,
            1 <= d,
            1 <= g;
    assert(0 <= n / g) by (nonlinear_arith)
        requires
            n == (n / g) * g,
            0 <= n,
            1 <= g;
}

/// Greatest common divisor, executable.
fn gcd_u128(a: u128, b: u128) -> (g: u128)
    ensures
        g as int == spec_gcd(a as int, b as int),
    decreases b,
{
    if b == 0 {
        a
    } else {
        gcd_u128(b, a % b)
    }
}

/// An account's holding in one ticker: the quantity of units held and the
/// exact average cost basis `basis_num / basis_den`, in cents per unit.
#[derive(Clone, Copy, Debug, PartialEq, Eq, Structural)]
pub struct Position {
    pub quantity: u64,
    pub basis_num: u128,
    pub basis_den: u128,
}

/// The mathematical content of a position, free of machine bounds.
pub struct PositionModel {
    pub quantity: int,
    pub basis_num: int,
    pub basis_den: int,
}

impl PositionModel {
    /// A denominator is always positive; the other components never go
    /// negative.
    pub open spec fn wf(self) -> bool {
        0 <= self.quantity && 0 <= self.basis_num && 1 <= self.basis_den
    }

    /// The position before any purchase: nothing held, basis zero.
    pub open spec fn empty() -> PositionModel {
        PositionModel { quantity: 0, basis_num: 0, basis_den: 1 }
    }
}

/// Numerator of the unreduced basis after buying `qty` units at `price`.
pub open spec fn buy_num(m: PositionModel, price: int, qty: int) -> int {
    m.basis_num * m.quantity + price * qty * m.basis_den
}

/// Denominator of the unreduced basis after buying `qty` units.
pub open spec fn buy_den(m: PositionModel, qty: int) -> int {
    m.basis_den * (m.quantity + qty)
}

/// The position after buying `qty` units at `price`: quantity grows, the
/// basis becomes the quantity-weighted mean, reduced by the greatest common
/// divisor.
pub open spec fn model_after_buy(m: PositionModel, price: int, qty: int) -> PositionModel {
    let n = buy_num(m, price, qty);
    let d = buy_den(m, qty);
    let g = spec_gcd(n, d);
    PositionModel { quantity: m.quantity + qty, basis_num: n / g, basis_den: d / g }
}

/// The intermediate values of a buy on this position fit the machine words
/// the exact arithmetic is done in.
pub open spec fn model_buy_fits(m: PositionModel, price: int, qty: int) -> bool {
    &&& m.quantity + qty <= u64::MAX
    &&& buy_num(m, price, qty) <= u128::MAX
    &&& buy_den(m, qty) <= u128::MAX
}

/// The position after selling `qty` units: quantity shrinks, the basis is
/// unchanged.
pub open spec fn model_after_sell(m: PositionModel, qty: int) -> PositionModel {
    PositionModel { quantity: m.quantity - qty, basis_num: m.basis_num, basis_den: m.basis_den }
}

/// A buy keeps the model well-formed, and the new basis equals the
/// unreduced weighted mean `(n*m + p*q*d) / (d*(m+q))` as a rational.
pub proof fn lemma_buy_wf(m: PositionModel, price: int, qty: int)
    requires
        m.wf(),
        1 <= price,
        1 <= qty,
    ensures
        model_after_buy(m, price, qty).wf(),
        0 <= buy_num(m, price, qty),
        1 <= buy_den(m, qty),
        avg_eq(
            model_after_buy(m, price, qty).basis_num,
            model_after_buy(m, price, qty).basis_den,
            buy_num(m, price, qty),
            buy_den(m, qty),
        ),
{
    let n = buy_num(m, price, qty);
    let d = buy_den(m, qty);
    assert(0 <= n && 1 <= d) by (nonlinear_arith)
        requires
            0 <= m.quantity,
            0 <= m.basis_num,
            1 <= m.basis_den,
            1 <= price,
            1 <= qty,
            n == m.basis_num * m.quantity + price * qty * m.basis_den,
            d == m.basis_den * (m.quantity + qty);
    let g = spec_gcd(n, d);
    lemma_gcd_pos(n, d);
    lemma_gcd_divides(n, d);
    lemma_reduce_keeps_ratio(n, d, g);
}

impl Position {
    /// The denominator of the basis is positive.
    pub open spec fn wf(self) -> bool {
        1 <= self.basis_den
    }

    /// The mathematical content of this position.
    pub open spec fn model(self) -> PositionModel {
        PositionModel {
            quantity: self.quantity as int,
            basis_num: self.basis_num as int,
            basis_den: self.basis_den as int,
        }
    }

    /// The intermediate values of a buy fit the machine word sizes.
    pub open spec fn buy_fits(self, price: int, qty: int) -> bool {
        model_buy_fits(self.model(), price, qty)
    }

    /// A position holding nothing, before any purchase.
    pub fn empty() -> (r: Position)
        ensures
            r.model() == PositionModel::empty(),
            r.wf(),
    {
        Position { quantity: 0, basis_num: 0, basis_den: 1 }
    }

    /// Buys `qty` units at `price` cents: adds to the quantity and moves the
    /// average cost basis to the exact quantity-weighted mean.
    pub fn apply_buy(&mut self, price: u64, qty: u64)
        requires
            old(self).wf(),
            1 <= price,
            1 <= qty,
            old(self).buy_fits(price as int, qty as int),
        ensures
            final(self).wf(),
            final(self).model() == model_after_buy(old(self).model(), price as int, qty as int),
    {
        proof {
            lemma_buy_wf(self.model(), price as int, qty as int);
            assert(price as int * qty as int <= u64::MAX * u64::MAX < u128::MAX) by (
            nonlinear_arith)
                requires
                    price <= u64::MAX,
                    qty <= u64::MAX,
                    0 <= price,
                    0 <= qty;
            assert(0 <= self.basis_num * self.quantity
                && 0 <= (price * qty) * self.basis_den) by (nonlinear_arith)
                requires
                    0 <= self.basis_num,
                    0 <= self.quantity,
                    0 <= price,
                    0 <= qty,
                    0 <= self.basis_den;
        }
        let held = self.basis_num * (self.quantity as u128);
        let bought = ((price as u128) * (qty as u128)) * self.basis_den;
        let n = held + bought;
        let d = self.basis_den * ((self.quantity + qty) as u128);
        let g = gcd_u128(n, d);
        proof {
            lemma_gcd_pos(n as int, d as int);
        }
        self.quantity = self.quantity + qty;
        self.basis_num = n / g;
        self.basis_den = d / g;
    }

    /// Sells `qty` units: lowers the quantity, leaves the basis unchanged.
    pub fn apply_sell(&mut self, qty: u64)
        requires
            old(self).wf(),
            qty <= old(self).quantity,
        ensures
            final(self).wf(),
            final(self).model() == model_after_sell(old(self).model(), qty as int),
    {
        self.quantity = self.quantity - qty;
    }
}

/// Total cost in cents of a sequence of buy orders, each `(price, qty)`.
pub open spec fn orders_cost(orders: Seq<(u64, u64)>) -> int
    decreases orders.len(),
{
    if orders.len() == 0 {
        0
    } else {
        orders_cost(orders.drop_last()) + orders.last().0 * orders.last().1
    }
}

/// Total quantity of a sequence of buy orders.
pub open spec fn orders_qty(orders: Seq<(u64, u64)>) -> int
    decreases orders.len(),
{
    if orders.len() == 0 {
        0
    } else {
        orders_qty(orders.drop_last()) + orders.last().1
    }
}

/// Every order has a positive price and a positive quantity.
pub open spec fn orders_valid(orders: Seq<(u64, u64)>) -> bool {
    forall|i: int| 0 <= i < orders.len() ==> 1 <= (#[trigger] orders[i]).0 && 1 <= orders[i].1
}

/// The position after a sequence of buy orders, applied in order.
pub open spec fn model_after_buys(m: PositionModel, orders: Seq<(u64, u64)>) -> PositionModel
    decreases orders.len(),
{
    if orders.len() == 0 {
        m
    } else {
        model_after_buy(
            model_after_buys(m, orders.drop_last()),
            orders.last().0 as int,
            orders.last().1 as int,
        )
    }
}

/// The average cost basis after any sequence of buys on an initially empty
/// position is the quantity-weighted mean of the executed buy prices: the
/// basis equals total cost over total quantity as an exact rational.
pub proof fn lemma_avg_cost_is_weighted_mean(orders: Seq<(u64, u64)>)
    requires
        orders_valid(orders),
    ensures
        model_after_buys(PositionModel::empty(), orders).wf(),
        model_after_buys(PositionModel::empty(), orders).quantity == orders_qty(orders),
        avg_eq(
            model_after_buys(PositionModel::empty(), orders).basis_num,
            model_after_buys(PositionModel::empty(), orders).basis_den,
            orders_cost(orders),
            orders_qty(orders),
        ),
    decreases orders.len(),
{
    if orders.len() == 0 {
    } else {
        let prefix = orders.drop_last();
        assert(orders_valid(prefix));
        lemma_avg_cost_is_weighted_mean(prefix);
        let m = model_after_buys(PositionModel::empty(), prefix);
        let p = orders.last().0 as int;
        let q = orders.last().1 as int;
        assert(1 <= p && 1 <= q);
        let cc = orders_cost(prefix);
        let qq = orders_qty(prefix);
        let n = buy_num(m, p, q);
        let d = buy_den(m, q);
        lemma_buy_wf(m, p, q);
        // The unreduced update stands for (cost so far + p*q) / (quantity so far + q).
        assert(avg_eq(n, d, cc + p * q, qq + q)) by (nonlinear_arith)
            requires
                n == m.basis_num * m.quantity + p * q * m.basis_den,
                d == m.basis_den * (m.quantity + q),
                m.quantity == qq,
                m.basis_num * qq == cc * m.basis_den;
        assert(1 <= d) by (nonlinear_arith)
            requires
                1 <= m.basis_den,
                0 <= m.quantity,
                1 <= q,
                d == m.basis_den * (m.quantity + q);
        let after = model_after_buy(m, p, q);
        lemma_avg_eq_trans(
            after.basis_num,
            after.basis_den,
            n,
            d,
            cc + p * q,
            qq + q,
        );
    }
}

} // verus!
