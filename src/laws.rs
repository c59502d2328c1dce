//! Properties that relate the engine's quantities across inputs.
use vstd::prelude::*;
use vstd::seq_lib::{commutative_foldl, lemma_fold_left_permutation};
use crate::arith::max_nat;
use crate::metrics::{
    daily_returns_of, executed, gain_at, gain_units, loss_at, loss_units, notional_at,
    notional_fits, notional_scale, spans_time, total_span_days, turnover_fits, turnover_of,
    turnover_scale, turnover_units, walk, DAY_MICROS,
};
use crate::types::{Equity, Order, Ratio};

verus! {

/// Snapshots ordered by time, ascending.
pub open spec fn time_ordered(eqs: Seq<Equity>) -> bool {
    forall|i: int, j: int| 0 <= i <= j < eqs.len() ==> eqs[i].time <= eqs[j].time
}

/// Snapshots strictly increasing in time.
pub open spec fn strictly_time_ordered(eqs: Seq<Equity>) -> bool {
    forall|i: int, j: int| 0 <= i < j < eqs.len() ==> eqs[i].time < eqs[j].time
}

/// With at least two snapshots spanning more than a day and a nonzero baseline,
/// the annualized return `(end - start) / start / (days / 365)` has nonzero
/// denominators: the span is at least one whole day and the baseline is nonzero.
pub proof fn lemma_annual_return_defined(eqs: Seq<Equity>)
    requires
        eqs.len() >= 2,
        strictly_time_ordered(eqs),
        eqs[eqs.len() - 1].time - eqs[0].time > DAY_MICROS,
        eqs[0].total.mantissa != 0,
    ensures
        spans_time(eqs),
        total_span_days(eqs) >= 1,
{
    let d = eqs[eqs.len() - 1].time - eqs[0].time;
    assert(d / (DAY_MICROS as int) >= 1) by (nonlinear_arith)
        requires
            d > DAY_MICROS as int,
            DAY_MICROS as int > 0,
    ;
}

proof fn lemma_fits_transfers(a: Seq<Order>, b: Seq<Order>, k: nat)
    requires
        a.to_multiset() == b.to_multiset(),
        forall|i: int| 0 <= i < a.len() ==> notional_fits(#[trigger] a[i], k),
    ensures
        forall|j: int| 0 <= j < b.len() ==> notional_fits(#[trigger] b[j], k),
{
    broadcast use vstd::seq_lib::group_to_multiset_ensures;
    assert forall|j: int| 0 <= j < b.len() implies notional_fits(#[trigger] b[j], k) by {
        assert(b.contains(b[j]));
        assert(b.to_multiset().count(b[j]) > 0);
        assert(a.contains(b[j]));
    }
}

/// Turnover does not depend on the order of the orders: any permutation gives
/// the same scale, the same sums at every scale, the same total, and overflows
/// exactly when the original sequence does.
pub proof fn lemma_turnover_order_independent(a: Seq<Order>, b: Seq<Order>)
    requires
        a.to_multiset() == b.to_multiset(),
    ensures
        turnover_scale(a) == turnover_scale(b),
        forall|k: nat| turnover_units(a, k) == turnover_units(b, k),
        turnover_fits(a) == turnover_fits(b),
        turnover_of(a) == turnover_of(b),
{
    let g = |acc: nat, o: Order| max_nat(acc, notional_scale(o));
    assert(commutative_foldl(g));
    lemma_fold_left_permutation(a, b, g, 0nat);
    assert forall|k: nat| turnover_units(a, k) == turnover_units(b, k) by {
        let f = |acc: int, o: Order| acc + notional_at(o, k);
        assert(commutative_foldl(f));
        lemma_fold_left_permutation(a, b, f, 0int);
    }
    let k = turnover_scale(a);
    let fg = |acc: int, o: Order| acc + gain_at(o, k);
    assert(commutative_foldl(fg));
    lemma_fold_left_permutation(a, b, fg, 0int);
    let fl = |acc: int, o: Order| acc + loss_at(o, k);
    assert(commutative_foldl(fl));
    lemma_fold_left_permutation(a, b, fl, 0int);
    assert(gain_units(a, k) == gain_units(b, k));
    assert(loss_units(a, k) == loss_units(b, k));
    if forall|i: int| 0 <= i < a.len() ==> notional_fits(#[trigger] a[i], k) {
        lemma_fits_transfers(a, b, k);
    }
    if forall|i: int| 0 <= i < b.len() ==> notional_fits(#[trigger] b[i], k) {
        lemma_fits_transfers(b, a, k);
    }
}

/// When no order has both an executed size and an executed price, the turnover
/// can always be summed and is zero, so a session that spans time reports
/// `NoTurnover`.
pub proof fn lemma_unexecuted_orders_no_turnover(orders: Seq<Order>)
    requires
        forall|i: int| 0 <= i < orders.len() ==> !executed(#[trigger] orders[i]),
    ensures
        turnover_fits(orders),
        turnover_of(orders).mantissa == 0,
{
    lemma_zero_sums(orders, 0);
}

proof fn lemma_zero_sums(orders: Seq<Order>, k: nat)
    requires
        forall|i: int| 0 <= i < orders.len() ==> !executed(#[trigger] orders[i]),
    ensures
        turnover_scale(orders) == 0,
        turnover_units(orders, k) == 0,
        gain_units(orders, k) == 0,
        loss_units(orders, k) == 0,
    decreases orders.len(),
{
    if orders.len() > 0 {
        let p = orders.drop_last();
        assert forall|i: int| 0 <= i < p.len() implies !executed(#[trigger] p[i]) by {
            assert(p[i] == orders[i]);
        }
        lemma_zero_sums(p, k);
        assert(!executed(orders[orders.len() - 1]));
    }
}

/// An order missing its executed size or price adds nothing to turnover.
pub proof fn lemma_unexecuted_order_ignored(orders: Seq<Order>, o: Order)
    requires
        !executed(o),
    ensures
        forall|k: nat| turnover_units(orders.push(o), k) == turnover_units(orders, k),
        turnover_scale(orders.push(o)) == turnover_scale(orders),
        turnover_of(orders.push(o)) == turnover_of(orders),
{
    assert(orders.push(o).drop_last() =~= orders);
}

proof fn lemma_walk_progress(eqs: Seq<Equity>, k: nat)
    requires
        time_ordered(eqs),
        1 <= k <= eqs.len(),
    ensures
        daily_returns_of(eqs, k).len() * DAY_MICROS <= walk(eqs, k).0 - eqs[0].time,
        walk(eqs, k).0 <= eqs[k - 1].time,
        forall|j: int|
            0 <= j < daily_returns_of(eqs, k).len() ==> #[trigger] daily_returns_of(eqs, k)[j].num
                != 0,
    decreases k,
{
    let i = (k - 1) as nat;
    let day = DAY_MICROS as int;
    let prev = walk(eqs, i);
    let c0 = daily_returns_of(eqs, i).len() as int;
    let c1 = daily_returns_of(eqs, k).len() as int;
    if k > 1 {
        lemma_walk_progress(eqs, i);
        assert(eqs[k - 2].time <= eqs[k - 1].time);
    } else {
        assert(prev.0 == eqs[0].time);
    }
    assert(c0 * day <= prev.0 - eqs[0].time);
    if eqs[i as int].time >= prev.0 + day {
        assert(walk(eqs, k).0 == prev.0 + day);
        assert(c1 <= c0 + 1);
        assert(c1 * day <= c0 * day + day) by (nonlinear_arith)
            requires
                c1 <= c0 + 1,
                day > 0,
        ;
    } else {
        assert(walk(eqs, k) == prev);
        assert(c1 == c0);
    }
}

/// Over snapshots ordered by time, there are at most as many daily returns as
/// whole days between the first and last snapshot, and none of them is zero.
pub proof fn lemma_daily_returns_bounded(eqs: Seq<Equity>)
    requires
        eqs.len() >= 1,
        time_ordered(eqs),
    ensures
        daily_returns_of(eqs, eqs.len()).len() <= total_span_days(eqs),
        forall|j: int|
            0 <= j < daily_returns_of(eqs, eqs.len()).len() ==> #[trigger] daily_returns_of(
                eqs,
                eqs.len(),
            )[j].num != 0,
{
    lemma_walk_progress(eqs, eqs.len());
    let c = daily_returns_of(eqs, eqs.len()).len() as int;
    let d = eqs[eqs.len() - 1].time - eqs[0].time;
    let day = DAY_MICROS as int;
    assert(c <= d / day) by (nonlinear_arith)
        requires
            c * day <= d,
            day > 0,
            c >= 0,
    ;
}

/// Sum of the values.
pub open spec fn sum_of(xs: Seq<int>) -> int
    decreases xs.len(),
{
    if xs.len() == 0 {
        0
    } else {
        sum_of(xs.drop_last()) + xs.last()
    }
}

/// Sum of the squares of the values.
pub open spec fn sum_sq_of(xs: Seq<int>) -> int
    decreases xs.len(),
{
    if xs.len() == 0 {
        0
    } else {
        sum_sq_of(xs.drop_last()) + xs.last() * xs.last()
    }
}

/// Sum of the squared distances of the values from `y`.
pub open spec fn sq_dist_sum(xs: Seq<int>, y: int) -> int
    decreases xs.len(),
{
    if xs.len() == 0 {
        0
    } else {
        sq_dist_sum(xs.drop_last(), y) + (xs.last() - y) * (xs.last() - y)
    }
}

/// `n * sum(x^2) - sum(x)^2`: `n^2` times the population variance of the values.
pub open spec fn scaled_variance(xs: Seq<int>) -> int {
    xs.len() * sum_sq_of(xs) - sum_of(xs) * sum_of(xs)
}

proof fn lemma_sq_dist_sum(xs: Seq<int>, y: int)
    ensures
        sq_dist_sum(xs, y) == sum_sq_of(xs) - 2 * y * sum_of(xs) + xs.len() * y * y,
        sq_dist_sum(xs, y) >= 0,
        sq_dist_sum(xs, y) == 0 <==> forall|i: int| 0 <= i < xs.len() ==> xs[i] == y,
    decreases xs.len(),
{
    if xs.len() > 0 {
        let p = xs.drop_last();
        let x = xs.last();
        lemma_sq_dist_sum(p, y);
        let n = p.len() as int;
        assert((x - y) * (x - y) == x * x - 2 * y * x + y * y) by (nonlinear_arith);
        assert((n + 1) * y * y == n * y * y + y * y) by (nonlinear_arith);
        assert(2 * y * (sum_of(p) + x) == 2 * y * sum_of(p) + 2 * y * x) by (nonlinear_arith);
        assert((x - y) * (x - y) >= 0) by (nonlinear_arith);
        if x != y {
            assert((x - y) * (x - y) > 0) by (nonlinear_arith)
                requires
                    x != y,
            ;
        }
        if forall|i: int| 0 <= i < xs.len() ==> xs[i] == y {
            assert forall|i: int| 0 <= i < p.len() implies p[i] == y by {
                assert(xs[i] == y);
            }
            assert(xs[xs.len() - 1] == y);
            assert(sq_dist_sum(p, y) == 0);
            assert((x - y) * (x - y) == 0) by (nonlinear_arith)
                requires
                    x == y,
            ;
        }
        if sq_dist_sum(xs, y) == 0 {
            assert(sq_dist_sum(p, y) == 0);
            assert(x == y);
            assert forall|i: int| 0 <= i < xs.len() implies xs[i] == y by {
                if i < p.len() {
                    assert(p[i] == xs[i]);
                }
            }
        }
    }
}

/// The spread of a sequence of values (such as daily returns written over a
/// common denominator) is never negative, and it is zero exactly when all the
/// values are identical: the population standard deviation is at least zero,
/// and zero if and only if every value is the same.
pub proof fn lemma_variance_zero_iff_identical(xs: Seq<int>)
    ensures
        scaled_variance(xs) >= 0,
        scaled_variance(xs) == 0 <==> forall|i: int, j: int|
            0 <= i < xs.len() && 0 <= j < xs.len() ==> xs[i] == xs[j],
    decreases xs.len(),
{
    if xs.len() > 0 {
        let p = xs.drop_last();
        let y = xs.last();
        let n = p.len() as int;
        lemma_variance_zero_iff_identical(p);
        lemma_sq_dist_sum(p, y);
        let s = sum_of(p);
        let q = sum_sq_of(p);
        assert(scaled_variance(xs) == scaled_variance(p) + sq_dist_sum(p, y)) by {
            assert((n + 1) * (q + y * y) - (s + y) * (s + y) == (n * q - s * s) + (q - 2 * y * s
                + n * y * y)) by (nonlinear_arith);
        }
        if forall|i: int, j: int| 0 <= i < xs.len() && 0 <= j < xs.len() ==> xs[i] == xs[j] {
            assert forall|i: int, j: int| 0 <= i < p.len() && 0 <= j < p.len() implies p[i]
                == p[j] by {
                assert(xs[i] == xs[j]);
            }
            assert forall|i: int| 0 <= i < p.len() implies p[i] == y by {
                assert(xs[i] == xs[xs.len() - 1]);
            }
        }
        if scaled_variance(xs) == 0 {
            assert forall|i: int, j: int| 0 <= i < xs.len() && 0 <= j < xs.len() implies xs[i]
                == xs[j] by {
                if i < p.len() {
                    assert(p[i] == xs[i]);
                    assert(p[i] == y);
                }
                if j < p.len() {
                    assert(p[j] == xs[j]);
                    assert(p[j] == y);
                }
            }
        }
    }
}

/// Product of the denominators.
pub open spec fn den_product(rs: Seq<Ratio>) -> int
    decreases rs.len(),
{
    if rs.len() == 0 {
        1
    } else {
        den_product(rs.drop_last()) * rs.last().den
    }
}

/// Product of the denominators other than the `i`-th.
pub open spec fn cofactor(rs: Seq<Ratio>, i: int) -> int
    decreases rs.len(),
{
    if rs.len() == 0 {
        1
    } else if i == rs.len() - 1 {
        den_product(rs.drop_last())
    } else {
        cofactor(rs.drop_last(), i) * rs.last().den
    }
}

/// The ratios written over the common denominator `den_product(rs)`: the numerators.
pub open spec fn over_common_den(rs: Seq<Ratio>) -> Seq<int> {
    Seq::new(rs.len(), |i: int| rs[i].num * cofactor(rs, i))
}

proof fn lemma_cofactor(rs: Seq<Ratio>, i: int)
    requires
        0 <= i < rs.len(),
        forall|j: int| 0 <= j < rs.len() ==> (#[trigger] rs[j]).den != 0,
    ensures
        cofactor(rs, i) * rs[i].den == den_product(rs),
        den_product(rs) != 0,
    decreases rs.len(),
{
    let p = rs.drop_last();
    assert forall|j: int| 0 <= j < p.len() implies (#[trigger] p[j]).den != 0 by {
        assert(p[j] == rs[j]);
    }
    let d = rs.last().den;
    assert(d == rs[rs.len() - 1].den);
    if i == rs.len() - 1 {
        if p.len() > 0 {
            lemma_cofactor(p, 0);
        }
        let q = den_product(p);
        assert(q * d != 0) by (nonlinear_arith)
            requires
                q != 0,
                d != 0,
        ;
    } else {
        lemma_cofactor(p, i);
        assert(p[i] == rs[i]);
        let c = cofactor(p, i);
        let q = den_product(p);
        let e = rs[i].den;
        assert((c * d) * e == (c * e) * d) by (nonlinear_arith);
        assert(q * d != 0) by (nonlinear_arith)
            requires
                q != 0,
                d != 0,
        ;
    }
}

/// Over the product of their denominators, two ratios have equal numerators
/// exactly when they are equal as fractions.
proof fn lemma_common_den_equal(rs: Seq<Ratio>, i: int, j: int)
    requires
        0 <= i < rs.len(),
        0 <= j < rs.len(),
        forall|k: int| 0 <= k < rs.len() ==> (#[trigger] rs[k]).den != 0,
    ensures
        over_common_den(rs)[i] == over_common_den(rs)[j] <==> rs[i].num * rs[j].den == rs[j].num
            * rs[i].den,
{
    lemma_cofactor(rs, i);
    lemma_cofactor(rs, j);
    let (a, b, c, d) = (rs[i].num as int, rs[i].den as int, rs[j].num as int, rs[j].den as int);
    let (ci, cj, p) = (cofactor(rs, i), cofactor(rs, j), den_product(rs));
    assert(a * ci == c * cj <==> a * d == c * b) by (nonlinear_arith)
        requires
            ci * b == p,
            cj * d == p,
            p != 0,
            b != 0,
            d != 0,
    {
        assert((a * ci) * (b * d) == (a * d) * p);
        assert((c * cj) * (b * d) == (c * b) * p);
        if a * ci == c * cj {
            assert((a * d) * p == (c * b) * p);
        }
        if a * d == c * b {
            assert((a * ci) * (b * d) == (c * cj) * (b * d));
        }
    }
}

/// Daily returns with nonzero denominators (as the summary gives them), written
/// over the product of their denominators: the population variance, scaled by a
/// positive factor, is never negative, and it is zero exactly when every return
/// is the same fraction. So the standard deviation is at least zero, and zero
/// if and only if all daily returns are identical.
pub proof fn lemma_daily_variance_zero_iff_identical(rs: Seq<Ratio>)
    requires
        forall|k: int| 0 <= k < rs.len() ==> (#[trigger] rs[k]).den != 0,
    ensures
        scaled_variance(over_common_den(rs)) >= 0,
        scaled_variance(over_common_den(rs)) == 0 <==> forall|i: int, j: int|
            0 <= i < rs.len() && 0 <= j < rs.len() ==> rs[i].num * rs[j].den == rs[j].num
                * rs[i].den,
{
    let xs = over_common_den(rs);
    lemma_variance_zero_iff_identical(xs);
    if scaled_variance(xs) == 0 {
        assert forall|i: int, j: int| 0 <= i < rs.len() && 0 <= j < rs.len() implies rs[i].num
            * rs[j].den == rs[j].num * rs[i].den by {
            assert(xs[i] == xs[j]);
            lemma_common_den_equal(rs, i, j);
        }
    }
    if forall|i: int, j: int|
        0 <= i < rs.len() && 0 <= j < rs.len() ==> rs[i].num * rs[j].den == rs[j].num
            * rs[i].den {
        assert forall|i: int, j: int| 0 <= i < xs.len() && 0 <= j < xs.len() implies xs[i]
            == xs[j] by {
            lemma_common_den_equal(rs, i, j);
        }
    }
}

} // verus!
