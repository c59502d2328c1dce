//! The metrics engine: elapsed time, turnover, daily returns and the
//! summary built from them, all in exact arithmetic.
use vstd::prelude::*;
use crate::arith::{
    amount_sub, at_scale, common_scale, diff_fits, is_i128, max_nat, pow10, rescale,
};
use crate::types::{Amount, Equity, MetricsError, Order, Ratio, SessionExtendedInfo, SessionInfo};

verus! {

/// One day in microseconds.
pub const DAY_MICROS: i64 = 86_400_000_000;

/// Whole days from `start` to `end` (microseconds), truncated toward zero.
pub open spec fn span_days(start: int, end: int) -> int {
    let d = end - start;
    if d >= 0 {
        d / (DAY_MICROS as int)
    } else {
        -((-d) / (DAY_MICROS as int))
    }
}

/// Whole days between two instants given in microseconds, truncated toward zero.
pub fn elapsed_days(start: i64, end: i64) -> (r: i64)
    ensures
        r == span_days(start as int, end as int),
{
    let d: i128 = end as i128 - start as i128;
    if d >= 0 {
        let q: u128 = (d as u128) / 86_400_000_000u128;
        assert(q <= d);
        q as i64
    } else {
        let q: u128 = ((-d) as u128) / 86_400_000_000u128;
        assert(q <= -d);
        -(q as i64)
    }
}

// ---------------------------------------------------------------- turnover

/// An order counts toward turnover when both its executed size and price are known.
pub open spec fn executed(o: Order) -> bool {
    o.executed_size is Some && o.executed_price is Some
}

/// Mantissa of `executed_size * executed_price` (zero for an order that did not execute).
pub open spec fn notional_mantissa(o: Order) -> int {
    if executed(o) {
        o.executed_size->0.mantissa * o.executed_price->0.mantissa
    } else {
        0
    }
}

/// Scale of `executed_size * executed_price` (zero for an order that did not execute).
pub open spec fn notional_scale(o: Order) -> nat {
    if executed(o) {
        (o.executed_size->0.scale + o.executed_price->0.scale) as nat
    } else {
        0
    }
}

/// The notional of an order written at scale `k`.
pub open spec fn notional_at(o: Order, k: nat) -> int {
    if executed(o) {
        notional_mantissa(o) * pow10((k - notional_scale(o)) as nat)
    } else {
        0
    }
}

/// The summed notional of the orders, written at scale `k`.
pub open spec fn turnover_units(orders: Seq<Order>, k: nat) -> int {
    orders.fold_left(0int, |acc: int, o: Order| acc + notional_at(o, k))
}

/// The largest scale among the orders' notionals.
pub open spec fn turnover_scale(orders: Seq<Order>) -> nat {
    orders.fold_left(0nat, |acc: nat, o: Order| max_nat(acc, notional_scale(o)))
}

/// The positive part of an order's notional at scale `k`.
pub open spec fn gain_at(o: Order, k: nat) -> int {
    if notional_at(o, k) > 0 {
        notional_at(o, k)
    } else {
        0
    }
}

/// The negative part of an order's notional at scale `k`.
pub open spec fn loss_at(o: Order, k: nat) -> int {
    if notional_at(o, k) < 0 {
        notional_at(o, k)
    } else {
        0
    }
}

/// Sum of the positive notionals at scale `k`.
pub open spec fn gain_units(orders: Seq<Order>, k: nat) -> int {
    orders.fold_left(0int, |acc: int, o: Order| acc + gain_at(o, k))
}

/// Sum of the negative notionals at scale `k`.
pub open spec fn loss_units(orders: Seq<Order>, k: nat) -> int {
    orders.fold_left(0int, |acc: int, o: Order| acc + loss_at(o, k))
}

/// The product and the rescaled product of an order fit in an `i128`.
pub open spec fn notional_fits(o: Order, k: nat) -> bool {
    is_i128(notional_mantissa(o)) && is_i128(notional_at(o, k))
}

/// Every notional fits at the common scale, and so do the sum of the positive
/// notionals and the sum of the negative ones. None of this depends on the
/// order in which the orders come.
pub open spec fn turnover_fits(orders: Seq<Order>) -> bool {
    let k = turnover_scale(orders);
    &&& k <= u32::MAX
    &&& forall|i: int| 0 <= i < orders.len() ==> notional_fits(#[trigger] orders[i], k)
    &&& is_i128(gain_units(orders, k))
    &&& is_i128(loss_units(orders, k))
}

/// The exact total notional of the executed orders.
pub open spec fn turnover_of(orders: Seq<Order>) -> Amount {
    Amount {
        mantissa: turnover_units(orders, turnover_scale(orders)) as i128,
        scale: turnover_scale(orders) as u32,
    }
}

/// The total splits into its positive and negative parts, and the sums of
/// the parts only grow in size along the sequence.
pub proof fn lemma_turnover_parts(orders: Seq<Order>, k: nat, m: int)
    requires
        0 <= m <= orders.len(),
    ensures
        turnover_units(orders, k) == gain_units(orders, k) + loss_units(orders, k),
        0 <= gain_units(orders.take(m), k) <= gain_units(orders, k),
        loss_units(orders, k) <= loss_units(orders.take(m), k) <= 0,
    decreases orders.len(),
{
    if orders.len() > 0 {
        let p = orders.drop_last();
        if m < orders.len() {
            assert(p.take(m) =~= orders.take(m));
            lemma_turnover_parts(p, k, m);
        } else {
            assert(orders.take(m) =~= orders);
            lemma_turnover_parts(p, k, 0);
        }
    } else {
        assert(orders.take(m) =~= orders);
    }
}

proof fn lemma_scale_bound(orders: Seq<Order>, i: int)
    requires
        0 <= i < orders.len(),
    ensures
        notional_scale(orders[i]) <= turnover_scale(orders),
    decreases orders.len(),
{
    if i < orders.len() - 1 {
        lemma_scale_bound(orders.drop_last(), i);
    }
}

/// Sum of `executed_size * executed_price` over the orders that executed, exactly,
/// at the largest scale among those products; `None` when a quantity overflows.
/// Positive and negative notionals are summed apart, so that overflow does not
/// depend on the order of the orders.
pub fn turnover_total(orders: &Vec<Order>) -> (r: Option<Amount>)
    ensures
        r == (if turnover_fits(orders@) {
            Some(turnover_of(orders@))
        } else {
            None::<Amount>
        }),
{
    let n = orders.len();
    let mut k: u64 = 0;
    let mut i: usize = 0;
    while i < n
        invariant
            n == orders@.len(),
            i <= n,
            k == turnover_scale(orders@.take(i as int)),
            k <= 2 * (u32::MAX as int),
        decreases n - i,
    {
        let o = &orders[i];
        assert(orders@.take(i + 1).drop_last() =~= orders@.take(i as int));
        match (&o.executed_size, &o.executed_price) {
            (Some(sz), Some(px)) => {
                let s: u64 = sz.scale as u64 + px.scale as u64;
                if s > k {
                    k = s;
                }
            },
            _ => {},
        }
        i = i + 1;
    }
    assert(orders@.take(n as int) =~= orders@);
    let ghost kk = k as nat;
    if k > u32::MAX as u64 {
        return None;
    }
    let mut gain: i128 = 0;
    let mut loss: i128 = 0;
    let mut i: usize = 0;
    while i < n
        invariant
            n == orders@.len(),
            i <= n,
            kk == k,
            kk == turnover_scale(orders@),
            kk <= u32::MAX,
            gain == gain_units(orders@.take(i as int), kk),
            loss == loss_units(orders@.take(i as int), kk),
            forall|j: int| 0 <= j < i ==> notional_fits(#[trigger] orders@[j], kk),
        decreases n - i,
    {
        let o = &orders[i];
        assert(orders@.take(i + 1).drop_last() =~= orders@.take(i as int));
        proof {
            lemma_scale_bound(orders@, i as int);
            lemma_turnover_parts(orders@, kk, i + 1);
        }
        let p: i128 = match (&o.executed_size, &o.executed_price) {
            (Some(sz), Some(px)) => {
                let s: u64 = sz.scale as u64 + px.scale as u64;
                match sz.mantissa.checked_mul(px.mantissa) {
                    Some(m) => match rescale(m, k - s) {
                        Some(v) => v,
                        None => {
                            return None;
                        },
                    },
                    None => {
                        return None;
                    },
                }
            },
            _ => {
                assert(notional_at(*o, kk) == 0);
                0
            },
        };
        assert(p == notional_at(orders@[i as int], kk));
        if p > 0 {
            match gain.checked_add(p) {
                Some(a) => {
                    gain = a;
                },
                None => {
                    return None;
                },
            }
        } else {
            match loss.checked_add(p) {
                Some(a) => {
                    loss = a;
                },
                None => {
                    return None;
                },
            }
        }
        i = i + 1;
    }
    assert(orders@.take(n as int) =~= orders@);
    proof {
        lemma_turnover_parts(orders@, kk, 0);
    }
    Some(Amount { mantissa: gain + loss, scale: k as u32 })
}

// ----------------------------------------------------------- daily returns

/// State of the day-bucket walk after the first `k` snapshots: the start of the
/// current day bucket, and the index of the snapshot whose equity opened it.
pub open spec fn walk(eqs: Seq<Equity>, k: nat) -> (int, int)
    decreases k,
{
    if k == 0 {
        (eqs[0].time as int, 0)
    } else {
        let prev = walk(eqs, (k - 1) as nat);
        if eqs[k - 1].time >= prev.0 + DAY_MICROS {
            (prev.0 + DAY_MICROS, k - 1)
        } else {
            prev
        }
    }
}

/// Snapshot `i` is at or past the end of the current day bucket, and closes it.
pub open spec fn closes_day(eqs: Seq<Equity>, i: nat) -> bool {
    eqs[i as int].time >= walk(eqs, i).0 + DAY_MICROS
}

/// The equity that opened the bucket that snapshot `i` sees.
pub open spec fn day_open(eqs: Seq<Equity>, i: nat) -> Amount {
    eqs[walk(eqs, i).1].total
}

/// `(current - open) / open`, both written at their common scale. The
/// denominator is zero when a bucket opened at zero equity.
pub open spec fn return_of(open: Amount, current: Amount) -> Ratio {
    let s = common_scale(open, current);
    Ratio {
        num: (at_scale(current, s) - at_scale(open, s)) as i128,
        den: at_scale(open, s) as i128,
    }
}

/// The nonzero returns of the day buckets closed by the first `k` snapshots, in order.
pub open spec fn daily_returns_of(eqs: Seq<Equity>, k: nat) -> Seq<Ratio>
    decreases k,
{
    if k == 0 {
        seq![]
    } else {
        let i = (k - 1) as nat;
        let prev = daily_returns_of(eqs, i);
        if closes_day(eqs, i) && return_of(day_open(eqs, i), eqs[i as int].total).num != 0 {
            prev.push(return_of(day_open(eqs, i), eqs[i as int].total))
        } else {
            prev
        }
    }
}

/// Every return computed over the first `k` snapshots fits in 128 bits.
pub open spec fn daily_fits(eqs: Seq<Equity>, k: nat) -> bool {
    forall|i: nat|
        i < k && #[trigger] closes_day(eqs, i) ==> diff_fits(eqs[i as int].total, day_open(eqs, i))
}

/// Every day bucket closed within the first `k` snapshots opened at nonzero equity.
pub open spec fn daily_opens_nonzero(eqs: Seq<Equity>, k: nat) -> bool {
    forall|i: nat| i < k && #[trigger] closes_day(eqs, i) ==> day_open(eqs, i).mantissa != 0
}

/// The nonzero relative equity changes over consecutive one-day buckets measured
/// from the first snapshot. A bucket that opened at zero equity has no relative
/// change (`ZeroBaselineEquity`); otherwise a quantity beyond 128 bits is `Overflow`.
pub fn daily_rate_of_returns(equities: &Vec<Equity>) -> (r: Result<Vec<Ratio>, MetricsError>)
    requires
        equities@.len() > 0,
    ensures
        r == Err::<Vec<Ratio>, MetricsError>(MetricsError::ZeroBaselineEquity) <==> !daily_opens_nonzero(
            equities@,
            equities@.len(),
        ),
        r == Err::<Vec<Ratio>, MetricsError>(MetricsError::Overflow) <==> daily_opens_nonzero(
            equities@,
            equities@.len(),
        ) && !daily_fits(equities@, equities@.len()),
        r is Ok <==> daily_opens_nonzero(equities@, equities@.len()) && daily_fits(
            equities@,
            equities@.len(),
        ),
        r is Ok ==> r->Ok_0@ == daily_returns_of(equities@, equities@.len()),
        r is Ok ==> forall|j: int| 0 <= j < r->Ok_0@.len() ==> (#[trigger] r->Ok_0@[j]).den != 0,
{
    let n = equities.len();
    let ghost eqs = equities@;
    let mut day_start: i128 = equities[0].time as i128;
    let mut open: Amount = equities[0].total;
    let ghost mut open_idx: int = 0;
    let mut out: Vec<Ratio> = Vec::new();
    let mut overflowed = false;
    let mut i: usize = 0;
    while i < n
        invariant
            n == eqs.len(),
            eqs == equities@,
            i <= n,
            (day_start as int, open_idx) == walk(eqs, i as nat),
            0 <= open_idx < n,
            open == eqs[open_idx].total,
            day_start <= i64::MAX,
            !overflowed ==> out@ == daily_returns_of(eqs, i as nat),
            overflowed <==> !daily_fits(eqs, i as nat),
            daily_opens_nonzero(eqs, i as nat),
            forall|j: int| 0 <= j < out@.len() ==> (#[trigger] out@[j]).den != 0,
        decreases n - i,
    {
        let e = equities[i];
        let ghost was_overflowed = overflowed;
        if e.time as i128 >= day_start + 86_400_000_000i128 {
            assert(closes_day(eqs, i as nat));
            if open.mantissa == 0 {
                return Err(MetricsError::ZeroBaselineEquity);
            }
            let diff = amount_sub(e.total, open);
            let s: u32 = if e.total.scale >= open.scale { e.total.scale } else { open.scale };
            let den = rescale(open.mantissa, (s - open.scale) as u64);
            match (diff, den) {
                (Some(d), Some(b)) => {
                    let ret = Ratio { num: d.mantissa, den: b };
                    assert(ret == return_of(open, e.total));
                    proof {
                        crate::arith::lemma_pow10_pos((s - open.scale) as nat);
                        let q = pow10((s - open.scale) as nat);
                        let m = open.mantissa as int;
                        assert(m * q != 0) by (nonlinear_arith)
                            requires
                                m != 0,
                                q >= 1,
                        ;
                    }
                    if d.mantissa != 0 && !overflowed {
                        out.push(ret);
                    }
                },
                _ => {
                    overflowed = true;
                },
            }
            day_start = day_start + 86_400_000_000i128;
            open = e.total;
            proof {
                open_idx = i as int;
            }
        }
        proof {
            assert(daily_opens_nonzero(eqs, (i + 1) as nat)) by {
                assert forall|j: nat| j < i + 1 && #[trigger] closes_day(eqs, j) implies day_open(
                    eqs,
                    j,
                ).mantissa != 0 by {
                    if j < i {
                        assert(j < i as nat && closes_day(eqs, j));
                    }
                }
            }
            if was_overflowed {
                assert(!daily_fits(eqs, (i + 1) as nat)) by {
                    let w = choose|j: nat|
                        !(j < i && #[trigger] closes_day(eqs, j) ==> diff_fits(
                            eqs[j as int].total,
                            day_open(eqs, j),
                        ));
                    assert(w < i + 1 && closes_day(eqs, w));
                }
            } else if !overflowed {
                assert(daily_fits(eqs, (i + 1) as nat)) by {
                    assert forall|j: nat| j < i + 1 && #[trigger] closes_day(eqs, j) implies diff_fits(
                        eqs[j as int].total,
                        day_open(eqs, j),
                    ) by {
                        if j < i {
                            assert(j < i as nat && closes_day(eqs, j));
                        }
                    }
                }
            } else {
                assert(!daily_fits(eqs, (i + 1) as nat)) by {
                    assert(closes_day(eqs, i as nat));
                }
            }
        }
        i = i + 1;
    }
    if overflowed {
        Err(MetricsError::Overflow)
    } else {
        Ok(out)
    }
}

// ---------------------------------------------------------------- summary

/// Whole days between the first and the last snapshot.
pub open spec fn total_span_days(eqs: Seq<Equity>) -> int {
    span_days(eqs[0].time as int, eqs[eqs.len() - 1].time as int)
}

/// At least two snapshots, a nonzero baseline and at least one whole day between
/// the first and the last snapshot: the returns can be annualized.
pub open spec fn spans_time(eqs: Seq<Equity>) -> bool {
    &&& eqs.len() >= 2
    &&& eqs[0].total.mantissa != 0
    &&& total_span_days(eqs) != 0
}

/// The turnover can be summed and is not zero.
pub open spec fn has_turnover(orders: Seq<Order>) -> bool {
    turnover_fits(orders) && turnover_of(orders).mantissa != 0
}

/// Every exact quantity derived from the snapshots fits in 128 bits.
pub open spec fn equity_fits(eqs: Seq<Equity>) -> bool {
    diff_fits(eqs[eqs.len() - 1].total, eqs[0].total) && daily_fits(eqs, eqs.len())
}

/// Everything before the daily-sample count is in order.
pub open spec fn summary_ready(eqs: Seq<Equity>, orders: Seq<Order>) -> bool {
    &&& spans_time(eqs)
    &&& has_turnover(orders)
    &&& daily_opens_nonzero(eqs, eqs.len())
    &&& equity_fits(eqs)
}

/// `end - start` at their common scale.
pub open spec fn difference(end: Amount, start: Amount) -> Amount {
    let s = common_scale(end, start);
    Amount { mantissa: (at_scale(end, s) - at_scale(start, s)) as i128, scale: s as u32 }
}

/// Derives a session's performance summary from its equity snapshots (ordered by
/// time) and its orders. The first snapshot is the baseline, the last the end.
///
/// Outcomes, checked in this order: no snapshot is `InsufficientData`; a zero
/// baseline is `ZeroBaselineEquity`; a single snapshot is `InsufficientData`; less
/// than a whole day between first and last is `DegenerateTimeSpan`; a turnover
/// beyond 128 bits is `Overflow`; zero turnover is `NoTurnover`; a day bucket
/// opened at zero equity is `ZeroBaselineEquity`; another exact quantity beyond
/// 128 bits is `Overflow`; no nonzero daily return is `InsufficientDailySamples`;
/// otherwise the summary.
pub fn compute_session_extended_info(
    info: SessionInfo,
    equities: &Vec<Equity>,
    orders: &Vec<Order>,
) -> (r: Result<SessionExtendedInfo, MetricsError>)
    ensures
        equities@.len() == 0 ==> r == Err::<SessionExtendedInfo, MetricsError>(
            MetricsError::InsufficientData,
        ),
        equities@.len() > 0 && equities@[0].total.mantissa == 0 ==> r == Err::<
            SessionExtendedInfo,
            MetricsError,
        >(MetricsError::ZeroBaselineEquity),
        equities@.len() == 1 && equities@[0].total.mantissa != 0 ==> r == Err::<
            SessionExtendedInfo,
            MetricsError,
        >(MetricsError::InsufficientData),
        equities@.len() >= 2 && equities@[0].total.mantissa != 0 && total_span_days(equities@)
            == 0 ==> r == Err::<SessionExtendedInfo, MetricsError>(
            MetricsError::DegenerateTimeSpan,
        ),
        spans_time(equities@) && !turnover_fits(orders@) ==> r == Err::<
            SessionExtendedInfo,
            MetricsError,
        >(MetricsError::Overflow),
        spans_time(equities@) && turnover_fits(orders@) && turnover_of(orders@).mantissa == 0
            ==> r == Err::<SessionExtendedInfo, MetricsError>(MetricsError::NoTurnover),
        spans_time(equities@) && has_turnover(orders@) && !daily_opens_nonzero(
            equities@,
            equities@.len(),
        ) ==> r == Err::<SessionExtendedInfo, MetricsError>(MetricsError::ZeroBaselineEquity),
        spans_time(equities@) && has_turnover(orders@) && daily_opens_nonzero(
            equities@,
            equities@.len(),
        ) && !equity_fits(equities@) ==> r == Err::<SessionExtendedInfo, MetricsError>(
            MetricsError::Overflow,
        ),
        summary_ready(equities@, orders@) && daily_returns_of(equities@, equities@.len()).len()
            == 0 ==> r == Err::<SessionExtendedInfo, MetricsError>(
            MetricsError::InsufficientDailySamples,
        ),
        summary_ready(equities@, orders@) && daily_returns_of(equities@, equities@.len()).len()
            > 0 ==> r is Ok,
        r is Ok ==> {
            let s = r->Ok_0;
            let eqs = equities@;
            &&& summary_ready(eqs, orders@)
            &&& s.info == info
            &&& s.elapsed_days == total_span_days(eqs)
            &&& s.start_equity == eqs[0].total
            &&& s.absolute_return == difference(eqs[eqs.len() - 1].total, eqs[0].total)
            &&& s.turnover == turnover_of(orders@)
            &&& s.turnover.mantissa != 0
            &&& s.daily_rate_of_returns@ == daily_returns_of(eqs, eqs.len())
            &&& s.daily_rate_of_returns@.len() > 0
            &&& forall|j: int|
                0 <= j < s.daily_rate_of_returns@.len()
                    ==> (#[trigger] s.daily_rate_of_returns@[j]).den != 0
        },
{
    let n = equities.len();
    if n == 0 {
        return Err(MetricsError::InsufficientData);
    }
    let start = equities[0];
    if start.total.mantissa == 0 {
        return Err(MetricsError::ZeroBaselineEquity);
    }
    if n == 1 {
        return Err(MetricsError::InsufficientData);
    }
    let end = equities[n - 1];
    let days = elapsed_days(start.time, end.time);
    if days == 0 {
        return Err(MetricsError::DegenerateTimeSpan);
    }
    let turnover = match turnover_total(orders) {
        Some(t) => t,
        None => {
            return Err(MetricsError::Overflow);
        },
    };
    if turnover.mantissa == 0 {
        return Err(MetricsError::NoTurnover);
    }
    let daily = match daily_rate_of_returns(equities) {
        Ok(d) => d,
        Err(e) => {
            return Err(e);
        },
    };
    let absolute_return = match amount_sub(end.total, start.total) {
        Some(a) => a,
        None => {
            return Err(MetricsError::Overflow);
        },
    };
    if daily.len() == 0 {
        return Err(MetricsError::InsufficientDailySamples);
    }
    Ok(
        SessionExtendedInfo {
            info,
            elapsed_days: days,
            start_equity: start.total,
            absolute_return,
            turnover,
            daily_rate_of_returns: daily,
        },
    )
}

} // verus!
