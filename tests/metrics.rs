use muhtasib::arith::{amount_sub, rescale};
use muhtasib::{
    compute_session_extended_info, daily_rate_of_returns, elapsed_days, turnover_total, Amount,
    Equity, MetricsError, Order, Ratio, SessionInfo, Side,
};

const DAY: i64 = 86_400_000_000;
const T0: i64 = 1_600_000_000_000_000;

fn amt(mantissa: i128, scale: u32) -> Amount {
    Amount { mantissa, scale }
}

fn eq(time: i64, total: i128) -> Equity {
    Equity { total: amt(total, 0), time }
}

fn info() -> SessionInfo {
    SessionInfo {
        name: "grid".to_string(),
        exchange: "ftx".to_string(),
        live_trading: false,
        session_id: 7,
        create_time: T0,
    }
}

fn order(size: Option<Amount>, price: Option<Amount>) -> Order {
    Order {
        order_id: 1,
        market: "BTC-PERP".to_string(),
        side: Side::Buy,
        ordered_size: amt(1, 0),
        ordered_price: amt(1, 0),
        ordered_time: T0,
        executed_size: size,
        executed_price: price,
        executed_time: if size.is_some() && price.is_some() { Some(T0) } else { None },
    }
}

fn filled(size: Amount, price: Amount) -> Order {
    order(Some(size), Some(price))
}

#[test]
fn flat_day_is_dropped_from_daily_returns() {
    let eqs = vec![eq(T0, 1000), eq(T0 + DAY, 1000), eq(T0 + 2 * DAY, 1100)];
    let daily = daily_rate_of_returns(&eqs).unwrap();
    assert_eq!(daily, vec![Ratio { num: 100, den: 1000 }]);
    // with no orders there is no turnover to report
    let r = compute_session_extended_info(info(), &eqs, &vec![]);
    assert_eq!(r.unwrap_err(), MetricsError::NoTurnover);
}

#[test]
fn flat_day_scenario_with_a_fill() {
    let eqs = vec![eq(T0, 1000), eq(T0 + DAY, 1000), eq(T0 + 2 * DAY, 1100)];
    let orders = vec![filled(amt(2, 0), amt(50, 0))];
    let s = compute_session_extended_info(info(), &eqs, &orders).unwrap();
    assert_eq!(s.daily_rate_of_returns, vec![Ratio { num: 100, den: 1000 }]);
    assert_eq!(s.elapsed_days, 2);
    assert_eq!(s.start_equity, amt(1000, 0));
    assert_eq!(s.absolute_return, amt(100, 0));
    assert_eq!(s.turnover, amt(100, 0));
    assert_eq!(s.info.name, "grid");
}

#[test]
fn single_snapshot_is_insufficient() {
    let r = compute_session_extended_info(info(), &vec![eq(T0, 1000)], &vec![]);
    assert_eq!(r.unwrap_err(), MetricsError::InsufficientData);
}

#[test]
fn no_snapshots_is_insufficient() {
    let r = compute_session_extended_info(info(), &vec![], &vec![]);
    assert_eq!(r.unwrap_err(), MetricsError::InsufficientData);
}

#[test]
fn zero_baseline_wins_over_everything() {
    let orders = vec![filled(amt(1, 0), amt(1, 0))];
    let r = compute_session_extended_info(info(), &vec![eq(T0, 0), eq(T0 + 5 * DAY, 10)], &orders);
    assert_eq!(r.unwrap_err(), MetricsError::ZeroBaselineEquity);
    let r = compute_session_extended_info(info(), &vec![eq(T0, 0)], &vec![]);
    assert_eq!(r.unwrap_err(), MetricsError::ZeroBaselineEquity);
    let r = compute_session_extended_info(info(), &vec![eq(T0, 0), eq(T0, 10)], &vec![]);
    assert_eq!(r.unwrap_err(), MetricsError::ZeroBaselineEquity);
}

#[test]
fn identical_timestamps_are_degenerate() {
    let orders = vec![filled(amt(1, 0), amt(1, 0))];
    let r = compute_session_extended_info(info(), &vec![eq(T0, 1000), eq(T0, 2000)], &orders);
    assert_eq!(r.unwrap_err(), MetricsError::DegenerateTimeSpan);
}

#[test]
fn same_day_span_is_degenerate() {
    let orders = vec![filled(amt(1, 0), amt(1, 0))];
    let eqs = vec![eq(T0, 1000), eq(T0 + DAY - 1, 2000)];
    let r = compute_session_extended_info(info(), &eqs, &orders);
    assert_eq!(r.unwrap_err(), MetricsError::DegenerateTimeSpan);
}

#[test]
fn unexecuted_orders_give_no_turnover() {
    let eqs = vec![eq(T0, 1000), eq(T0 + 3 * DAY, 1200)];
    let orders = vec![order(None, None), order(None, None), order(None, None)];
    let r = compute_session_extended_info(info(), &eqs, &orders);
    assert_eq!(r.unwrap_err(), MetricsError::NoTurnover);
}

#[test]
fn flat_equity_has_no_daily_samples() {
    let eqs = vec![eq(T0, 1000), eq(T0 + DAY, 1000), eq(T0 + 2 * DAY, 1000)];
    let orders = vec![filled(amt(1, 0), amt(3, 0))];
    let r = compute_session_extended_info(info(), &eqs, &orders);
    assert_eq!(r.unwrap_err(), MetricsError::InsufficientDailySamples);
}

#[test]
fn overflowing_quantities_are_reported() {
    let eqs = vec![eq(T0, 1000), eq(T0 + 2 * DAY, 1100)];
    let orders = vec![filled(amt(i128::MAX, 0), amt(2, 0))];
    let r = compute_session_extended_info(info(), &eqs, &orders);
    assert_eq!(r.unwrap_err(), MetricsError::Overflow);
}

#[test]
fn half_executed_order_contributes_nothing() {
    let both = vec![filled(amt(3, 0), amt(7, 0))];
    let with_half = vec![
        filled(amt(3, 0), amt(7, 0)),
        order(None, Some(amt(100, 0))),
        order(Some(amt(100, 0)), None),
    ];
    assert_eq!(turnover_total(&both), Some(amt(21, 0)));
    assert_eq!(turnover_total(&with_half), Some(amt(21, 0)));
}

#[test]
fn turnover_mixes_scales_exactly() {
    // 1.5 * 2.25 + 0.1 * 10 = 3.375 + 1.0 = 4.375
    let orders = vec![filled(amt(15, 1), amt(225, 2)), filled(amt(1, 1), amt(10, 0))];
    assert_eq!(turnover_total(&orders), Some(amt(4375, 3)));
}

#[test]
fn turnover_ignores_order_sequence() {
    let a = vec![
        filled(amt(15, 1), amt(225, 2)),
        filled(amt(1, 1), amt(10, 0)),
        filled(amt(4, 0), amt(5, 0)),
    ];
    let b = vec![
        filled(amt(4, 0), amt(5, 0)),
        filled(amt(15, 1), amt(225, 2)),
        filled(amt(1, 1), amt(10, 0)),
    ];
    assert_eq!(turnover_total(&a), turnover_total(&b));
    assert_eq!(turnover_total(&a), Some(amt(24375, 3)));
}

#[test]
fn empty_orders_sum_to_zero() {
    assert_eq!(turnover_total(&vec![]), Some(amt(0, 0)));
}

#[test]
fn sparse_sampling_records_one_return_per_crossing() {
    // a week-long gap crosses one bucket boundary only
    let eqs = vec![eq(T0, 1000), eq(T0 + 7 * DAY, 1200), eq(T0 + 7 * DAY + 10, 1300)];
    let daily = daily_rate_of_returns(&eqs).unwrap();
    assert_eq!(daily, vec![Ratio { num: 200, den: 1000 }, Ratio { num: 100, den: 1200 }]);
    assert!(daily.len() as i64 <= elapsed_days(T0, T0 + 7 * DAY + 10));
}

#[test]
fn daily_returns_at_common_scale() {
    let eqs = vec![
        Equity { total: amt(10000, 1), time: T0 },
        Equity { total: amt(105000, 2), time: T0 + DAY },
    ];
    assert_eq!(daily_rate_of_returns(&eqs), Ok(vec![Ratio { num: 5000, den: 100000 }]));
}

#[test]
fn daily_returns_never_exceed_span() {
    let eqs: Vec<Equity> = (0..10).map(|k| eq(T0 + k * (DAY / 2), 1000 + k as i128)).collect();
    let daily = daily_rate_of_returns(&eqs).unwrap();
    let days = elapsed_days(T0, T0 + 9 * (DAY / 2));
    assert_eq!(days, 4);
    assert!(daily.len() as i64 <= days);
    assert!(daily.iter().all(|r| r.num != 0));
}

#[test]
fn elapsed_days_truncates_toward_zero() {
    assert_eq!(elapsed_days(T0, T0 + 2 * DAY + DAY / 2), 2);
    assert_eq!(elapsed_days(T0, T0 + DAY - 1), 0);
    assert_eq!(elapsed_days(T0 + 2 * DAY + DAY / 2, T0), -2);
    assert_eq!(elapsed_days(i64::MIN, i64::MAX), 213_503_982);
}

#[test]
fn annual_return_inputs_match_formula() {
    // 365 days, 1000 -> 1250: relative return 0.25 over one year
    let eqs = vec![eq(T0, 1000), eq(T0 + 100 * DAY, 900), eq(T0 + 365 * DAY, 1250)];
    let orders = vec![filled(amt(10, 0), amt(100, 0))];
    let s = compute_session_extended_info(info(), &eqs, &orders).unwrap();
    assert_eq!(s.elapsed_days, 365);
    assert_eq!(s.absolute_return, amt(250, 0));
    assert_eq!(s.start_equity, amt(1000, 0));
    assert_eq!(s.turnover, amt(1000, 0));
    assert_eq!(
        s.daily_rate_of_returns,
        vec![Ratio { num: -100, den: 1000 }, Ratio { num: 350, den: 900 }]
    );
}

#[test]
fn rescale_multiplies_by_powers_of_ten() {
    assert_eq!(rescale(7, 0), Some(7));
    assert_eq!(rescale(-7, 3), Some(-7000));
    assert_eq!(rescale(0, u64::MAX), Some(0));
    assert_eq!(rescale(1, 39), None);
    assert_eq!(rescale(1, 38), Some(100_000_000_000_000_000_000_000_000_000_000_000_000));
}

#[test]
fn amount_sub_aligns_scales() {
    assert_eq!(amount_sub(amt(125, 2), amt(1, 0)), Some(amt(25, 2)));
    assert_eq!(amount_sub(amt(1, 0), amt(125, 2)), Some(amt(-25, 2)));
    assert_eq!(amount_sub(amt(i128::MIN, 0), amt(1, 0)), None);
}

#[test]
fn turnover_overflow_ignores_order_sequence() {
    let one = amt(1, 0);
    let a = vec![filled(amt(i128::MAX, 0), one), filled(one, one), filled(amt(-1, 0), one)];
    let b = vec![filled(amt(i128::MAX, 0), one), filled(amt(-1, 0), one), filled(one, one)];
    assert_eq!(turnover_total(&a), None);
    assert_eq!(turnover_total(&b), None);
    let eqs = vec![eq(0, 1000), eq(DAY, 1000)];
    assert_eq!(
        compute_session_extended_info(info(), &eqs, &a).unwrap_err(),
        compute_session_extended_info(info(), &eqs, &b).unwrap_err()
    );
    assert_eq!(
        compute_session_extended_info(info(), &eqs, &a).unwrap_err(),
        MetricsError::Overflow
    );
}

#[test]
fn turnover_nets_gains_and_losses() {
    let one = amt(1, 0);
    let a = vec![filled(amt(5, 0), one), filled(amt(-3, 0), one), filled(amt(i128::MAX - 5, 0), one)];
    assert_eq!(turnover_total(&a), Some(amt(i128::MAX - 3, 0)));
}

#[test]
fn bucket_opened_at_zero_equity_is_reported() {
    let eqs = vec![eq(T0, 1000), eq(T0 + DAY, 0), eq(T0 + 2 * DAY, 500)];
    assert_eq!(daily_rate_of_returns(&eqs), Err(MetricsError::ZeroBaselineEquity));
    let orders = vec![filled(amt(1, 0), amt(1, 0))];
    let r = compute_session_extended_info(info(), &eqs, &orders);
    assert_eq!(r.unwrap_err(), MetricsError::ZeroBaselineEquity);
    // a zero snapshot that closes no bucket is harmless
    let eqs = vec![eq(T0, 1000), eq(T0 + DAY, 0)];
    assert_eq!(daily_rate_of_returns(&eqs), Ok(vec![Ratio { num: -1000, den: 1000 }]));
}

#[test]
fn daily_overflow_is_reported() {
    let eqs = vec![eq(T0, -1), eq(T0 + DAY, i128::MAX)];
    assert_eq!(daily_rate_of_returns(&eqs), Err(MetricsError::Overflow));
}

#[test]
fn no_turnover_comes_before_equity_overflow() {
    let eqs = vec![eq(T0, -1), eq(T0 + DAY, i128::MAX)];
    let orders = vec![order(None, None), order(None, Some(amt(3, 0)))];
    let r = compute_session_extended_info(info(), &eqs, &orders);
    assert_eq!(r.unwrap_err(), MetricsError::NoTurnover);
    let filled_orders = vec![filled(amt(1, 0), amt(1, 0))];
    let r = compute_session_extended_info(info(), &eqs, &filled_orders);
    assert_eq!(r.unwrap_err(), MetricsError::Overflow);
}
