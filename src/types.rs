//! The records a session is reported from.
use vstd::prelude::*;

verus! {

/// Service information; it carries nothing yet.
#[derive(Clone, Copy, Debug, PartialEq, Eq, Structural)]
pub struct GetInfo {}

/// The side of an order.
#[derive(Clone, Copy, Debug, PartialEq, Eq, Structural)]
pub enum Side {
    Buy,
    Sell,
}

/// An exact decimal number: `mantissa * 10^(-scale)`.
#[derive(Clone, Copy, Debug, PartialEq, Eq, Structural)]
pub struct Amount {
    pub mantissa: i128,
    pub scale: u32,
}

/// Metadata of one trading session. Times are microseconds since the Unix epoch (UTC).
#[derive(Clone, Debug)]
pub struct SessionInfo {
    pub name: String,
    pub exchange: String,
    pub live_trading: bool,
    pub session_id: u128,
    pub create_time: i64,
}

/// Total account value at one instant (microseconds since the Unix epoch, UTC).
#[derive(Clone, Copy, Debug, PartialEq, Eq, Structural)]
pub struct Equity {
    pub total: Amount,
    pub time: i64,
}

/// One order, with its execution if it was filled.
#[derive(Clone, Debug)]
pub struct Order {
    pub order_id: u128,
    pub market: String,
    pub side: Side,
    pub ordered_size: Amount,
    pub ordered_price: Amount,
    pub ordered_time: i64,
    pub executed_size: Option<Amount>,
    pub executed_price: Option<Amount>,
    pub executed_time: Option<i64>,
}

/// An exact quotient `num / den`.
#[derive(Clone, Copy, Debug, PartialEq, Eq, Structural)]
pub struct Ratio {
    pub num: i128,
    pub den: i128,
}

/// Why no summary could be derived.
#[derive(Clone, Copy, Debug, PartialEq, Eq, Structural)]
pub enum MetricsError {
    /// Fewer than two equity snapshots.
    InsufficientData,
    /// The first and last snapshots are less than a whole day apart.
    DegenerateTimeSpan,
    /// No executed order, or executed notional summing to zero.
    NoTurnover,
    /// The first snapshot's equity is zero.
    ZeroBaselineEquity,
    /// No day produced a nonzero return.
    InsufficientDailySamples,
    /// An exact intermediate quantity does not fit in 128 bits.
    Overflow,
}

/// The exact quantities a session's performance summary is made of.
/// With `years = elapsed_days / 365`: the annual rate of return is
/// `absolute_return / start_equity / years`, the annual turnover
/// `turnover / years`, and the operating margin `absolute_return / turnover`.
#[derive(Clone, Debug)]
pub struct SessionExtendedInfo {
    pub info: SessionInfo,
    pub elapsed_days: i64,
    pub start_equity: Amount,
    pub absolute_return: Amount,
    pub turnover: Amount,
    pub daily_rate_of_returns: Vec<Ratio>,
}

} // verus!
