//! Performance reporting for trading sessions: the data model of sessions,
//! equity snapshots and orders, and an exact metrics engine that derives
//! returns, turnover and daily returns from them.

pub mod types;
pub mod arith;
pub mod metrics;
pub mod laws;

pub use metrics::{compute_session_extended_info, daily_rate_of_returns, elapsed_days, turnover_total};
pub use types::{Amount, Equity, GetInfo, MetricsError, Order, Ratio, SessionExtendedInfo, SessionInfo, Side};
