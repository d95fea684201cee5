//! The rows of a run's result.

use vstd::prelude::*;

verus! {

/// A drawdown as an exact ratio: how far equity stands below its peak, over
/// the peak. It is never clamped: equity below zero gives a ratio below minus
/// one.
#[derive(Debug, Clone, Copy, PartialEq, Eq, Structural)]
pub struct Drawdown {
    /// Equity minus its peak, in cents.
    pub below_peak: i128,
    /// The peak, in cents.
    pub peak: i64,
}

/// One point of the equity curve: the ledger at one step.
#[derive(Debug, Clone, Copy, PartialEq, Eq, Structural)]
pub struct EquityPoint {
    /// The step.
    pub step: u32,
    /// The step's timestamp (nanoseconds since the Unix epoch).
    pub ts_ns: i64,
    /// Cash, in cents.
    pub cash_cents: i64,
    /// The marked value of the open legs, in cents.
    pub position_value_cents: i64,
    /// Cash plus position value, in cents.
    pub equity_cents: i64,
    /// The drawdown against the running peak.
    pub drawdown: Drawdown,
}

impl EquityPoint {
    /// A point made of its figures.
    pub fn new(
        step: u32,
        ts_ns: i64,
        cash_cents: i64,
        position_value_cents: i64,
        equity_cents: i64,
        drawdown: Drawdown,
    ) -> (p: Self)
        ensures
            p == (EquityPoint {
                step,
                ts_ns,
                cash_cents,
                position_value_cents,
                equity_cents,
                drawdown,
            }),
    {
        EquityPoint { step, ts_ns, cash_cents, position_value_cents, equity_cents, drawdown }
    }
}

} // verus!
