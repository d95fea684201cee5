//! The configuration of a run.

use crate::data::DataSourceSpec;
use crate::domain::ExecutionMode;
use vstd::prelude::*;

verus! {

/// What trading costs.
#[derive(Debug, Clone, Copy, PartialEq, Eq, Structural)]
pub struct FeeSchedule {
    /// Cents per contract.
    pub per_contract_cents: u64,
    /// Cents per order.
    pub per_order_cents: u64,
}

/// The configuration of a run.
#[derive(Debug, PartialEq, Eq)]
pub struct BacktestConfig {
    /// Where the tape comes from.
    pub data_source: DataSourceSpec,
    /// How fills are simulated.
    pub mode: ExecutionMode,
    /// The seed of the run's random numbers.
    pub seed: u64,
    /// The initial capital, in cents.
    pub initial_capital: u64,
    /// What trading costs.
    pub fees: FeeSchedule,
    /// How far a marketable order may walk, in ticks.
    pub marketable_cap_ticks: u64,
    /// Where the results go.
    pub output_dir: String,
    /// Whether results may replace older ones.
    pub overwrite: bool,
}

impl BacktestConfig {
    /// Whether two configurations say the same.
    pub open spec fn same_as(self, other: Self) -> bool {
        &&& self.data_source.same_as(other.data_source)
        &&& self.mode == other.mode
        &&& self.seed == other.seed
        &&& self.initial_capital == other.initial_capital
        &&& self.fees == other.fees
        &&& self.marketable_cap_ticks == other.marketable_cap_ticks
        &&& self.output_dir == other.output_dir
        &&& self.overwrite == other.overwrite
    }
}

impl Clone for BacktestConfig {
    fn clone(&self) -> (r: Self)
        ensures
            r.same_as(*self),
    {
        BacktestConfig {
            data_source: self.data_source.clone(),
            mode: self.mode,
            seed: self.seed,
            initial_capital: self.initial_capital,
            fees: self.fees,
            marketable_cap_ticks: self.marketable_cap_ticks,
            output_dir: self.output_dir.clone(),
            overwrite: self.overwrite,
        }
    }
}

} // verus!
