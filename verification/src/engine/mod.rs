//! The replay engine.

pub mod adapter;
pub mod alike_laws;
pub mod backtest;
pub mod book_laws;
pub mod books;
pub mod bundle_collector;
pub mod clock;
pub mod closing;
pub mod correlate;
pub mod entry;
pub mod exit;
pub mod exit_policy;
pub mod fills;
pub mod ledger;
pub mod leg_laws;
pub mod leg_set;
pub mod named;
pub mod position_laws;
pub mod replay_laws;
pub mod run_laws;
pub mod scenario;
pub mod seams;
pub mod step_laws;
pub mod strategy;
pub mod strategy_laws;
pub mod substrate;
pub mod tradelog;
pub mod tree_laws;
pub mod walk;

pub use adapter::OptStratAdapter;
pub use backtest::{BacktestEngine, BacktestResult, BacktestRun};
pub use bundle_collector::{FillRecord, PositionSnapshot};
pub use clock::{Event, SimClock};
pub use exit::ExitReason;
pub use exit_policy::ExitPolicy;
pub use ledger::{Ledger, PositionMark, UnitGreeks};
pub use leg_set::LegSetStrategy;
pub use named::{IronCondor, PositionableStrategy, ShortStrangle};
pub use scenario::{expand, ConfigOverride, ScenarioParams, ScenarioType};
pub use strategy::{ChainContext, Strategy};
pub use substrate::{AttributionSubstrate, LegAttributionSample, StepAttributionScalars};
pub use tradelog::ClosedTrade;
pub use walk::WalkPreset;
