//! The domain model: money, time, contracts, orders, market data and specs.

pub mod contract;
pub mod contract_map;
pub mod decimal;
pub mod execution;
pub mod expiration;
pub mod market;
pub mod money;
pub mod positive;
pub mod result;
pub mod strategy_spec;
pub mod time;

pub use contract::{ContractKey, OptionStyle, Side, Underlying};
pub use contract_map::ContractMap;
pub use decimal::Decimal;
pub use execution::{
    ExecutionMode, Fill, OpenPosition, OrderCommand, OrderId, OrderIntent, PendingOrder,
    PositionAction, PositionId, TimeInForce, TradeId,
};
pub use expiration::{ExpirationDate, Instant};
pub use market::{ChainSnapshot, InstrumentSpec, QuoteView};
pub use money::{Cents, PriceCents, Quantity, Ticks};
pub use positive::Positive;
pub use result::{Drawdown, EquityPoint};
pub use strategy_spec::{IronCondorSpec, LegSetSpec, LegSpec, ShortStrangleSpec, StrategySpec};
pub use time::{SimTime, StepIndex};
