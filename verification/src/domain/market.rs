//! Market data: instrument facts, quotes and chain snapshots.

use crate::domain::contract::{ContractKey, Underlying};
use crate::domain::contract_map::ContractMap;
use crate::domain::decimal::Decimal;
use crate::domain::money::{PriceCents, Quantity};
use crate::domain::time::{SimTime, StepIndex};
use crate::error::{BacktestError, ErrorKind};
use vstd::prelude::*;
use vstd::string::*;

verus! {

/// The facts of an instrument that money arithmetic needs.
#[derive(Debug, Clone, Copy, PartialEq, Eq, Hash, Structural)]
pub struct InstrumentSpec {
    /// The venue tick size.
    pub tick_size_cents: PriceCents,
    /// How many units of the underlying one contract stands for.
    pub contract_multiplier: u32,
}

impl InstrumentSpec {
    /// Validated instrument facts: neither may be zero.
    pub fn new(tick_size_cents: PriceCents, contract_multiplier: u32) -> (r: Result<
        Self,
        BacktestError,
    >)
        ensures
            match r {
                Ok(spec) => tick_size_cents.0 > 0 && contract_multiplier > 0 && spec == (
                InstrumentSpec { tick_size_cents, contract_multiplier }),
                Err(e) => (tick_size_cents.0 == 0 || contract_multiplier == 0) && e.kind()
                    == ErrorKind::Conversion,
            },
    {
        if tick_size_cents.0 == 0 {
            return Err(
                BacktestError::Conversion(
                    String::from_str("instrument tick_size_cents must be > 0, got 0"),
                ),
            );
        }
        if contract_multiplier == 0 {
            return Err(
                BacktestError::Conversion(
                    String::from_str("instrument contract_multiplier must be > 0, got 0"),
                ),
            );
        }
        Ok(InstrumentSpec { tick_size_cents, contract_multiplier })
    }
}

/// One quote of a chain.
#[derive(Debug, PartialEq)]
pub struct QuoteView {
    /// The contract quoted.
    pub contract: ContractKey,
    /// The bid price.
    pub bid: PriceCents,
    /// The ask price.
    pub ask: PriceCents,
    /// The mid price.
    pub mid: PriceCents,
    /// The size at the bid.
    pub bid_size: Quantity,
    /// The size at the ask.
    pub ask_size: Quantity,
    /// The implied volatility.
    pub implied_volatility: Decimal,
    /// Delta per unit.
    pub delta: Decimal,
    /// Gamma per unit.
    pub gamma: Decimal,
    /// Theta per unit.
    pub theta: Decimal,
    /// Vega per unit.
    pub vega: Decimal,
}

impl Clone for QuoteView {
    fn clone(&self) -> (r: Self)
        ensures
            r == *self,
    {
        QuoteView {
            contract: self.contract.clone(),
            bid: self.bid,
            ask: self.ask,
            mid: self.mid,
            bid_size: self.bid_size,
            ask_size: self.ask_size,
            implied_volatility: self.implied_volatility,
            delta: self.delta,
            gamma: self.gamma,
            theta: self.theta,
            vega: self.vega,
        }
    }
}

/// One step of the tape: the quotes of one chain at one moment.
#[derive(Debug, PartialEq)]
pub struct ChainSnapshot {
    /// When.
    pub ts: SimTime,
    /// At which step.
    pub step: StepIndex,
    /// The underlying of the chain.
    pub underlying: Underlying,
    /// The price of the underlying.
    pub underlying_price: PriceCents,
    /// The instrument facts.
    pub spec: InstrumentSpec,
    /// The quotes, walked in the order of their contracts.
    pub quotes: ContractMap<QuoteView>,
}

impl Clone for ChainSnapshot {
    fn clone(&self) -> (r: Self)
        ensures
            r.ts == self.ts,
            r.step == self.step,
            r.underlying == self.underlying,
            r.underlying_price == self.underlying_price,
            r.spec == self.spec,
            r.quotes.entries() == self.quotes.entries(),
            r.quotes@ == self.quotes@,
    {
        let quotes = self.quotes.clone();
        assert(quotes.entries() =~= self.quotes.entries());
        ChainSnapshot {
            ts: self.ts,
            step: self.step,
            underlying: self.underlying.clone(),
            underlying_price: self.underlying_price,
            spec: self.spec,
            quotes,
        }
    }
}

impl ChainSnapshot {
    /// The mid of a contract at this step, where it is quoted.
    pub open spec fn mid_of(self, contract: ContractKey) -> Option<PriceCents> {
        if self.quotes@.dom().contains(contract@) {
            Some(self.quotes@[contract@].mid)
        } else {
            None
        }
    }

    /// The mid of a contract at this step, where it is quoted.
    pub fn mid(&self, contract: &ContractKey) -> (r: Option<PriceCents>)
        ensures
            r == self.mid_of(*contract),
    {
        match self.quotes.get(contract) {
            Some(quote) => Some(quote.mid),
            None => None,
        }
    }
}

} // verus!
