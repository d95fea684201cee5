//! Orders, fills and open positions.

pub mod sign_convention;

use crate::domain::contract::{ContractKey, Side};
use crate::domain::money::{Cents, PriceCents, Quantity};
use crate::domain::time::{SimTime, StepIndex};
use crate::error::{BacktestError, ErrorKind};
use vstd::prelude::*;
use vstd::string::*;

verus! {

/// How fills are simulated.
#[derive(Debug, Clone, Copy, PartialEq, Eq, Hash, Structural)]
pub enum ExecutionMode {
    /// Fill at the quote.
    Naive,
    /// Fill through an order book.
    Realistic,
}

/// The id of one opened leg.
#[derive(Debug, Clone, Copy, PartialEq, Eq, PartialOrd, Ord, Hash, Structural)]
pub struct PositionId(pub u64);

impl PositionId {
    /// The position `id`.
    pub fn new(id: u64) -> (r: Self)
        ensures
            r.0 == id,
    {
        PositionId(id)
    }

    /// The number of the id.
    pub fn value(self) -> (id: u64)
        ensures
            id == self.0,
    {
        self.0
    }
}

/// The id of one submitted order.
#[derive(Debug, Clone, Copy, PartialEq, Eq, PartialOrd, Ord, Hash, Structural)]
pub struct OrderId(pub u64);

impl OrderId {
    /// The order `id`.
    pub fn new(id: u64) -> (r: Self)
        ensures
            r.0 == id,
    {
        OrderId(id)
    }

    /// The number of the id.
    pub fn value(self) -> (id: u64)
        ensures
            id == self.0,
    {
        self.0
    }
}

/// The id of one group of legs opened together.
#[derive(Debug, Clone, Copy, PartialEq, Eq, PartialOrd, Ord, Hash, Structural)]
pub struct TradeId(pub u64);

impl TradeId {
    /// The trade `id`.
    pub fn new(id: u64) -> (r: Self)
        ensures
            r.0 == id,
    {
        TradeId(id)
    }

    /// The number of the id.
    pub fn value(self) -> (id: u64)
        ensures
            id == self.0,
    {
        self.0
    }
}

/// What an order does to the inventory.
#[derive(Debug, Clone, Copy, PartialEq, Eq, Hash, Structural)]
pub enum PositionAction {
    /// Open a new leg.
    Open,
    /// Close an open leg, in part or whole.
    Close(PositionId),
}

/// How long an order works.
#[derive(Debug, Clone, Copy, PartialEq, Eq, Hash, Structural)]
pub enum TimeInForce {
    /// Fill at once; what does not fill is dropped.
    Ioc,
    /// Rest in the book until filled or cancelled.
    Gtc,
}

/// What a strategy asks the execution model to do for one leg.
#[derive(Debug, PartialEq, Eq)]
pub struct OrderIntent {
    /// The contract to trade.
    pub contract: ContractKey,
    /// Open or close.
    pub action: PositionAction,
    /// Buy or sell.
    pub side: Side,
    /// How many contracts.
    pub quantity: Quantity,
    /// The limit price; none for a marketable order.
    pub limit: Option<PriceCents>,
    /// How long the order works.
    pub tif: TimeInForce,
    /// The mid at decision time, the reference of the slippage.
    pub decision_mid: PriceCents,
}

impl Clone for OrderIntent {
    fn clone(&self) -> (r: Self)
        ensures
            r == *self,
    {
        OrderIntent {
            contract: self.contract.clone(),
            action: self.action,
            side: self.side,
            quantity: self.quantity,
            limit: self.limit,
            tif: self.tif,
            decision_mid: self.decision_mid,
        }
    }
}

impl OrderIntent {
    /// A marketable order, one without a limit, cannot rest in the book.
    pub open spec fn valid(self) -> bool {
        self.limit is Some || self.tif is Ioc
    }

    /// A validated intent.
    pub fn new(
        contract: ContractKey,
        action: PositionAction,
        side: Side,
        quantity: Quantity,
        limit: Option<PriceCents>,
        tif: TimeInForce,
        decision_mid: PriceCents,
    ) -> (r: Result<Self, BacktestError>)
        ensures
            match r {
                Ok(intent) => intent == (OrderIntent {
                    contract,
                    action,
                    side,
                    quantity,
                    limit,
                    tif,
                    decision_mid,
                }) && intent.valid(),
                Err(e) => limit is None && tif is Gtc && e.kind() == ErrorKind::Execution,
            },
    {
        let intent = OrderIntent { contract, action, side, quantity, limit, tif, decision_mid };
        match intent.validate() {
            Ok(_) => Ok(intent),
            Err(e) => Err(e),
        }
    }

    /// Refuse a marketable order that asks to rest.
    pub fn validate(&self) -> (r: Result<(), BacktestError>)
        ensures
            match r {
                Ok(_) => self.valid(),
                Err(e) => !self.valid() && e.kind() == ErrorKind::Execution,
            },
    {
        if self.limit.is_none() && matches!(self.tif, TimeInForce::Gtc) {
            return Err(
                BacktestError::Execution(
                    String::from_str(
                        "marketable order intent (limit = None) must be IOC, not GTC; a market order cannot rest in the book",
                    ),
                ),
            );
        }
        Ok(())
    }
}

/// One command of a strategy to the execution model.
#[derive(Debug, PartialEq, Eq)]
pub enum OrderCommand {
    /// Submit a new order.
    Submit(OrderIntent),
    /// Cancel a resting order.
    Cancel(OrderId),
    /// Cancel a resting order and submit another.
    Replace {
        /// The resting order.
        order_id: OrderId,
        /// What takes its place.
        replacement: OrderIntent,
    },
}

impl Clone for OrderCommand {
    fn clone(&self) -> (r: Self)
        ensures
            r == *self,
    {
        match self {
            OrderCommand::Submit(intent) => OrderCommand::Submit(intent.clone()),
            OrderCommand::Cancel(order_id) => OrderCommand::Cancel(*order_id),
            OrderCommand::Replace { order_id, replacement } => OrderCommand::Replace {
                order_id: *order_id,
                replacement: replacement.clone(),
            },
        }
    }
}

/// One open leg.
#[derive(Debug, PartialEq, Eq)]
pub struct OpenPosition {
    /// The leg's id.
    pub position_id: PositionId,
    /// The contract held.
    pub contract: ContractKey,
    /// Bought or sold.
    pub side: Side,
    /// How many contracts are open.
    pub quantity: Quantity,
    /// The average entry price per contract.
    pub entry_premium: PriceCents,
}

impl Clone for OpenPosition {
    fn clone(&self) -> (r: Self)
        ensures
            r == *self,
    {
        OpenPosition {
            position_id: self.position_id,
            contract: self.contract.clone(),
            side: self.side,
            quantity: self.quantity,
            entry_premium: self.entry_premium,
        }
    }
}

/// One resting order, with the size that is still resting.
#[derive(Debug, PartialEq, Eq)]
pub struct PendingOrder {
    /// The order's id.
    pub order_id: OrderId,
    /// The intent; its quantity is what remains.
    pub intent: OrderIntent,
}

impl Clone for PendingOrder {
    fn clone(&self) -> (r: Self)
        ensures
            r == *self,
    {
        PendingOrder { order_id: self.order_id, intent: self.intent.clone() }
    }
}

/// One executed fill.
#[derive(Debug, PartialEq, Eq)]
pub struct Fill {
    /// When.
    pub ts: SimTime,
    /// At which step.
    pub step: StepIndex,
    /// The contract traded.
    pub contract: ContractKey,
    /// Bought or sold.
    pub side: Side,
    /// How many contracts.
    pub quantity: Quantity,
    /// The price per contract.
    pub price: PriceCents,
    /// The fees paid.
    pub fees: Cents,
    /// The signed slippage, positive where adverse.
    pub slippage: Cents,
    /// Which model filled it.
    pub mode: ExecutionMode,
}

impl Clone for Fill {
    fn clone(&self) -> (r: Self)
        ensures
            r == *self,
    {
        Fill {
            ts: self.ts,
            step: self.step,
            contract: self.contract.clone(),
            side: self.side,
            quantity: self.quantity,
            price: self.price,
            fees: self.fees,
            slippage: self.slippage,
            mode: self.mode,
        }
    }
}

} // verus!
