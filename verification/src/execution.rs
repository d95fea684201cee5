//! The seam to the execution model.

use crate::domain::{ChainSnapshot, ExecutionMode, Fill, OrderCommand, OrderId};
use crate::error::{refusal, BacktestError};
use vstd::prelude::*;

verus! {

/// Which command some of a step's fills belong to.
#[derive(Debug, Clone, Copy, PartialEq, Eq, Structural)]
pub struct FillGroup {
    /// The index of the command.
    pub command_index: usize,
    /// How many fills it produced.
    pub fill_count: u32,
}

/// Which resting order some of a step's fills belong to.
#[derive(Debug, Clone, Copy, PartialEq, Eq, Structural)]
pub struct CarryGroup {
    /// The resting order.
    pub order_id: OrderId,
    /// How many fills it produced.
    pub fill_count: u32,
}

/// What some groups are, where there are any.
pub open spec fn groups_of(groups: Option<&[FillGroup]>) -> Option<Seq<FillGroup>> {
    match groups {
        Some(g) => Some(g@),
        None => None,
    }
}

/// One call of an execution model: what it was given and what it made of it.
pub struct Filling<X> {
    /// The model before the call.
    pub before: X,
    /// The model after the call.
    pub after: X,
    /// The commands.
    pub cmds: Seq<OrderCommand>,
    /// The ids of the submitted and replacing orders.
    pub submit_ids: Seq<OrderId>,
    /// The snapshot.
    pub snapshot: ChainSnapshot,
    /// The fills before the call.
    pub out: Seq<Fill>,
    /// The fills after the call.
    pub out_after: Seq<Fill>,
    /// The error, where the call failed.
    pub error: Option<BacktestError>,
}

/// How the commands of a step are filled.
///
/// Each model says for itself what its calls may do, as a relation over what
/// they are given and what they make of it; a model that says nothing may do
/// anything. The replay loop is proved for whatever it says.
pub trait ExecutionModel: Sized {
    /// What `fill` may do.
    open spec fn may_fill(f: Filling<Self>) -> bool {
        true
    }

    /// What `fill_groups` may say.
    open spec fn may_group(self, groups: Option<Seq<FillGroup>>) -> bool {
        true
    }

    /// What `carry_fills` may say.
    open spec fn may_carry(self, carry: Seq<CarryGroup>) -> bool {
        true
    }

    /// Fill the commands of a step against its snapshot, and append the fills:
    /// first those of the orders that rest since earlier steps, then those of
    /// the commands, each in its order. The ids are those of the submitted and
    /// replacing orders, in the order of the commands.
    fn fill(
        &mut self,
        cmds: &[OrderCommand],
        submit_ids: &[OrderId],
        snapshot: &ChainSnapshot,
        out: &mut Vec<Fill>,
    ) -> (r: Result<(), BacktestError>)
        ensures
            Self::may_fill(
                (Filling {
                    before: *old(self),
                    after: *final(self),
                    cmds: cmds@,
                    submit_ids: submit_ids@,
                    snapshot: *snapshot,
                    out: old(out)@,
                    out_after: final(out)@,
                    error: refusal(r),
                }),
            ),
    ;

    /// Which commands the last fills belong to; nothing where each submitted
    /// order has one fill.
    fn fill_groups(&self) -> (groups: Option<&[FillGroup]>)
        ensures
            self.may_group(groups_of(groups)),
    ;

    /// Which resting orders the last fills belong to; none where no order
    /// rests.
    fn carry_fills(&self) -> (carry: &[CarryGroup])
        ensures
            self.may_carry(carry@),
    ;

    /// The mode of the model.
    fn mode(&self) -> (mode: ExecutionMode);
}

} // verus!
