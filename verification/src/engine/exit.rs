//! Why a leg was closed.

use vstd::prelude::*;

verus! {

/// Why a leg was closed.
#[derive(Debug, PartialEq, Eq)]
pub enum ExitReason {
    /// The profit target was reached.
    TargetReached,
    /// The stop loss was triggered.
    StopLoss,
    /// The contract expired.
    Expiration,
    /// The position was rolled over.
    RollOver,
    /// The strategy closed it.
    ManualClose,
    /// A margin call closed it.
    MarginCall,
    /// Any other reason, in words.
    Other(String),
}

impl Clone for ExitReason {
    fn clone(&self) -> (r: Self)
        ensures
            r == *self,
    {
        match self {
            ExitReason::TargetReached => ExitReason::TargetReached,
            ExitReason::StopLoss => ExitReason::StopLoss,
            ExitReason::Expiration => ExitReason::Expiration,
            ExitReason::RollOver => ExitReason::RollOver,
            ExitReason::ManualClose => ExitReason::ManualClose,
            ExitReason::MarginCall => ExitReason::MarginCall,
            ExitReason::Other(text) => ExitReason::Other(text.clone()),
        }
    }
}

} // verus!
