//! Simulation time: a nanosecond clock and a step counter.

use core::cmp::Ordering;
use vstd::prelude::*;
use vstd::std_specs::cmp::PartialOrdSpec;

verus! {

/// A simulation timestamp: nanoseconds since the Unix epoch.
#[derive(Debug, Clone, Copy, PartialEq, Eq, Ord, Hash, Structural)]
pub struct SimTime(pub i64);

impl SimTime {
    /// The timestamp at `nanos` nanoseconds.
    pub fn new(nanos: i64) -> (t: Self)
        ensures
            t.0 == nanos,
    {
        SimTime(nanos)
    }

    /// Nanoseconds since the Unix epoch.
    pub fn value(self) -> (nanos: i64)
        ensures
            nanos == self.0,
    {
        self.0
    }
}

impl PartialOrd for SimTime {
    fn partial_cmp(&self, other: &Self) -> (r: Option<Ordering>) {
        if self.0 < other.0 {
            Some(Ordering::Less)
        } else if self.0 == other.0 {
            Some(Ordering::Equal)
        } else {
            Some(Ordering::Greater)
        }
    }
}

impl vstd::std_specs::cmp::PartialOrdSpecImpl for SimTime {
    open spec fn obeys_partial_cmp_spec() -> bool {
        true
    }

    open spec fn partial_cmp_spec(&self, other: &Self) -> Option<Ordering> {
        if self.0 < other.0 {
            Some(Ordering::Less)
        } else if self.0 == other.0 {
            Some(Ordering::Equal)
        } else {
            Some(Ordering::Greater)
        }
    }
}

/// Times order as their nanoseconds do, those before the epoch first, and are
/// equal where their nanoseconds are.
pub proof fn law_times_order_as_their_nanos(a: i64, b: i64)
    ensures
        SimTime::obeys_partial_cmp_spec(),
        SimTime(a).partial_cmp_spec(&SimTime(b)) == Some(Ordering::Less) <==> a < b,
        SimTime(a).partial_cmp_spec(&SimTime(b)) == Some(Ordering::Greater) <==> a > b,
        SimTime(a) == SimTime(b) <==> a == b,
{
}

/// A zero-based step index on the tape.
#[derive(Debug, Clone, Copy, PartialEq, Eq, Ord, Hash, Structural)]
pub struct StepIndex(pub u32);

impl StepIndex {
    /// The step `step`.
    pub fn new(step: u32) -> (s: Self)
        ensures
            s.0 == step,
    {
        StepIndex(step)
    }

    /// The zero-based index.
    pub fn value(self) -> (step: u32)
        ensures
            step == self.0,
    {
        self.0
    }
}

impl PartialOrd for StepIndex {
    fn partial_cmp(&self, other: &Self) -> (r: Option<Ordering>) {
        if self.0 < other.0 {
            Some(Ordering::Less)
        } else if self.0 == other.0 {
            Some(Ordering::Equal)
        } else {
            Some(Ordering::Greater)
        }
    }
}

impl vstd::std_specs::cmp::PartialOrdSpecImpl for StepIndex {
    open spec fn obeys_partial_cmp_spec() -> bool {
        true
    }

    open spec fn partial_cmp_spec(&self, other: &Self) -> Option<Ordering> {
        if self.0 < other.0 {
            Some(Ordering::Less)
        } else if self.0 == other.0 {
            Some(Ordering::Equal)
        } else {
            Some(Ordering::Greater)
        }
    }
}

/// Steps order as their indices do, and are equal where their indices are.
pub proof fn law_steps_order_as_their_indices(a: u32, b: u32)
    ensures
        StepIndex::obeys_partial_cmp_spec(),
        StepIndex(a).partial_cmp_spec(&StepIndex(b)) == Some(Ordering::Less) <==> a < b,
        StepIndex(a).partial_cmp_spec(&StepIndex(b)) == Some(Ordering::Greater) <==> a > b,
        StepIndex(a) == StepIndex(b) <==> a == b,
{
}

} // verus!
