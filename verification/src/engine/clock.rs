//! The simulation clock: time that only moves forward.

use crate::domain::{ChainSnapshot, Fill, OrderCommand, SimTime, StepIndex};
use crate::error::{BacktestError, ErrorKind};
use crate::text::{signed_text, unsigned_text};
use vstd::prelude::*;
use vstd::string::*;

verus! {

/// The deterministic simulation clock. It reads no host clock: its state is a
/// function of the timestamps that the tape yields.
#[derive(Debug, Clone, Copy, PartialEq, Eq, Hash, Structural)]
pub struct SimClock {
    step: StepIndex,
    ts: SimTime,
}

/// What a clock shows.
pub struct ClockView {
    /// The current step.
    pub step: StepIndex,
    /// The current timestamp; `i64::MIN` before the first snapshot.
    pub ts: SimTime,
}

impl View for SimClock {
    type V = ClockView;

    closed spec fn view(&self) -> ClockView {
        ClockView { step: self.step, ts: self.ts }
    }
}

impl ClockView {
    /// Whether the clock may advance to `ts` at `step`.
    pub open spec fn may_advance(self, ts: SimTime, step: StepIndex) -> bool {
        ts.0 > self.ts.0 && step.0 >= self.step.0
    }
}

impl SimClock {
    /// A clock before its first snapshot.
    pub fn new() -> (c: Self)
        ensures
            c@ == (ClockView { step: StepIndex(0), ts: SimTime(i64::MIN) }),
    {
        SimClock { step: StepIndex(0), ts: SimTime(i64::MIN) }
    }

    /// The current step.
    pub fn step(&self) -> (s: StepIndex)
        ensures
            s == self@.step,
    {
        self.step
    }

    /// The current timestamp.
    pub fn ts(&self) -> (t: SimTime)
        ensures
            t == self@.ts,
    {
        self.ts
    }

    /// Advance to a snapshot. The timestamp must be strictly later and the
    /// step must not go back; a refused advance changes nothing.
    pub fn advance_to(&mut self, ts: SimTime, step: StepIndex) -> (r: Result<(), BacktestError>)
        ensures
            match r {
                Ok(_) => old(self)@.may_advance(ts, step) && final(self)@ == (ClockView {
                    step,
                    ts,
                }),
                Err(e) => !old(self)@.may_advance(ts, step) && *final(self) == *old(self)
                    && e.kind() == (if ts.0 <= old(self)@.ts.0 {
                    ErrorKind::DataOutOfOrder { step: step.0, ts: ts.0, prev: old(self)@.ts.0 }
                } else {
                    ErrorKind::Data
                }),
            },
    {
        if ts.0 <= self.ts.0 {
            return Err(
                BacktestError::DataOutOfOrder { step: step.0, ts: ts.0, prev: self.ts.0 },
            );
        }
        if step.0 < self.step.0 {
            return Err(
                BacktestError::Data(
                    String::from_str("step index regressed: step ").concat(
                        &unsigned_text(step.0 as u128),
                    ).concat(" is before the previous step ").concat(
                        &unsigned_text(self.step.0 as u128),
                    ).concat(" at ts ").concat(&signed_text(ts.0 as i128)),
                ),
            );
        }
        self.step = step;
        self.ts = ts;
        Ok(())
    }
}

impl Default for SimClock {
    fn default() -> (c: Self)
        ensures
            c@ == (ClockView { step: StepIndex(0), ts: SimTime(i64::MIN) }),
    {
        SimClock::new()
    }
}

/// Time is strictly increasing over any two accepted advances, whatever
/// refused ones lie between them.
pub proof fn law_time_moves_forward(
    clock: ClockView,
    ts1: SimTime,
    step1: StepIndex,
    ts2: SimTime,
    step2: StepIndex,
)
    requires
        clock.may_advance(ts1, step1),
        (ClockView { step: step1, ts: ts1 }).may_advance(ts2, step2),
    ensures
        clock.ts.0 < ts1.0 < ts2.0,
        clock.step.0 <= step1.0 <= step2.0,
{
}

/// The step kinds of the replay loop: one snapshot, what the strategy decides
/// on it, and the fills against it.
#[derive(Debug, PartialEq)]
pub enum Event {
    /// New market data, the sole source of forward time.
    Snapshot(ChainSnapshot),
    /// The strategy's commands, exits before entries.
    Decision(Vec<OrderCommand>),
    /// One execution result against the current snapshot.
    Fill(Fill),
}

impl Clone for Event {
    fn clone(&self) -> (r: Self)
        ensures
            match (*self, r) {
                (Event::Snapshot(a), Event::Snapshot(b)) => a.ts == b.ts && a.step == b.step
                    && a.underlying == b.underlying && a.underlying_price == b.underlying_price
                    && a.spec == b.spec && a.quotes@ == b.quotes@,
                (Event::Decision(a), Event::Decision(b)) => a@ == b@,
                (Event::Fill(a), Event::Fill(b)) => a == b,
                _ => false,
            },
    {
        match self {
            Event::Snapshot(snapshot) => Event::Snapshot(snapshot.clone()),
            Event::Decision(cmds) => {
                let copy = cmds.clone();
                assert(copy@ =~= cmds@);
                Event::Decision(copy)
            },
            Event::Fill(fill) => Event::Fill(fill.clone()),
        }
    }
}

/// A clock admits what is later and at no earlier step, and nothing else: at
/// one and the same step any later time, and never the same time twice.
pub proof fn law_clock_admits_what_is_later(clock: ClockView, ts: SimTime, step: StepIndex)
    ensures
        clock.may_advance(ts, clock.step) <==> clock.ts.0 < ts.0,
        clock.ts.0 < ts.0 ==> (clock.may_advance(ts, step) <==> clock.step.0 <= step.0),
        !clock.may_advance(clock.ts, step),
{
}

} // verus!
