//! The attribution substrate: what a profit-and-loss attribution needs of
//! each step and each leg held at its beginning.

use crate::domain::decimal::Decimal;
use crate::domain::{Cents, ChainSnapshot, Side};
use crate::engine::ledger::{PositionMark, UnitGreeks};
use vstd::prelude::*;

verus! {

/// One leg held at the beginning of a step: its sensitivities per unit, and
/// the sizes to weight them by.
#[derive(Debug, Clone, Copy, PartialEq)]
pub struct LegAttributionSample {
    /// The sensitivities as of the previous snapshot, where there are any.
    pub prior_greeks: Option<UnitGreeks>,
    /// The implied volatility at this step, carried forward where the contract
    /// is not quoted.
    pub current_iv: Decimal,
    /// How many contracts.
    pub quantity: u32,
    /// How many units one contract stands for.
    pub contract_multiplier: u32,
    /// Bought or sold.
    pub side: Side,
}

/// The scalars of one step.
#[derive(Debug, Clone, Copy, PartialEq, Eq, Structural)]
pub struct StepAttributionScalars {
    /// The step.
    pub step: u32,
    /// The step's timestamp.
    pub ts_ns: i64,
    /// The previous step's timestamp; this step's own at the first step.
    pub prior_ts_ns: i64,
    /// The underlying price, in cents.
    pub underlying_cents: u64,
    /// The previous step's underlying price; this step's own at the first.
    pub prior_underlying_cents: u64,
    /// The spread captured by the step's fills.
    pub spread_capture_cents: i64,
    /// The fees of the step's fills.
    pub fees_cents: i64,
    /// The change of equity over the step.
    pub step_pnl_cents: i64,
    /// How many leg samples belong to the step.
    pub leg_count: usize,
}

/// The substrate of a run: the steps in order, and the leg samples of all
/// steps one after the other.
#[derive(Debug, PartialEq)]
pub struct AttributionSubstrate {
    /// One entry per step.
    pub steps: Vec<StepAttributionScalars>,
    /// The leg samples, step by step.
    pub legs: Vec<LegAttributionSample>,
}

impl Clone for AttributionSubstrate {
    fn clone(&self) -> (r: Self)
        ensures
            r.steps@ == self.steps@,
            r.legs@ == self.legs@,
    {
        let r = AttributionSubstrate { steps: self.steps.clone(), legs: self.legs.clone() };
        assert(r.steps@ =~= self.steps@);
        assert(r.legs@ =~= self.legs@);
        r
    }
}

impl Default for AttributionSubstrate {
    fn default() -> (s: Self)
        ensures
            s.steps@.len() == 0,
            s.legs@.len() == 0,
    {
        AttributionSubstrate { steps: Vec::new(), legs: Vec::new() }
    }
}

/// What an attribution collector holds.
pub struct AttributionView {
    pub steps: Seq<StepAttributionScalars>,
    pub legs: Seq<LegAttributionSample>,
    pub prev_ts: Option<i64>,
    pub prev_underlying: Option<u64>,
}

/// Builds the substrate one step at a time.
#[derive(Debug)]
pub struct AttributionCollector {
    /// One entry per step.
    pub steps: Vec<StepAttributionScalars>,
    /// The leg samples, step by step.
    pub legs: Vec<LegAttributionSample>,
    /// The previous step's timestamp.
    pub prev_ts: Option<i64>,
    /// The previous step's underlying price.
    pub prev_underlying: Option<u64>,
}

impl View for AttributionCollector {
    type V = AttributionView;

    open spec fn view(&self) -> AttributionView {
        AttributionView {
            steps: self.steps@,
            legs: self.legs@,
            prev_ts: self.prev_ts,
            prev_underlying: self.prev_underlying,
        }
    }
}

/// The implied volatility of a leg at a step: the quoted one, else the last
/// known one, else zero.
pub open spec fn current_iv_of(snapshot: ChainSnapshot, mark: PositionMark) -> Decimal {
    if snapshot.quotes@.dom().contains(mark.contract@) {
        snapshot.quotes@[mark.contract@].implied_volatility
    } else {
        match mark.prior_greeks {
            Some(greeks) => greeks.implied_volatility,
            None => Decimal::of(0, 0),
        }
    }
}

/// The sample of a leg at a step.
pub open spec fn sample_of(snapshot: ChainSnapshot, mark: PositionMark) -> LegAttributionSample {
    LegAttributionSample {
        prior_greeks: mark.prior_greeks,
        current_iv: current_iv_of(snapshot, mark),
        quantity: mark.quantity.n() as u32,
        contract_multiplier: mark.contract_multiplier,
        side: mark.side,
    }
}

/// The scalars of a step.
pub open spec fn scalars_of(
    before: AttributionView,
    snapshot: ChainSnapshot,
    leg_count: usize,
    spread_capture: Cents,
    fees: Cents,
    step_pnl: Cents,
) -> StepAttributionScalars {
    StepAttributionScalars {
        step: snapshot.step.0,
        ts_ns: snapshot.ts.0,
        prior_ts_ns: match before.prev_ts {
            Some(ts) => ts,
            None => snapshot.ts.0,
        },
        underlying_cents: snapshot.underlying_price.0,
        prior_underlying_cents: match before.prev_underlying {
            Some(price) => price,
            None => snapshot.underlying_price.0,
        },
        spread_capture_cents: spread_capture.0,
        fees_cents: fees.0,
        step_pnl_cents: step_pnl.0,
        leg_count,
    }
}

/// What is held after one step more: its scalars, and one sample per leg in
/// the order of the legs.
pub open spec fn step_collected(
    before: AttributionView,
    snapshot: ChainSnapshot,
    marks: Seq<PositionMark>,
    spread_capture: Cents,
    fees: Cents,
    step_pnl: Cents,
) -> AttributionView {
    AttributionView {
        steps: before.steps.push(
            scalars_of(before, snapshot, marks.len() as usize, spread_capture, fees, step_pnl),
        ),
        legs: before.legs + Seq::new(marks.len(), |i: int| sample_of(snapshot, marks[i])),
        prev_ts: Some(snapshot.ts.0),
        prev_underlying: Some(snapshot.underlying_price.0),
    }
}

impl AttributionCollector {
    /// An empty collector with room for `step_capacity` steps.
    pub fn with_capacity(step_capacity: usize) -> (c: Self)
        ensures
            c@ == (AttributionView {
                steps: Seq::empty(),
                legs: Seq::empty(),
                prev_ts: None,
                prev_underlying: None,
            }),
    {
        AttributionCollector {
            steps: Vec::with_capacity(step_capacity),
            legs: Vec::new(),
            prev_ts: None,
            prev_underlying: None,
        }
    }

    /// Make room for the samples of `legs_per_step` legs over `step_capacity`
    /// steps.
    pub fn reserve_legs(&mut self, step_capacity: usize, legs_per_step: usize)
        ensures
            final(self)@ == old(self)@,
    {
        match step_capacity.checked_mul(legs_per_step) {
            Some(want) => {
                let len: usize = self.legs.len();
                if want > len {
                    self.legs.reserve(want - len);
                }
            },
            None => {},
        }
    }

    /// Take down one settled step.
    pub fn collect(
        &mut self,
        snapshot: &ChainSnapshot,
        marks: &[PositionMark],
        spread_capture: Cents,
        fees: Cents,
        step_pnl: Cents,
    )
        ensures
            final(self)@ == step_collected(
                old(self)@,
                *snapshot,
                marks@,
                spread_capture,
                fees,
                step_pnl,
            ),
    {
        let ghost before = self@;
        let ts_ns: i64 = snapshot.ts.0;
        let underlying_cents: u64 = snapshot.underlying_price.0;
        let prior_ts_ns: i64 = match self.prev_ts {
            Some(ts) => ts,
            None => ts_ns,
        };
        let prior_underlying_cents: u64 = match self.prev_underlying {
            Some(price) => price,
            None => underlying_cents,
        };
        let mut i: usize = 0;
        assert(self.legs@ =~= before.legs + Seq::new(
            0,
            |k: int| sample_of(*snapshot, marks@[k]),
        ));
        while i < marks.len()
            invariant
                i <= marks.len(),
                self.steps@ == before.steps,
                self.prev_ts == before.prev_ts,
                self.prev_underlying == before.prev_underlying,
                self.legs@ == before.legs + Seq::new(
                    i as nat,
                    |k: int| sample_of(*snapshot, marks@[k]),
                ),
            decreases marks.len() - i,
        {
            let mark = &marks[i];
            let current_iv: Decimal = match snapshot.quotes.get(&mark.contract) {
                Some(quote) => quote.implied_volatility,
                None => match mark.prior_greeks {
                    Some(greeks) => greeks.implied_volatility,
                    None => Decimal::new(0, 0),
                },
            };
            self.legs.push(
                LegAttributionSample {
                    prior_greeks: mark.prior_greeks,
                    current_iv,
                    quantity: mark.quantity.value(),
                    contract_multiplier: mark.contract_multiplier,
                    side: mark.side,
                },
            );
            i = i + 1;
            assert(self.legs@ =~= before.legs + Seq::new(
                i as nat,
                |k: int| sample_of(*snapshot, marks@[k]),
            ));
        }
        self.steps.push(
            StepAttributionScalars {
                step: snapshot.step.0,
                ts_ns,
                prior_ts_ns,
                underlying_cents,
                prior_underlying_cents,
                spread_capture_cents: spread_capture.0,
                fees_cents: fees.0,
                step_pnl_cents: step_pnl.0,
                leg_count: marks.len(),
            },
        );
        self.prev_ts = Some(ts_ns);
        self.prev_underlying = Some(underlying_cents);
    }

    /// The substrate.
    pub fn into_substrate(self) -> (s: AttributionSubstrate)
        ensures
            s.steps@ == self@.steps,
            s.legs@ == self@.legs,
    {
        AttributionSubstrate { steps: self.steps, legs: self.legs }
    }
}

/// The number of leg samples that some steps own.
pub open spec fn owned_legs(steps: Seq<StepAttributionScalars>) -> int
    decreases steps.len(),
{
    if steps.len() == 0 {
        0
    } else {
        owned_legs(steps.drop_last()) + steps.last().leg_count
    }
}

/// The leg counts of the steps partition the samples: each step keeps the
/// sum of the counts equal to the number of samples.
pub proof fn law_leg_counts_cover_the_samples(
    before: AttributionView,
    snapshot: ChainSnapshot,
    marks: Seq<PositionMark>,
    spread_capture: Cents,
    fees: Cents,
    step_pnl: Cents,
)
    requires
        owned_legs(before.steps) == before.legs.len(),
        marks.len() <= usize::MAX,
    ensures
        ({
            let after = step_collected(before, snapshot, marks, spread_capture, fees, step_pnl);
            owned_legs(after.steps) == after.legs.len()
        }),
{
    let after = step_collected(before, snapshot, marks, spread_capture, fees, step_pnl);
    assert(after.steps.drop_last() =~= before.steps);
}

/// Whether the endpoints kept for the next step are the last step's figures.
pub open spec fn endpoints_kept(view: AttributionView) -> bool {
    if view.steps.len() == 0 {
        view.prev_ts is None && view.prev_underlying is None
    } else {
        &&& view.prev_ts == Some(view.steps.last().ts_ns)
        &&& view.prev_underlying == Some(view.steps.last().underlying_cents)
    }
}

/// Each step's endpoints are the previous step's figures, and at the first
/// step its own, so that nothing has moved there yet.
pub proof fn law_endpoints_chain(
    before: AttributionView,
    snapshot: ChainSnapshot,
    marks: Seq<PositionMark>,
    spread_capture: Cents,
    fees: Cents,
    step_pnl: Cents,
)
    requires
        endpoints_kept(before),
    ensures
        ({
            let after = step_collected(before, snapshot, marks, spread_capture, fees, step_pnl);
            let s = after.steps.last();
            &&& endpoints_kept(after)
            &&& if before.steps.len() == 0 {
                s.prior_ts_ns == s.ts_ns && s.prior_underlying_cents == s.underlying_cents
            } else {
                s.prior_ts_ns == before.steps.last().ts_ns && s.prior_underlying_cents
                    == before.steps.last().underlying_cents
            }
        }),
{
}

/// A leg whose contract is not quoted keeps its last known volatility, so
/// that its volatility has not moved.
pub proof fn law_absent_leg_carries_its_volatility(
    snapshot: ChainSnapshot,
    mark: PositionMark,
    greeks: UnitGreeks,
)
    requires
        !snapshot.quotes@.dom().contains(mark.contract@),
        mark.prior_greeks == Some(greeks),
    ensures
        sample_of(snapshot, mark).current_iv == greeks.implied_volatility,
{
}

/// A step's scalars are its own and its samples those of the legs held, one
/// each and in their order: what was taken down of earlier steps stays.
pub proof fn law_samples_follow_their_legs(
    before: AttributionView,
    snapshot: ChainSnapshot,
    marks: Seq<PositionMark>,
    spread_capture: Cents,
    fees: Cents,
    step_pnl: Cents,
    i: int,
)
    requires
        marks.len() <= usize::MAX,
        0 <= i < marks.len(),
    ensures
        ({
            let after = step_collected(before, snapshot, marks, spread_capture, fees, step_pnl);
            let s = after.steps.last();
            let (m, sample) = (marks[i], after.legs[before.legs.len() + i]);
            &&& after.steps.drop_last() == before.steps
            &&& after.legs.take(before.legs.len() as int) == before.legs
            &&& after.legs.len() == before.legs.len() + marks.len()
            &&& s.step == snapshot.step.0
            &&& s.ts_ns == snapshot.ts.0
            &&& s.underlying_cents == snapshot.underlying_price.0
            &&& s.spread_capture_cents == spread_capture.0
            &&& s.fees_cents == fees.0
            &&& s.step_pnl_cents == step_pnl.0
            &&& s.leg_count == marks.len()
            &&& sample.prior_greeks == m.prior_greeks
            &&& sample.side == m.side
            &&& sample.quantity == m.quantity.n()
            &&& sample.contract_multiplier == m.contract_multiplier
            &&& snapshot.quotes@.dom().contains(m.contract@) ==> sample.current_iv
                == snapshot.quotes@[m.contract@].implied_volatility
        }),
{
    let after = step_collected(before, snapshot, marks, spread_capture, fees, step_pnl);
    marks[i].quantity.lemma_of();
    assert(after.steps.drop_last() =~= before.steps);
    assert(after.legs.take(before.legs.len() as int) =~= before.legs);
}

/// Steps own as many samples as they count, each step its own.
pub proof fn law_owned_legs_add_up(
    steps: Seq<StepAttributionScalars>,
    step: StepAttributionScalars,
)
    ensures
        owned_legs(Seq::empty()) == 0,
        owned_legs(steps.push(step)) == owned_legs(steps) + step.leg_count,
{
    assert(steps.push(step).drop_last() =~= steps);
}

} // verus!
