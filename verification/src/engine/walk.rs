//! The walks that a simulated session can ask for.

use crate::domain::decimal::{written, Decimal};
use crate::error::BacktestError;
use rust_decimal::prelude::ToPrimitive;
use serde_json::Value as JsonValue;
use vstd::prelude::*;
use vstd::string::*;

verus! {

/// A parameter of a walk, by its name.
#[derive(Debug, Clone, Copy, PartialEq, Eq)]
pub struct WalkParameter {
    /// The name.
    pub name: &'static str,
    /// The value.
    pub value: Decimal,
}

/// The walks that a simulated session can ask for.
#[derive(Debug, Clone, Copy, PartialEq, Eq)]
#[non_exhaustive]
pub enum WalkPreset {
    /// Arithmetic Brownian motion.
    Brownian {
        /// The time step.
        dt: Decimal,
        /// The drift.
        drift: Decimal,
        /// The volatility.
        volatility: Decimal,
    },
    /// Geometric Brownian motion.
    GeometricBrownian {
        /// The time step.
        dt: Decimal,
        /// The drift.
        drift: Decimal,
        /// The volatility.
        volatility: Decimal,
    },
    /// A walk that reverts to its mean.
    MeanReverting {
        /// The time step.
        dt: Decimal,
        /// The volatility.
        volatility: Decimal,
        /// The speed of reversion.
        speed: Decimal,
        /// The mean.
        mean: Decimal,
    },
    /// A diffusion with jumps.
    JumpDiffusion {
        /// The time step.
        dt: Decimal,
        /// The drift.
        drift: Decimal,
        /// The volatility.
        volatility: Decimal,
        /// How often it jumps.
        intensity: Decimal,
        /// The mean of a jump.
        jump_mean: Decimal,
        /// The volatility of a jump.
        jump_volatility: Decimal,
    },
    /// A GARCH walk.
    Garch {
        /// The time step.
        dt: Decimal,
        /// The drift.
        drift: Decimal,
        /// The volatility.
        volatility: Decimal,
        /// The weight of the last shock.
        alpha: Decimal,
        /// The weight of the last variance.
        beta: Decimal,
    },
    /// A walk with stochastic volatility.
    Heston {
        /// The time step.
        dt: Decimal,
        /// The drift.
        drift: Decimal,
        /// The volatility.
        volatility: Decimal,
        /// The speed of reversion of the variance.
        kappa: Decimal,
        /// The mean of the variance.
        theta: Decimal,
        /// The volatility of the variance.
        xi: Decimal,
        /// The correlation of the two noises.
        rho: Decimal,
    },
}

/// The parameters of a walk by their names, in their order.
pub open spec fn walk_parameters(preset: WalkPreset) -> Seq<(Seq<char>, Decimal)> {
    match preset {
        WalkPreset::Brownian { dt, drift, volatility }
        | WalkPreset::GeometricBrownian { dt, drift, volatility } => seq![
            ("dt"@, dt),
            ("drift"@, drift),
            ("volatility"@, volatility),
        ],
        WalkPreset::MeanReverting { dt, volatility, speed, mean } => seq![
            ("dt"@, dt),
            ("volatility"@, volatility),
            ("speed"@, speed),
            ("mean"@, mean),
        ],
        WalkPreset::JumpDiffusion {
            dt,
            drift,
            volatility,
            intensity,
            jump_mean,
            jump_volatility,
        } => seq![
            ("dt"@, dt),
            ("drift"@, drift),
            ("volatility"@, volatility),
            ("intensity"@, intensity),
            ("jump_mean"@, jump_mean),
            ("jump_volatility"@, jump_volatility),
        ],
        WalkPreset::Garch { dt, drift, volatility, alpha, beta } => seq![
            ("dt"@, dt),
            ("drift"@, drift),
            ("volatility"@, volatility),
            ("alpha"@, alpha),
            ("beta"@, beta),
        ],
        WalkPreset::Heston { dt, drift, volatility, kappa, theta, xi, rho } => seq![
            ("dt"@, dt),
            ("drift"@, drift),
            ("volatility"@, volatility),
            ("kappa"@, kappa),
            ("theta"@, theta),
            ("xi"@, xi),
            ("rho"@, rho),
        ],
    }
}

/// Some parameters by their names.
pub open spec fn named(ps: Seq<WalkParameter>) -> Seq<(Seq<char>, Decimal)> {
    Seq::new(ps.len(), |i: int| (ps[i].name@, ps[i].value))
}

/// A JSON value of `serde_json`.
#[verifier::external_type_specification]
#[verifier::external_body]
pub struct ExJsonValue(JsonValue);

/// The members that a JSON value holds, where it is an object.
pub uninterp spec fn json_members(value: JsonValue) -> Option<Map<Seq<char>, JsonValue>>;

/// Whether a JSON value is a number that `Decimal::to_f64` and then
/// `Number::from_f64` can give of the decimal of a mantissa and a number of
/// places. They may give more than one: `to_f64` rounds by a power of ten, and
/// how precise that is varies between machines.
pub uninterp spec fn is_number_of(value: JsonValue, mant: int, places: int) -> bool;

/// Write a decimal as a JSON number: `rust_decimal`'s `to_f64` gives a binary
/// number near it, and `serde_json`'s `Number::from_f64` takes every finite
/// number. A mantissa has at most 96 bits and a decimal at most 28 places, so
/// the number and all that it is made of are far inside the range of finite
/// ones. Which number near the decimal comes out is left unsaid. A binary number
/// cannot stand between the two calls, so one relation covers both.
#[verifier::external_body]
fn to_json_number(value: Decimal) -> (r: Option<JsonValue>)
    ensures
        r is Some,
        is_number_of(r->0, value.mant(), value.places()),
{
    value.outside().to_f64().and_then(serde_json::Number::from_f64).map(JsonValue::Number)
}

/// An object of `serde_json` without members: `Value::Object` of the default
/// `Map`.
#[verifier::external_body]
fn empty_object() -> (r: JsonValue)
    ensures
        json_members(r) == Some(Map::<Seq<char>, JsonValue>::empty()),
{
    JsonValue::Object(Default::default())
}

/// Set a member of a JSON object by `serde_json`'s `IndexMut`, which on an
/// object gives the place of the key, made where there is none.
#[verifier::external_body]
fn set_member(object: &mut JsonValue, key: &str, value: JsonValue)
    requires
        json_members(*old(object)) is Some,
    ensures
        json_members(*final(object)) == Some(
            json_members(*old(object))->0.insert(key@, value),
        ),
{
    object[key] = value;
}

/// Whether some JSON values are numbers of some parameters, one each.
pub open spec fn are_numbers_of(numbers: Seq<JsonValue>, ps: Seq<(Seq<char>, Decimal)>) -> bool {
    &&& numbers.len() == ps.len()
    &&& forall|i: int|
        0 <= i < ps.len() ==> is_number_of(
            #[trigger] numbers[i],
            ps[i].1.mant(),
            ps[i].1.places(),
        )
}

/// The object whose members are some values under the names of some
/// parameters; where a name comes twice, the later value.
pub open spec fn members_of(ps: Seq<(Seq<char>, Decimal)>, values: Seq<JsonValue>) -> Map<
    Seq<char>,
    JsonValue,
>
    decreases values.len(),
{
    if values.len() == 0 {
        Map::empty()
    } else {
        members_of(ps, values.drop_last()).insert(ps[values.len() - 1].0, values.last())
    }
}

/// Whether a JSON value is an object with one member of a name, itself an
/// object with given members.
pub open spec fn is_tagged(
    value: JsonValue,
    tag: Seq<char>,
    members: Map<Seq<char>, JsonValue>,
) -> bool {
    exists|inner: JsonValue|
        {
            &&& #[trigger] json_members(inner) == Some(members)
            &&& json_members(value) == Some(Map::<Seq<char>, JsonValue>::empty().insert(tag, inner))
        }
}

/// The JSON of a walk whose parameters were written as numbers: an object with
/// the walk's name as its one key, under it the numbers by their names.
pub fn method_object(preset: &WalkPreset, numbers: Vec<JsonValue>) -> (r: JsonValue)
    requires
        numbers@.len() == walk_parameters(*preset).len(),
    ensures
        is_tagged(r, preset.name_text(), members_of(walk_parameters(*preset), numbers@)),
{
    let ps = preset.parameters();
    let ghost all = numbers@;
    let ghost spec_ps = walk_parameters(*preset);
    let mut numbers = numbers;
    let mut params = empty_object();
    let mut i: usize = 0;
    assert(all.take(0) =~= Seq::<JsonValue>::empty());
    while i < ps.len()
        invariant
            i <= ps@.len(),
            named(ps@) == spec_ps,
            all.len() == ps@.len(),
            numbers@ == all.skip(i as int),
            json_members(params) == Some(members_of(spec_ps, all.take(i as int))),
        decreases ps.len() - i,
    {
        let number = numbers.remove(0);
        assert(numbers@ =~= all.skip(i + 1));
        set_member(&mut params, ps[i].name, number);
        proof {
            assert(number == all[i as int]);
            assert(all.take(i + 1).drop_last() =~= all.take(i as int));
            assert(named(ps@)[i as int].0 == ps@[i as int].name@);
        }
        i = i + 1;
    }
    assert(all.take(all.len() as int) =~= all);
    let mut method = empty_object();
    let ghost inner = params;
    set_member(&mut method, preset.variant_name(), params);
    assert(json_members(inner) == Some(members_of(spec_ps, all)));
    method
}

impl WalkPreset {
    /// The name under which the simulator knows the walk.
    pub open spec fn name_text(self) -> Seq<char> {
        match self {
            WalkPreset::Brownian { .. } => "Brownian"@,
            WalkPreset::GeometricBrownian { .. } => "GeometricBrownian"@,
            WalkPreset::MeanReverting { .. } => "MeanReverting"@,
            WalkPreset::JumpDiffusion { .. } => "JumpDiffusion"@,
            WalkPreset::Garch { .. } => "Garch"@,
            WalkPreset::Heston { .. } => "Heston"@,
        }
    }

    /// The name under which the simulator knows the walk.
    pub fn variant_name(&self) -> (name: &'static str)
        ensures
            name@ == self.name_text(),
    {
        match self {
            WalkPreset::Brownian { .. } => "Brownian",
            WalkPreset::GeometricBrownian { .. } => "GeometricBrownian",
            WalkPreset::MeanReverting { .. } => "MeanReverting",
            WalkPreset::JumpDiffusion { .. } => "JumpDiffusion",
            WalkPreset::Garch { .. } => "Garch",
            WalkPreset::Heston { .. } => "Heston",
        }
    }

    /// The parameters of the walk, under the names that the simulator reads.
    pub fn parameters(&self) -> (ps: Vec<WalkParameter>)
        ensures
            named(ps@) == walk_parameters(*self),
    {
        let mut ps: Vec<WalkParameter> = Vec::new();
        match self {
            WalkPreset::Brownian { dt, drift, volatility } => {
                ps.push(WalkParameter { name: "dt", value: *dt });
                ps.push(WalkParameter { name: "drift", value: *drift });
                ps.push(WalkParameter { name: "volatility", value: *volatility });
            },
            WalkPreset::GeometricBrownian { dt, drift, volatility } => {
                ps.push(WalkParameter { name: "dt", value: *dt });
                ps.push(WalkParameter { name: "drift", value: *drift });
                ps.push(WalkParameter { name: "volatility", value: *volatility });
            },
            WalkPreset::MeanReverting { dt, volatility, speed, mean } => {
                ps.push(WalkParameter { name: "dt", value: *dt });
                ps.push(WalkParameter { name: "volatility", value: *volatility });
                ps.push(WalkParameter { name: "speed", value: *speed });
                ps.push(WalkParameter { name: "mean", value: *mean });
            },
            WalkPreset::JumpDiffusion {
                dt,
                drift,
                volatility,
                intensity,
                jump_mean,
                jump_volatility,
            } => {
                ps.push(WalkParameter { name: "dt", value: *dt });
                ps.push(WalkParameter { name: "drift", value: *drift });
                ps.push(WalkParameter { name: "volatility", value: *volatility });
                ps.push(WalkParameter { name: "intensity", value: *intensity });
                ps.push(WalkParameter { name: "jump_mean", value: *jump_mean });
                ps.push(WalkParameter { name: "jump_volatility", value: *jump_volatility });
            },
            WalkPreset::Garch { dt, drift, volatility, alpha, beta } => {
                ps.push(WalkParameter { name: "dt", value: *dt });
                ps.push(WalkParameter { name: "drift", value: *drift });
                ps.push(WalkParameter { name: "volatility", value: *volatility });
                ps.push(WalkParameter { name: "alpha", value: *alpha });
                ps.push(WalkParameter { name: "beta", value: *beta });
            },
            WalkPreset::Heston { dt, drift, volatility, kappa, theta, xi, rho } => {
                ps.push(WalkParameter { name: "dt", value: *dt });
                ps.push(WalkParameter { name: "drift", value: *drift });
                ps.push(WalkParameter { name: "volatility", value: *volatility });
                ps.push(WalkParameter { name: "kappa", value: *kappa });
                ps.push(WalkParameter { name: "theta", value: *theta });
                ps.push(WalkParameter { name: "xi", value: *xi });
                ps.push(WalkParameter { name: "rho", value: *rho });
            },
        }
        ps
    }

    /// The JSON that asks the simulator for the walk: an object with the walk's
    /// name as its one key, under it the parameters as numbers by their names.
    /// Every decimal can be written as a number, so none is refused.
    pub fn to_method_json(&self) -> (r: Result<JsonValue, BacktestError>)
        ensures
            r matches Ok(method) && exists|numbers: Seq<JsonValue>|
                {
                    &&& #[trigger] are_numbers_of(numbers, walk_parameters(*self))
                    &&& is_tagged(
                        method,
                        self.name_text(),
                        members_of(walk_parameters(*self), numbers),
                    )
                },
    {
        let ps = self.parameters();
        let ghost spec_ps = walk_parameters(*self);
        let mut numbers: Vec<JsonValue> = Vec::with_capacity(ps.len());
        let mut i: usize = 0;
        while i < ps.len()
            invariant
                i <= ps@.len(),
                named(ps@) == spec_ps,
                spec_ps == walk_parameters(*self),
                numbers@.len() == i,
                forall|k: int|
                    0 <= k < i ==> is_number_of(
                        #[trigger] numbers@[k],
                        spec_ps[k].1.mant(),
                        spec_ps[k].1.places(),
                    ),
            decreases ps.len() - i,
        {
            assert(named(ps@)[i as int].1 == ps@[i as int].value);
            match to_json_number(ps[i].value) {
                Some(number) => {
                    numbers.push(number);
                },
                None => {
                    return Err(
                        BacktestError::Conversion(
                            String::from_str("walk parameter ").concat(
                                &written(ps[i].value),
                            ).concat(" is not a finite f64"),
                        ),
                    );
                },
            }
            i = i + 1;
        }
        assert(are_numbers_of(numbers@, spec_ps));
        Ok(method_object(self, numbers))
    }
}

/// Every walk is asked for with its time step, its volatility and what else it
/// is made of, each under its own name.
pub proof fn law_walks_name_their_parameters(preset: WalkPreset)
    ensures
        ({
            let ps = walk_parameters(preset);
            match preset {
                WalkPreset::Brownian { dt, drift, volatility }
                | WalkPreset::GeometricBrownian { dt, drift, volatility } => {
                    &&& ps.len() == 3
                    &&& ps.contains(("dt"@, dt))
                    &&& ps.contains(("drift"@, drift))
                    &&& ps.contains(("volatility"@, volatility))
                },
                WalkPreset::MeanReverting { dt, volatility, speed, mean } => {
                    &&& ps.len() == 4
                    &&& ps.contains(("dt"@, dt))
                    &&& ps.contains(("volatility"@, volatility))
                    &&& ps.contains(("speed"@, speed))
                    &&& ps.contains(("mean"@, mean))
                },
                WalkPreset::JumpDiffusion {
                    dt,
                    drift,
                    volatility,
                    intensity,
                    jump_mean,
                    jump_volatility,
                } => {
                    &&& ps.len() == 6
                    &&& ps.contains(("dt"@, dt))
                    &&& ps.contains(("drift"@, drift))
                    &&& ps.contains(("volatility"@, volatility))
                    &&& ps.contains(("intensity"@, intensity))
                    &&& ps.contains(("jump_mean"@, jump_mean))
                    &&& ps.contains(("jump_volatility"@, jump_volatility))
                },
                WalkPreset::Garch { dt, drift, volatility, alpha, beta } => {
                    &&& ps.len() == 5
                    &&& ps.contains(("dt"@, dt))
                    &&& ps.contains(("drift"@, drift))
                    &&& ps.contains(("volatility"@, volatility))
                    &&& ps.contains(("alpha"@, alpha))
                    &&& ps.contains(("beta"@, beta))
                },
                WalkPreset::Heston { dt, drift, volatility, kappa, theta, xi, rho } => {
                    &&& ps.len() == 7
                    &&& ps.contains(("dt"@, dt))
                    &&& ps.contains(("drift"@, drift))
                    &&& ps.contains(("volatility"@, volatility))
                    &&& ps.contains(("kappa"@, kappa))
                    &&& ps.contains(("theta"@, theta))
                    &&& ps.contains(("xi"@, xi))
                    &&& ps.contains(("rho"@, rho))
                },
            }
        }),
{
    let ps = walk_parameters(preset);
    assert forall|i: int| 0 <= i < ps.len() implies ps.contains(#[trigger] ps[i]) by {}
    assert(ps[0] == ps[0] && ps[1] == ps[1] && ps[2] == ps[2]);
    if ps.len() > 3 {
        assert(ps[3] == ps[3]);
    }
    if ps.len() > 4 {
        assert(ps[4] == ps[4]);
    }
    if ps.len() > 5 {
        assert(ps[5] == ps[5]);
    }
    if ps.len() > 6 {
        assert(ps[6] == ps[6]);
    }
}

/// The object of a walk holds each value under the name of its parameter, and
/// nothing else.
pub proof fn law_members_stand_under_their_names(
    ps: Seq<(Seq<char>, Decimal)>,
    values: Seq<JsonValue>,
    i: int,
    name: Seq<char>,
)
    requires
        values.len() <= ps.len(),
        forall|a: int, b: int|
            #![trigger ps[a], ps[b]]
            0 <= a < b < ps.len() ==> ps[a].0 != ps[b].0,
    ensures
        0 <= i < values.len() ==> members_of(ps, values).dom().contains(ps[i].0) && members_of(
            ps,
            values,
        )[ps[i].0] == values[i],
        members_of(ps, values).dom().contains(name) ==> exists|k: int|
            0 <= k < values.len() && (#[trigger] ps[k]).0 == name,
    decreases values.len(),
{
    if values.len() > 0 {
        let front = values.drop_last();
        law_members_stand_under_their_names(ps, front, i, name);
        let last = values.len() - 1;
        if 0 <= i < last {
            assert(ps[i].0 != ps[last].0);
            assert(front[i] == values[i]);
        }
        if members_of(ps, values).dom().contains(name) {
            if name == ps[last].0 {
                assert(ps[last].0 == name);
            } else {
                let k = choose|k: int| 0 <= k < front.len() && (#[trigger] ps[k]).0 == name;
                assert(ps[k].0 == name);
            }
        }
    }
}

/// Walks of different kinds go by different names.
pub proof fn law_walks_have_their_own_names(a: WalkPreset, b: WalkPreset)
    requires
        a.name_text() == b.name_text(),
    ensures
        a is Brownian <==> b is Brownian,
        a is GeometricBrownian <==> b is GeometricBrownian,
        a is MeanReverting <==> b is MeanReverting,
        a is JumpDiffusion <==> b is JumpDiffusion,
        a is Garch <==> b is Garch,
        a is Heston <==> b is Heston,
{
    reveal_strlit("Brownian");
    reveal_strlit("GeometricBrownian");
    reveal_strlit("MeanReverting");
    reveal_strlit("JumpDiffusion");
    reveal_strlit("Garch");
    reveal_strlit("Heston");
    assert("Brownian"@.len() == 8);
    assert("GeometricBrownian"@.len() == 17);
    assert("MeanReverting"@.len() == 13 && "MeanReverting"@[0] == 'M');
    assert("JumpDiffusion"@.len() == 13 && "JumpDiffusion"@[0] == 'J');
    assert("Garch"@.len() == 5);
    assert("Heston"@.len() == 6);
}

} // verus!
