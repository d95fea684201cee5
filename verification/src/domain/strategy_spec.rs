//! The strategy that a run is recorded with.
//!
//! A leg set is a set, but it is written as a list. Its canonical form fixes
//! one order of the legs, so that leg order is not observable anywhere: the
//! same position written in another order is recorded the same and run the
//! same.

use crate::domain::contract::{OptionStyle, Side, Underlying};
use crate::domain::decimal::{
    compare_decimals, decimal_text, law_written_form_tells_decimals_apart, lemma_decimal_text_ascii,
    lemma_of_parts, written, Decimal,
};
use crate::domain::expiration::{
    expiration_exact_cmp, int_order, triple_order, ExpirationDate, ExpirationView,
};
use crate::domain::money::{PriceCents, Quantity};
use crate::domain::positive::Positive;
use crate::text::{
    compare_text, lemma_text_order_reversed, lemma_text_order_transitive, reversed, text_order,
};
use core::cmp::Ordering;
use vstd::prelude::*;
use vstd::string::*;

verus! {

/// A strategy and its parameters.
#[derive(Debug, PartialEq)]
pub enum StrategySpec {
    /// A four-leg iron condor.
    IronCondor(IronCondorSpec),
    /// A two-leg short strangle.
    ShortStrangle(ShortStrangleSpec),
    /// An explicit set of legs, each with its own expiration.
    Legs(LegSetSpec),
}

impl StrategySpec {
    /// Whether two specifications say the same.
    pub open spec fn same_as(self, other: Self) -> bool {
        match (self, other) {
            (StrategySpec::Legs(a), StrategySpec::Legs(b)) => a.same_as(b),
            _ => self == other,
        }
    }
}

impl Clone for StrategySpec {
    fn clone(&self) -> (r: Self)
        ensures
            r.same_as(*self),
    {
        match self {
            StrategySpec::IronCondor(spec) => StrategySpec::IronCondor(spec.clone()),
            StrategySpec::ShortStrangle(spec) => StrategySpec::ShortStrangle(spec.clone()),
            StrategySpec::Legs(spec) => StrategySpec::Legs(spec.clone()),
        }
    }
}

/// The parameters of an iron condor. Money is in integer cents.
#[derive(Debug, PartialEq)]
pub struct IronCondorSpec {
    /// The underlying.
    pub underlying: Underlying,
    /// The price of the underlying.
    pub underlying_price: PriceCents,
    /// The strike of the short call.
    pub short_call_strike: PriceCents,
    /// The strike of the short put.
    pub short_put_strike: PriceCents,
    /// The strike of the long call.
    pub long_call_strike: PriceCents,
    /// The strike of the long put.
    pub long_put_strike: PriceCents,
    /// When all legs expire.
    pub expiration: ExpirationDate,
    /// The implied volatility.
    pub implied_volatility: Decimal,
    /// The risk-free rate.
    pub risk_free_rate: Decimal,
    /// The dividend yield.
    pub dividend_yield: Decimal,
    /// The contracts per leg.
    pub quantity: Quantity,
    /// The premium of the short call.
    pub premium_short_call: PriceCents,
    /// The premium of the short put.
    pub premium_short_put: PriceCents,
    /// The premium of the long call.
    pub premium_long_call: PriceCents,
    /// The premium of the long put.
    pub premium_long_put: PriceCents,
    /// The fee per contract to open.
    pub open_fee: PriceCents,
    /// The fee per contract to close.
    pub close_fee: PriceCents,
}

impl Clone for IronCondorSpec {
    fn clone(&self) -> (r: Self)
        ensures
            r == *self,
    {
        IronCondorSpec {
            underlying: self.underlying.clone(),
            underlying_price: self.underlying_price,
            short_call_strike: self.short_call_strike,
            short_put_strike: self.short_put_strike,
            long_call_strike: self.long_call_strike,
            long_put_strike: self.long_put_strike,
            expiration: self.expiration,
            implied_volatility: self.implied_volatility,
            risk_free_rate: self.risk_free_rate,
            dividend_yield: self.dividend_yield,
            quantity: self.quantity,
            premium_short_call: self.premium_short_call,
            premium_short_put: self.premium_short_put,
            premium_long_call: self.premium_long_call,
            premium_long_put: self.premium_long_put,
            open_fee: self.open_fee,
            close_fee: self.close_fee,
        }
    }
}

/// The parameters of a short strangle. Money is in integer cents.
#[derive(Debug, PartialEq)]
pub struct ShortStrangleSpec {
    /// The underlying.
    pub underlying: Underlying,
    /// The price of the underlying.
    pub underlying_price: PriceCents,
    /// The strike of the short call.
    pub call_strike: PriceCents,
    /// The strike of the short put.
    pub put_strike: PriceCents,
    /// When both legs expire.
    pub expiration: ExpirationDate,
    /// The implied volatility of the call.
    pub call_implied_volatility: Decimal,
    /// The implied volatility of the put.
    pub put_implied_volatility: Decimal,
    /// The risk-free rate.
    pub risk_free_rate: Decimal,
    /// The dividend yield.
    pub dividend_yield: Decimal,
    /// The contracts per leg.
    pub quantity: Quantity,
    /// The premium of the call.
    pub premium_short_call: PriceCents,
    /// The premium of the put.
    pub premium_short_put: PriceCents,
    /// The fee per contract to open the call.
    pub open_fee_short_call: PriceCents,
    /// The fee per contract to close the call.
    pub close_fee_short_call: PriceCents,
    /// The fee per contract to open the put.
    pub open_fee_short_put: PriceCents,
    /// The fee per contract to close the put.
    pub close_fee_short_put: PriceCents,
}

impl Clone for ShortStrangleSpec {
    fn clone(&self) -> (r: Self)
        ensures
            r == *self,
    {
        ShortStrangleSpec {
            underlying: self.underlying.clone(),
            underlying_price: self.underlying_price,
            call_strike: self.call_strike,
            put_strike: self.put_strike,
            expiration: self.expiration,
            call_implied_volatility: self.call_implied_volatility,
            put_implied_volatility: self.put_implied_volatility,
            risk_free_rate: self.risk_free_rate,
            dividend_yield: self.dividend_yield,
            quantity: self.quantity,
            premium_short_call: self.premium_short_call,
            premium_short_put: self.premium_short_put,
            open_fee_short_call: self.open_fee_short_call,
            close_fee_short_call: self.close_fee_short_call,
            open_fee_short_put: self.open_fee_short_put,
            close_fee_short_put: self.close_fee_short_put,
        }
    }
}

/// An explicit set of legs.
#[derive(Debug, PartialEq)]
pub struct LegSetSpec {
    /// The underlying of every leg.
    pub underlying: Underlying,
    /// The price of the underlying.
    pub underlying_price: PriceCents,
    /// The legs.
    pub legs: Vec<LegSpec>,
    /// The risk-free rate. It may be negative.
    pub risk_free_rate: Decimal,
    /// The dividend yield.
    pub dividend_yield: Decimal,
}

impl LegSetSpec {
    /// Whether two leg sets say the same.
    pub open spec fn same_as(self, other: Self) -> bool {
        &&& self.underlying == other.underlying
        &&& self.underlying_price == other.underlying_price
        &&& self.legs@ == other.legs@
        &&& self.risk_free_rate == other.risk_free_rate
        &&& self.dividend_yield == other.dividend_yield
    }
}

impl Clone for LegSetSpec {
    fn clone(&self) -> (r: Self)
        ensures
            r.same_as(*self),
    {
        let legs = self.legs.clone();
        assert(legs@ =~= self.legs@);
        LegSetSpec {
            underlying: self.underlying.clone(),
            underlying_price: self.underlying_price,
            legs,
            risk_free_rate: self.risk_free_rate,
            dividend_yield: self.dividend_yield,
        }
    }
}

/// One leg of a leg set.
#[derive(Debug, Clone, Copy, PartialEq)]
pub struct LegSpec {
    /// Long or short.
    pub side: Side,
    /// Call or put.
    pub style: OptionStyle,
    /// The strike.
    pub strike: PriceCents,
    /// When this leg expires.
    pub expiration: ExpirationDate,
    /// The contracts of this leg.
    pub quantity: Quantity,
    /// The implied volatility of this leg.
    pub implied_volatility: Decimal,
}

/// The order of two expirations of one value by their written form.
pub open spec fn expiration_text_order(a: ExpirationDate, b: ExpirationDate) -> Ordering {
    match (a, b) {
        (ExpirationDate::Days(x), ExpirationDate::Days(y)) => text_order(
            decimal_text(x.dec().mant(), x.dec().places()),
            decimal_text(y.dec().mant(), y.dec().places()),
        ),
        _ => Ordering::Equal,
    }
}

/// The order of two decimals of one value by their written form.
pub open spec fn decimal_text_order(a: Decimal, b: Decimal) -> Ordering {
    text_order(decimal_text(a.mant(), a.places()), decimal_text(b.mant(), b.places()))
}

/// The canonical order of legs: by expiration, strike, style, side, quantity
/// and implied volatility. Where all of these agree in value, by how the
/// volatility and then the expiration are written.
pub open spec fn leg_order(a: LegSpec, b: LegSpec) -> Ordering {
    if a.expiration@ != b.expiration@ {
        triple_order(a.expiration@.rank(), b.expiration@.rank())
    } else if a.strike.0 != b.strike.0 {
        int_order(a.strike.0 + 0, b.strike.0 + 0)
    } else if a.style != b.style {
        int_order(a.style.rank(), b.style.rank())
    } else if a.side != b.side {
        int_order(a.side.rank(), b.side.rank())
    } else if a.quantity.n() != b.quantity.n() {
        int_order(a.quantity.n(), b.quantity.n())
    } else if a.implied_volatility@ != b.implied_volatility@ {
        int_order(a.implied_volatility@, b.implied_volatility@)
    } else if decimal_text_order(a.implied_volatility, b.implied_volatility) != Ordering::Equal {
        decimal_text_order(a.implied_volatility, b.implied_volatility)
    } else {
        expiration_text_order(a.expiration, b.expiration)
    }
}

/// Whether one leg may stand before another.
pub open spec fn leg_le(a: LegSpec, b: LegSpec) -> bool {
    leg_order(a, b) != Ordering::Greater
}

/// Whether an expiration's numbers are in range.
pub open spec fn expiration_wf(e: ExpirationDate) -> bool {
    match e {
        ExpirationDate::Days(days) => days.wf(),
        ExpirationDate::DateTime(t) => t.wf(),
    }
}

/// Whether a leg's numbers are in range.
pub open spec fn leg_wf(leg: LegSpec) -> bool {
    leg.implied_volatility.wf() && expiration_wf(leg.expiration)
}

/// Legs are totally ordered, and only a leg written the same is equal in
/// order.
pub proof fn law_leg_order_total(a: LegSpec, b: LegSpec)
    requires
        leg_wf(a),
        leg_wf(b),
    ensures
        leg_order(b, a) == reversed(leg_order(a, b)),
        (leg_order(a, b) == Ordering::Equal) == (a == b),
{
    let x = decimal_text(a.implied_volatility.mant(), a.implied_volatility.places());
    let y = decimal_text(b.implied_volatility.mant(), b.implied_volatility.places());
    lemma_text_order_reversed(x, y);
    match (a.expiration, b.expiration) {
        (ExpirationDate::Days(d), ExpirationDate::Days(e)) => {
            lemma_text_order_reversed(
                decimal_text(d.dec().mant(), d.dec().places()),
                decimal_text(e.dec().mant(), e.dec().places()),
            );
        },
        _ => {},
    }
    if leg_order(a, b) == Ordering::Equal {
        law_written_form_tells_decimals_apart(a.implied_volatility, b.implied_volatility);
        lemma_of_parts(a.implied_volatility);
        lemma_of_parts(b.implied_volatility);
        a.quantity.lemma_of();
        b.quantity.lemma_of();
        match (a.expiration, b.expiration) {
            (ExpirationDate::Days(d), ExpirationDate::Days(e)) => {
                law_written_form_tells_decimals_apart(d.dec(), e.dec());
                lemma_of_parts(d.dec());
                lemma_of_parts(e.dec());
                Positive::lemma_dec(d, e);
            },
            (ExpirationDate::DateTime(s), ExpirationDate::DateTime(t)) => {
                s.lemma_of();
                t.lemma_of();
            },
            _ => {},
        }
    }
}

/// The order of legs is transitive.
pub proof fn law_leg_order_transitive(a: LegSpec, b: LegSpec, c: LegSpec)
    requires
        leg_wf(a),
        leg_wf(b),
        leg_wf(c),
        leg_le(a, b),
        leg_le(b, c),
    ensures
        leg_le(a, c),
{
    law_leg_order_total(a, b);
    law_leg_order_total(b, c);
    if a != b && b != c {
        let x = decimal_text(a.implied_volatility.mant(), a.implied_volatility.places());
        let y = decimal_text(b.implied_volatility.mant(), b.implied_volatility.places());
        let z = decimal_text(c.implied_volatility.mant(), c.implied_volatility.places());
        lemma_text_order_reversed(x, y);
        lemma_text_order_reversed(y, z);
        lemma_text_order_reversed(x, z);
        if text_order(x, y) == Ordering::Less && text_order(y, z) == Ordering::Less {
            lemma_text_order_transitive(x, y, z);
        }
        match (a.expiration, b.expiration, c.expiration) {
            (ExpirationDate::Days(d), ExpirationDate::Days(e), ExpirationDate::Days(f)) => {
                let p = decimal_text(d.dec().mant(), d.dec().places());
                let q = decimal_text(e.dec().mant(), e.dec().places());
                let r = decimal_text(f.dec().mant(), f.dec().places());
                lemma_text_order_reversed(p, q);
                lemma_text_order_reversed(q, r);
                lemma_text_order_reversed(p, r);
                if text_order(p, q) == Ordering::Less && text_order(q, r) == Ordering::Less {
                    lemma_text_order_transitive(p, q, r);
                }
            },
            _ => {},
        }
    }
}

/// Compare two decimals of one value by their written form.
fn compare_written(a: Decimal, b: Decimal) -> (r: Ordering)
    ensures
        r == decimal_text_order(a, b),
{
    proof {
        use_type_invariant(&a);
        use_type_invariant(&b);
        lemma_decimal_text_ascii(a.mant(), a.places());
        lemma_decimal_text_ascii(b.mant(), b.places());
    }
    let x = written(a);
    let y = written(b);
    compare_text(x.as_str(), y.as_str())
}

/// Compare two expirations of one value by their written form.
fn compare_expirations_written(a: ExpirationDate, b: ExpirationDate) -> (r: Ordering)
    ensures
        r == expiration_text_order(a, b),
{
    match (a, b) {
        (ExpirationDate::Days(x), ExpirationDate::Days(y)) => compare_written(
            x.to_dec(),
            y.to_dec(),
        ),
        _ => Ordering::Equal,
    }
}

/// Compare two integers.
fn compare_u64(a: u64, b: u64) -> (r: Ordering)
    ensures
        r == int_order(a + 0, b + 0),
{
    if a < b {
        Ordering::Less
    } else if a == b {
        Ordering::Equal
    } else {
        Ordering::Greater
    }
}

/// Compare two counts.
fn compare_u32(a: u32, b: u32) -> (r: Ordering)
    ensures
        r == int_order(a + 0, b + 0),
{
    if a < b {
        Ordering::Less
    } else if a == b {
        Ordering::Equal
    } else {
        Ordering::Greater
    }
}

/// Compare two styles: calls before puts.
fn compare_styles(a: OptionStyle, b: OptionStyle) -> (r: Ordering)
    ensures
        r == int_order(a.rank(), b.rank()),
{
    match (a, b) {
        (OptionStyle::Call, OptionStyle::Put) => Ordering::Less,
        (OptionStyle::Put, OptionStyle::Call) => Ordering::Greater,
        _ => Ordering::Equal,
    }
}

/// Compare two sides: longs before shorts.
fn compare_sides(a: Side, b: Side) -> (r: Ordering)
    ensures
        r == int_order(a.rank(), b.rank()),
{
    match (a, b) {
        (Side::Long, Side::Short) => Ordering::Less,
        (Side::Short, Side::Long) => Ordering::Greater,
        _ => Ordering::Equal,
    }
}

impl LegSpec {
    /// The canonical order of legs: by expiration, strike, style, side,
    /// quantity and implied volatility, then by how the volatility and the
    /// expiration are written.
    pub fn canonical_cmp(&self, other: &Self) -> (r: Ordering)
        ensures
            r == leg_order(*self, *other),
    {
        match expiration_exact_cmp(&self.expiration, &other.expiration) {
            Ordering::Equal => {},
            decided => {
                return decided;
            },
        }
        match compare_u64(self.strike.0, other.strike.0) {
            Ordering::Equal => {},
            decided => {
                return decided;
            },
        }
        match compare_styles(self.style, other.style) {
            Ordering::Equal => {},
            decided => {
                return decided;
            },
        }
        match compare_sides(self.side, other.side) {
            Ordering::Equal => {},
            decided => {
                return decided;
            },
        }
        match compare_u32(self.quantity.value(), other.quantity.value()) {
            Ordering::Equal => {},
            decided => {
                return decided;
            },
        }
        match compare_decimals(self.implied_volatility, other.implied_volatility) {
            Ordering::Equal => {},
            decided => {
                return decided;
            },
        }
        match compare_written(self.implied_volatility, other.implied_volatility) {
            Ordering::Equal => {},
            decided => {
                return decided;
            },
        }
        compare_expirations_written(self.expiration, other.expiration)
    }

    /// Whether this leg may stand before another.
    fn may_precede(&self, other: &Self) -> (r: bool)
        ensures
            r == leg_le(*self, *other),
    {
        match self.canonical_cmp(other) {
            Ordering::Greater => false,
            _ => true,
        }
    }
}

/// Whether legs stand in canonical order.
pub open spec fn legs_sorted(legs: Seq<LegSpec>) -> bool {
    forall|i: int, j: int|
        #![trigger legs[i], legs[j]]
        0 <= i < j < legs.len() ==> leg_le(legs[i], legs[j])
}

/// Whether all legs' numbers are in range.
pub open spec fn legs_wf(legs: Seq<LegSpec>) -> bool {
    forall|i: int| 0 <= i < legs.len() ==> leg_wf(#[trigger] legs[i])
}

/// A leg's numbers are in range.
fn leg_in_range(leg: &LegSpec)
    ensures
        leg_wf(*leg),
{
    proof {
        use_type_invariant(&leg.implied_volatility);
    }
    match &leg.expiration {
        ExpirationDate::Days(days) => {
            proof {
                use_type_invariant(days);
            }
        },
        ExpirationDate::DateTime(t) => {
            proof {
                use_type_invariant(t);
            }
        },
    }
}

/// A leg put between those that may stand before it and those that it may
/// stand before leaves the legs in order.
proof fn lemma_insert_keeps_order(legs: Seq<LegSpec>, leg: LegSpec, at: int)
    requires
        legs_sorted(legs),
        legs_wf(legs),
        leg_wf(leg),
        0 <= at <= legs.len(),
        forall|k: int| 0 <= k < at ==> leg_le(#[trigger] legs[k], leg),
        at < legs.len() ==> !leg_le(legs[at], leg),
    ensures
        legs_sorted(legs.insert(at, leg)),
        legs_wf(legs.insert(at, leg)),
{
    let after = legs.insert(at, leg);
    assert forall|i: int| 0 <= i < after.len() implies leg_wf(#[trigger] after[i]) by {
        if i < at {
            assert(after[i] == legs[i]);
        } else if i > at {
            assert(after[i] == legs[i - 1]);
        }
    }
    assert forall|i: int, j: int|
        #![trigger after[i], after[j]]
        0 <= i < j < after.len() implies leg_le(after[i], after[j]) by {
        if j < at {
            assert(after[i] == legs[i] && after[j] == legs[j]);
        } else if j == at {
            assert(after[i] == legs[i] && after[j] == leg);
        } else if i < at {
            assert(after[i] == legs[i] && after[j] == legs[j - 1]);
        } else if i == at {
            assert(after[j] == legs[j - 1]);
            law_leg_order_total(legs[at], leg);
            if j - 1 > at {
                law_leg_order_transitive(leg, legs[at], legs[j - 1]);
            }
        } else {
            assert(after[i] == legs[i - 1] && after[j] == legs[j - 1]);
        }
    }
}

/// The same legs in canonical order.
pub fn sorted_legs(legs: &Vec<LegSpec>) -> (sorted: Vec<LegSpec>)
    ensures
        are_canonical_legs_of(sorted@, legs@),
{
    let mut sorted: Vec<LegSpec> = Vec::with_capacity(legs.len());
    let mut i: usize = 0;
    assert(legs@.take(0) =~= Seq::<LegSpec>::empty());
    while i < legs.len()
        invariant
            i <= legs.len(),
            sorted@.len() == i,
            legs_sorted(sorted@),
            legs_wf(sorted@),
            sorted@.to_multiset() == legs@.take(i as int).to_multiset(),
        decreases legs.len() - i,
    {
        let leg: LegSpec = legs[i];
        leg_in_range(&leg);
        let mut at: usize = 0;
        while at < sorted.len() && sorted[at].may_precede(&leg)
            invariant
                at <= sorted.len(),
                forall|k: int| 0 <= k < at ==> leg_le(#[trigger] sorted@[k], leg),
            decreases sorted.len() - at,
        {
            at = at + 1;
        }
        proof {
            lemma_insert_keeps_order(sorted@, leg, at as int);
            vstd::seq_lib::to_multiset_insert(sorted@, at as int, leg);
            vstd::seq_lib::to_multiset_build(legs@.take(i as int), leg);
            assert(legs@.take(i + 1) =~= legs@.take(i as int).push(leg));
        }
        sorted.insert(at, leg);
        i = i + 1;
    }
    assert(legs@.take(legs@.len() as int) =~= legs@);
    sorted
}

/// Legs in canonical order are told apart by what they are, not by how they
/// got there.
pub proof fn lemma_sorted_once(a: Seq<LegSpec>, b: Seq<LegSpec>)
    requires
        legs_sorted(a),
        legs_sorted(b),
        legs_wf(a),
        legs_wf(b),
        a.to_multiset() == b.to_multiset(),
    ensures
        a == b,
    decreases a.len(),
{
    vstd::seq_lib::to_multiset_len(a);
    vstd::seq_lib::to_multiset_len(b);
    if a.len() == 0 {
        assert(a =~= b);
    } else {
        vstd::seq_lib::to_multiset_contains(b, a[0]);
        vstd::seq_lib::to_multiset_contains(a, a[0]);
        assert(a.contains(a[0]));
        assert(b.contains(a[0]));
        vstd::seq_lib::to_multiset_contains(a, b[0]);
        vstd::seq_lib::to_multiset_contains(b, b[0]);
        assert(b.contains(b[0]));
        assert(a.contains(b[0]));
        let i = b.index_of(a[0]);
        let j = a.index_of(b[0]);
        law_leg_order_total(a[0], b[0]);
        assert(leg_le(b[0], b[i]) || i == 0);
        assert(leg_le(a[0], a[j]) || j == 0);
        assert(a[0] == b[0]);
        vstd::seq_lib::to_multiset_remove(a, 0);
        vstd::seq_lib::to_multiset_remove(b, 0);
        assert(legs_sorted(a.remove(0))) by {
            assert forall|x: int, y: int|
                #![trigger a.remove(0)[x], a.remove(0)[y]]
                0 <= x < y < a.remove(0).len() implies leg_le(a.remove(0)[x], a.remove(0)[y]) by {
                assert(leg_le(a[x + 1], a[y + 1]));
            }
        }
        assert(legs_sorted(b.remove(0))) by {
            assert forall|x: int, y: int|
                #![trigger b.remove(0)[x], b.remove(0)[y]]
                0 <= x < y < b.remove(0).len() implies leg_le(b.remove(0)[x], b.remove(0)[y]) by {
                assert(leg_le(b[x + 1], b[y + 1]));
            }
        }
        lemma_sorted_once(a.remove(0), b.remove(0));
        assert(a =~= seq![a[0]] + a.remove(0));
        assert(b =~= seq![b[0]] + b.remove(0));
    }
}

/// Whether some legs are others in canonical order.
pub open spec fn are_canonical_legs_of(sorted: Seq<LegSpec>, legs: Seq<LegSpec>) -> bool {
    &&& legs_sorted(sorted)
    &&& legs_wf(sorted)
    &&& sorted.to_multiset() == legs.to_multiset()
}

/// Whether one specification is the canonical form of another: the named
/// kinds are as they are, and the legs of a set stand in canonical order.
pub open spec fn is_canonical_of(canonical: StrategySpec, spec: StrategySpec) -> bool {
    match spec {
        StrategySpec::Legs(legs) => {
            &&& canonical matches StrategySpec::Legs(sorted)
            &&& sorted.underlying == legs.underlying
            &&& sorted.underlying_price == legs.underlying_price
            &&& sorted.risk_free_rate == legs.risk_free_rate
            &&& sorted.dividend_yield == legs.dividend_yield
            &&& are_canonical_legs_of(sorted.legs@, legs.legs@)
        },
        _ => canonical == spec,
    }
}

impl LegSetSpec {
    /// The same leg set with its legs in canonical order.
    pub fn canonical(&self) -> (r: Self)
        ensures
            is_canonical_of(StrategySpec::Legs(r), StrategySpec::Legs(*self)),
    {
        LegSetSpec {
            underlying: self.underlying.clone(),
            underlying_price: self.underlying_price,
            legs: sorted_legs(&self.legs),
            risk_free_rate: self.risk_free_rate,
            dividend_yield: self.dividend_yield,
        }
    }
}

impl StrategySpec {
    /// The tag of the kind.
    pub open spec fn kind_text(self) -> Seq<char> {
        match self {
            StrategySpec::IronCondor(_) => "iron_condor"@,
            StrategySpec::ShortStrangle(_) => "short_strangle"@,
            StrategySpec::Legs(_) => "legs"@,
        }
    }

    /// The tag of the kind.
    pub fn kind(&self) -> (tag: &'static str)
        ensures
            tag@ == self.kind_text(),
    {
        match self {
            StrategySpec::IronCondor(_) => "iron_condor",
            StrategySpec::ShortStrangle(_) => "short_strangle",
            StrategySpec::Legs(_) => "legs",
        }
    }

    /// The canonical form: the form that is recorded and run.
    pub fn canonical(&self) -> (r: Self)
        ensures
            is_canonical_of(r, *self),
    {
        match self {
            StrategySpec::IronCondor(spec) => StrategySpec::IronCondor(spec.clone()),
            StrategySpec::ShortStrangle(spec) => StrategySpec::ShortStrangle(spec.clone()),
            StrategySpec::Legs(spec) => StrategySpec::Legs(spec.canonical()),
        }
    }
}

/// Whether two specifications say the same, legs in their order.
pub open spec fn same_spec(a: StrategySpec, b: StrategySpec) -> bool {
    match (a, b) {
        (StrategySpec::Legs(x), StrategySpec::Legs(y)) => {
            &&& x.underlying == y.underlying
            &&& x.underlying_price == y.underlying_price
            &&& x.risk_free_rate == y.risk_free_rate
            &&& x.dividend_yield == y.dividend_yield
            &&& x.legs@ == y.legs@
        },
        _ => a == b,
    }
}

/// The canonical form of a canonical form is the same.
pub proof fn law_canonical_is_idempotent(
    spec: StrategySpec,
    once: StrategySpec,
    twice: StrategySpec,
)
    requires
        is_canonical_of(once, spec),
        is_canonical_of(twice, once),
    ensures
        same_spec(once, twice),
{
    match (once, twice) {
        (StrategySpec::Legs(a), StrategySpec::Legs(b)) => {
            lemma_sorted_once(a.legs@, b.legs@);
        },
        _ => {},
    }
}

/// The canonical form does not depend on the order in which the legs were
/// written.
pub proof fn law_canonical_forgets_leg_order(
    a: LegSetSpec,
    b: LegSetSpec,
    canonical_a: StrategySpec,
    canonical_b: StrategySpec,
)
    requires
        a.underlying == b.underlying,
        a.underlying_price == b.underlying_price,
        a.risk_free_rate == b.risk_free_rate,
        a.dividend_yield == b.dividend_yield,
        a.legs@.to_multiset() == b.legs@.to_multiset(),
        is_canonical_of(canonical_a, StrategySpec::Legs(a)),
        is_canonical_of(canonical_b, StrategySpec::Legs(b)),
    ensures
        same_spec(canonical_a, canonical_b),
{
    match (canonical_a, canonical_b) {
        (StrategySpec::Legs(x), StrategySpec::Legs(y)) => {
            lemma_sorted_once(x.legs@, y.legs@);
        },
        _ => {},
    }
}

/// Legs are told apart first by when they expire, then by their strike, lowest
/// first, then by their style, calls first, then by their side, longs first,
/// then by their size and their volatility, smallest first.
pub proof fn law_legs_order_part_by_part(a: LegSpec, b: LegSpec)
    ensures
        ({
            let chain = a.expiration@ == b.expiration@;
            let strike = chain && a.strike == b.strike;
            let style = strike && a.style == b.style;
            let side = style && a.side == b.side;
            let size = side && a.quantity.n() == b.quantity.n();
            &&& match (a.expiration@, b.expiration@) {
                (ExpirationView::Days(x), ExpirationView::Days(y)) => x < y ==> leg_order(a, b)
                    == Ordering::Less,
                (ExpirationView::Days(_), ExpirationView::DateTime(_, _)) => leg_order(a, b)
                    == Ordering::Less,
                (ExpirationView::DateTime(_, _), ExpirationView::Days(_)) => leg_order(a, b)
                    == Ordering::Greater,
                (ExpirationView::DateTime(s, m), ExpirationView::DateTime(t, n)) => s < t || (s == t
                    && m < n) ==> leg_order(a, b) == Ordering::Less,
            }
            &&& chain && a.strike.0 < b.strike.0 ==> leg_order(a, b) == Ordering::Less
            &&& strike && a.style is Call && b.style is Put ==> leg_order(a, b) == Ordering::Less
            &&& style && a.side is Long && b.side is Short ==> leg_order(a, b) == Ordering::Less
            &&& side && a.quantity.n() < b.quantity.n() ==> leg_order(a, b) == Ordering::Less
            &&& size && a.implied_volatility@ < b.implied_volatility@ ==> leg_order(a, b)
                == Ordering::Less
        }),
{
}

/// The canonical form says the same of the position: each leg as often as it
/// was written, on the same underlying at the same rates.
pub proof fn law_canonical_keeps_every_leg(
    spec: LegSetSpec,
    canonical: StrategySpec,
    leg: LegSpec,
)
    requires
        is_canonical_of(canonical, StrategySpec::Legs(spec)),
    ensures
        canonical matches StrategySpec::Legs(sorted) && {
            &&& sorted.underlying == spec.underlying
            &&& sorted.underlying_price == spec.underlying_price
            &&& sorted.risk_free_rate == spec.risk_free_rate
            &&& sorted.dividend_yield == spec.dividend_yield
            &&& sorted.legs@.len() == spec.legs@.len()
            &&& sorted.legs@.contains(leg) <==> spec.legs@.contains(leg)
        },
{
    let sorted = canonical->Legs_0;
    vstd::seq_lib::to_multiset_len(sorted.legs@);
    vstd::seq_lib::to_multiset_len(spec.legs@);
    vstd::seq_lib::to_multiset_contains(sorted.legs@, leg);
    vstd::seq_lib::to_multiset_contains(spec.legs@, leg);
}

/// Canonical legs go upwards: none expires before one that it follows, and of
/// those that expire together none has a lower strike than one that it follows.
pub proof fn law_canonical_legs_go_upwards(
    sorted: Seq<LegSpec>,
    legs: Seq<LegSpec>,
    i: int,
    j: int,
)
    requires
        are_canonical_legs_of(sorted, legs),
        0 <= i < j < sorted.len(),
    ensures
        ({
            let (a, b) = (sorted[i], sorted[j]);
            &&& match (a.expiration@, b.expiration@) {
                (ExpirationView::Days(x), ExpirationView::Days(y)) => x <= y,
                (ExpirationView::Days(_), ExpirationView::DateTime(_, _)) => true,
                (ExpirationView::DateTime(_, _), ExpirationView::Days(_)) => false,
                (ExpirationView::DateTime(s, m), ExpirationView::DateTime(t, n)) => s < t || (s == t
                    && m <= n),
            }
            &&& a.expiration@ == b.expiration@ ==> a.strike.0 <= b.strike.0
            &&& a.expiration@ == b.expiration@ && a.strike == b.strike && b.style is Call
                ==> a.style is Call
        }),
{
    assert(leg_le(sorted[i], sorted[j]));
    law_legs_order_part_by_part(sorted[i], sorted[j]);
    law_legs_order_part_by_part(sorted[j], sorted[i]);
    law_leg_order_total(sorted[i], sorted[j]);
}

} // verus!
