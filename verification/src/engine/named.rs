//! The named strategies: their legs, and the terms on which they stand.

use crate::data::convert::positive_from_price;
use crate::domain::decimal::{written, Decimal};
use crate::domain::expiration::ExpirationDate;
use crate::domain::positive::Positive;
use crate::domain::{IronCondorSpec, OptionStyle, PriceCents, Quantity, ShortStrangleSpec, Side};
use crate::engine::exit_policy::parts;
use crate::error::{BacktestError, ErrorKind};
use optionstratlib::strategies::base::Positionable;
use optionstratlib::strategies::{IronCondor as OutsideCondor, ShortStrangle as OutsideStrangle};
use vstd::prelude::*;
use vstd::string::*;

verus! {

/// One leg of a strategy.
#[derive(Debug, Clone, Copy)]
pub struct StrategyLeg {
    /// The strike, in dollars.
    pub strike: Positive,
    /// Call or put.
    pub style: OptionStyle,
    /// Long or short.
    pub side: Side,
    /// The number of contracts.
    pub quantity: Positive,
    /// When it expires.
    pub expiration: ExpirationDate,
}

/// A strategy that can say what its legs are.
pub trait PositionableStrategy {
    /// The legs; nothing where the strategy cannot say.
    open spec fn legs(&self) -> Option<Seq<StrategyLeg>> {
        arbitrary()
    }

    /// The legs, in the order in which they are opened.
    fn get_positions(&self) -> (r: Result<Vec<StrategyLeg>, BacktestError>)
        ensures
            match r {
                Ok(legs) => self.legs() == Some(legs@),
                Err(e) => self.legs() is None && e.kind() == ErrorKind::Strategy,
            },
    ;
}

/// The terms of an iron condor.
#[derive(Debug, Clone, Copy)]
pub struct CondorTerms {
    /// The price of the underlying.
    pub underlying_price: Positive,
    /// The strike of the short call.
    pub short_call_strike: Positive,
    /// The strike of the short put.
    pub short_put_strike: Positive,
    /// The strike of the long call.
    pub long_call_strike: Positive,
    /// The strike of the long put.
    pub long_put_strike: Positive,
    /// When all legs expire.
    pub expiration: ExpirationDate,
    /// The implied volatility.
    pub implied_volatility: Positive,
    /// The risk-free rate.
    pub risk_free_rate: Decimal,
    /// The dividend yield.
    pub dividend_yield: Positive,
    /// The contracts per leg.
    pub quantity: Positive,
    /// The premium of the short call.
    pub premium_short_call: Positive,
    /// The premium of the short put.
    pub premium_short_put: Positive,
    /// The premium of the long call.
    pub premium_long_call: Positive,
    /// The premium of the long put.
    pub premium_long_put: Positive,
    /// The fee per contract to open.
    pub open_fee: Positive,
    /// The fee per contract to close.
    pub close_fee: Positive,
}

/// The numbers of an iron condor, each as its digits and places.
pub open spec fn condor_numbers(t: CondorTerms) -> Seq<(int, int)> {
    seq![
        parts(t.underlying_price.dec()),
        parts(t.short_call_strike.dec()),
        parts(t.short_put_strike.dec()),
        parts(t.long_call_strike.dec()),
        parts(t.long_put_strike.dec()),
        parts(t.implied_volatility.dec()),
        parts(t.risk_free_rate),
        parts(t.dividend_yield.dec()),
        parts(t.quantity.dec()),
        parts(t.premium_short_call.dec()),
        parts(t.premium_short_put.dec()),
        parts(t.premium_long_call.dec()),
        parts(t.premium_long_put.dec()),
        parts(t.open_fee.dec()),
        parts(t.close_fee.dec()),
    ]
}

/// What an iron condor needs: an underlying and contracts that are there,
/// strikes in order, and a premium for what is sold.
pub open spec fn condor_in_order(symbol: Seq<char>, t: CondorTerms) -> bool {
    &&& symbol.len() > 0
    &&& t.underlying_price@ > 0
    &&& t.quantity@ > 0
    &&& 0 < t.long_put_strike@ <= t.short_put_strike@ <= t.short_call_strike@
        <= t.long_call_strike@
    &&& t.premium_short_call@ > 0
    &&& t.premium_short_put@ > 0
}

/// Whether `optionstratlib::strategies::IronCondor::new` takes a symbol and
/// some numbers.
pub uninterp spec fn condor_stands(symbol: Seq<char>, numbers: Seq<(int, int)>) -> bool;

/// Validate by `optionstratlib::strategies::IronCondor::new`, which takes terms
/// that are in order and whose break-even prices it can compute. Whether it does
/// depends on the symbol and the numbers alone. Nothing is claimed of the text
/// of a refusal.
#[verifier::external_body]
fn check_condor(symbol: &str, t: &CondorTerms) -> (r: Result<(), String>)
    ensures
        r is Ok == condor_stands(symbol@, condor_numbers(*t)),
        r is Ok ==> condor_in_order(symbol@, *t),
{
    OutsideCondor::new(
        symbol.to_string(), t.underlying_price.outside(), t.short_call_strike.outside(),
        t.short_put_strike.outside(), t.long_call_strike.outside(), t.long_put_strike.outside(),
        t.expiration.outside(), t.implied_volatility.outside(), t.risk_free_rate.outside(),
        t.dividend_yield.outside(), t.quantity.outside(), t.premium_short_call.outside(),
        t.premium_short_put.outside(), t.premium_long_call.outside(),
        t.premium_long_put.outside(), t.open_fee.outside(), t.close_fee.outside(),
    ).map(|_| ()).map_err(|e| format!("{e}"))
}

/// A leg of a strategy whose legs share size and expiration.
pub open spec fn leg_of(
    strike: Positive,
    style: OptionStyle,
    side: Side,
    quantity: Positive,
    expiration: ExpirationDate,
) -> StrategyLeg {
    StrategyLeg { strike, style, side, quantity, expiration }
}

/// The legs of an iron condor, in the order in which they are opened.
pub open spec fn condor_legs(t: CondorTerms) -> Seq<StrategyLeg> {
    seq![
        leg_of(t.short_call_strike, OptionStyle::Call, Side::Short, t.quantity, t.expiration),
        leg_of(t.short_put_strike, OptionStyle::Put, Side::Short, t.quantity, t.expiration),
        leg_of(t.long_call_strike, OptionStyle::Call, Side::Long, t.quantity, t.expiration),
        leg_of(t.long_put_strike, OptionStyle::Put, Side::Long, t.quantity, t.expiration),
    ]
}

/// A four-leg iron condor.
#[derive(Debug, Clone, Copy)]
pub struct IronCondor {
    terms: CondorTerms,
}

impl IronCondor {
    /// The terms.
    pub closed spec fn terms(self) -> CondorTerms {
        self.terms
    }

    /// An iron condor on some terms.
    pub fn new(underlying_symbol: &str, terms: CondorTerms) -> (r: Result<Self, BacktestError>)
        ensures
            match r {
                Ok(condor) => condor.terms() == terms && condor_stands(
                    underlying_symbol@,
                    condor_numbers(terms),
                ) && condor_in_order(underlying_symbol@, terms),
                Err(e) => !condor_stands(underlying_symbol@, condor_numbers(terms)) && e.kind()
                    == ErrorKind::Strategy,
            },
    {
        match check_condor(underlying_symbol, &terms) {
            Ok(_) => Ok(IronCondor { terms }),
            Err(text) => Err(
                BacktestError::Strategy(
                    String::from_str("iron condor construction rejected: ").concat(text.as_str()),
                ),
            ),
        }
    }
}

/// A leg of a strategy.
fn strategy_leg(
    strike: Positive,
    style: OptionStyle,
    side: Side,
    quantity: Positive,
    expiration: ExpirationDate,
) -> (leg: StrategyLeg)
    ensures
        leg == leg_of(strike, style, side, quantity, expiration),
{
    StrategyLeg { strike, style, side, quantity, expiration }
}

impl PositionableStrategy for IronCondor {
    open spec fn legs(&self) -> Option<Seq<StrategyLeg>> {
        Some(condor_legs(self.terms()))
    }

    fn get_positions(&self) -> (r: Result<Vec<StrategyLeg>, BacktestError>)
        ensures
            r is Ok,
    {
        let t = self.terms;
        let (q, e) = (t.quantity, t.expiration);
        let mut legs: Vec<StrategyLeg> = Vec::new();
        legs.push(strategy_leg(t.short_call_strike, OptionStyle::Call, Side::Short, q, e));
        legs.push(strategy_leg(t.short_put_strike, OptionStyle::Put, Side::Short, q, e));
        legs.push(strategy_leg(t.long_call_strike, OptionStyle::Call, Side::Long, q, e));
        legs.push(strategy_leg(t.long_put_strike, OptionStyle::Put, Side::Long, q, e));
        assert(legs@ =~= condor_legs(self.terms()));
        Ok(legs)
    }
}

/// The terms of a short strangle.
#[derive(Debug, Clone, Copy)]
pub struct StrangleTerms {
    /// The price of the underlying.
    pub underlying_price: Positive,
    /// The strike of the call.
    pub call_strike: Positive,
    /// The strike of the put.
    pub put_strike: Positive,
    /// When both legs expire.
    pub expiration: ExpirationDate,
    /// The implied volatility of the call.
    pub call_implied_volatility: Positive,
    /// The implied volatility of the put.
    pub put_implied_volatility: Positive,
    /// The risk-free rate.
    pub risk_free_rate: Decimal,
    /// The dividend yield.
    pub dividend_yield: Positive,
    /// The contracts per leg.
    pub quantity: Positive,
    /// The premium of the call.
    pub premium_short_call: Positive,
    /// The premium of the put.
    pub premium_short_put: Positive,
    /// The fee per contract to open the call.
    pub open_fee_short_call: Positive,
    /// The fee per contract to close the call.
    pub close_fee_short_call: Positive,
    /// The fee per contract to open the put.
    pub open_fee_short_put: Positive,
    /// The fee per contract to close the put.
    pub close_fee_short_put: Positive,
}

/// The numbers of a short strangle, each as its digits and places.
pub open spec fn strangle_numbers(t: StrangleTerms) -> Seq<(int, int)> {
    seq![
        parts(t.underlying_price.dec()),
        parts(t.call_strike.dec()),
        parts(t.put_strike.dec()),
        parts(t.call_implied_volatility.dec()),
        parts(t.put_implied_volatility.dec()),
        parts(t.risk_free_rate),
        parts(t.dividend_yield.dec()),
        parts(t.quantity.dec()),
        parts(t.premium_short_call.dec()),
        parts(t.premium_short_put.dec()),
        parts(t.open_fee_short_call.dec()),
        parts(t.close_fee_short_call.dec()),
        parts(t.open_fee_short_put.dec()),
        parts(t.close_fee_short_put.dec()),
    ]
}

/// The strikes of the call and of the put, each as digits and places, that
/// `optionstratlib::strategies::ShortStrangle::new` gives a symbol and some
/// numbers; nothing where it refuses them.
pub uninterp spec fn strangle_strikes(symbol: Seq<char>, numbers: Seq<(int, int)>) -> Option<
    ((int, int), (int, int)),
>;

/// The short strangles of `optionstratlib`.
#[verifier::external_type_specification]
#[verifier::external_body]
pub struct ExShortStrangle(OutsideStrangle);

impl StrangleTerms {
    /// The short strangle that `optionstratlib::strategies::ShortStrangle::new`
    /// makes of the terms, to be handed to an outside function. Nothing is
    /// claimed of what is inside it.
    #[verifier::external_body]
    fn outside(&self, symbol: &str) -> (r: Result<OutsideStrangle, String>) {
        OutsideStrangle::new(
            symbol.to_string(), self.underlying_price.outside(), self.call_strike.outside(),
            self.put_strike.outside(), self.expiration.outside(),
            self.call_implied_volatility.outside(), self.put_implied_volatility.outside(),
            self.risk_free_rate.outside(), self.dividend_yield.outside(), self.quantity.outside(),
            self.premium_short_call.outside(), self.premium_short_put.outside(),
            self.open_fee_short_call.outside(), self.close_fee_short_call.outside(),
            self.open_fee_short_put.outside(), self.close_fee_short_put.outside(),
        ).map_err(|e| format!("{e}"))
    }
}

/// Build by `optionstratlib::strategies::ShortStrangle::new` and read the
/// strikes back by `get_positions`, the call before the put. A strike of zero
/// is replaced by one near the underlying price; any other stays as it is. What
/// is built has an underlying and contracts, the call above the put, and a
/// premium for both. The outcome depends on the symbol and the numbers alone.
/// Nothing is claimed of the text of a refusal.
#[verifier::external_body]
fn build_strangle(symbol: &str, t: &StrangleTerms) -> (r: Result<(Decimal, Decimal), String>)
    ensures
        strangle_strikes(symbol@, strangle_numbers(*t)) == match r {
            Ok((call, put)) => Some((parts(call), parts(put))),
            Err(_) => None,
        },
        r matches Ok((call, put)) ==> {
            &&& call@ > put@ > 0
            &&& t.call_strike@ != 0 ==> call == t.call_strike.dec()
            &&& t.put_strike@ != 0 ==> put == t.put_strike.dec()
            &&& symbol@.len() > 0
            &&& t.underlying_price@ > 0
            &&& t.quantity@ > 0
            &&& t.premium_short_call@ > 0
            &&& t.premium_short_put@ > 0
        },
{
    let built = t.outside(symbol)?;
    let legs = built.get_positions().map_err(|e| format!("{e}"))?;
    let call = legs[0].option.strike_price.to_dec();
    let put = legs[1].option.strike_price.to_dec();
    Ok((Decimal::inside(call), Decimal::inside(put)))
}

/// The legs of a short strangle, in the order in which they are opened.
pub open spec fn strangle_legs(t: StrangleTerms) -> Seq<StrategyLeg> {
    seq![
        leg_of(t.call_strike, OptionStyle::Call, Side::Short, t.quantity, t.expiration),
        leg_of(t.put_strike, OptionStyle::Put, Side::Short, t.quantity, t.expiration),
    ]
}

/// The terms of a short strangle with the strikes that it is built with.
pub open spec fn struck(t: StrangleTerms, strikes: ((int, int), (int, int))) -> StrangleTerms {
    StrangleTerms {
        call_strike: Positive::of(Decimal::of(strikes.0.0, strikes.0.1)),
        put_strike: Positive::of(Decimal::of(strikes.1.0, strikes.1.1)),
        ..t
    }
}

/// A two-leg short strangle.
#[derive(Debug, Clone, Copy)]
pub struct ShortStrangle {
    terms: StrangleTerms,
}

impl ShortStrangle {
    /// The terms.
    pub closed spec fn terms(self) -> StrangleTerms {
        self.terms
    }

    /// A short strangle on some terms. Strikes that are not zero stay as they
    /// are.
    pub fn new(underlying_symbol: &str, terms: StrangleTerms) -> (r: Result<Self, BacktestError>)
        ensures
            match r {
                Ok(strangle) => {
                    &&& strangle_strikes(
                        underlying_symbol@,
                        strangle_numbers(terms),
                    ) matches Some(strikes)
                    &&& strangle.terms() == struck(terms, strikes)
                    &&& terms.call_strike@ != 0 && terms.put_strike@ != 0 ==> strangle.terms()
                        == terms
                    &&& strangle.terms().call_strike@ > strangle.terms().put_strike@ > 0
                },
                Err(e) => strangle_strikes(underlying_symbol@, strangle_numbers(terms)) is None
                    && e.kind() == ErrorKind::Strategy,
            },
    {
        match build_strangle(underlying_symbol, &terms) {
            Ok((call, put)) => match (Positive::new_decimal(call), Positive::new_decimal(put)) {
                (Ok(call_strike), Ok(put_strike)) => {
                    proof {
                        call_strike.lemma_of(call);
                        put_strike.lemma_of(put);
                        terms.call_strike.lemma_of(call);
                        terms.put_strike.lemma_of(put);
                        crate::domain::decimal::lemma_of_parts(call);
                        crate::domain::decimal::lemma_of_parts(put);
                    }
                    Ok(
                        ShortStrangle {
                            terms: StrangleTerms {
                                underlying_price: terms.underlying_price,
                                call_strike,
                                put_strike,
                                expiration: terms.expiration,
                                call_implied_volatility: terms.call_implied_volatility,
                                put_implied_volatility: terms.put_implied_volatility,
                                risk_free_rate: terms.risk_free_rate,
                                dividend_yield: terms.dividend_yield,
                                quantity: terms.quantity,
                                premium_short_call: terms.premium_short_call,
                                premium_short_put: terms.premium_short_put,
                                open_fee_short_call: terms.open_fee_short_call,
                                close_fee_short_call: terms.close_fee_short_call,
                                open_fee_short_put: terms.open_fee_short_put,
                                close_fee_short_put: terms.close_fee_short_put,
                            },
                        },
                    )
                },
                _ => Err(
                    BacktestError::Strategy(
                        String::from_str("short strangle construction rejected"),
                    ),
                ),
            },
            Err(text) => Err(
                BacktestError::Strategy(
                    String::from_str("short strangle construction rejected: ").concat(
                        text.as_str(),
                    ),
                ),
            ),
        }
    }
}

impl PositionableStrategy for ShortStrangle {
    open spec fn legs(&self) -> Option<Seq<StrategyLeg>> {
        Some(strangle_legs(self.terms()))
    }

    fn get_positions(&self) -> (r: Result<Vec<StrategyLeg>, BacktestError>)
        ensures
            r is Ok,
    {
        let t = self.terms;
        let (q, e) = (t.quantity, t.expiration);
        let mut legs: Vec<StrategyLeg> = Vec::new();
        legs.push(strategy_leg(t.call_strike, OptionStyle::Call, Side::Short, q, e));
        legs.push(strategy_leg(t.put_strike, OptionStyle::Put, Side::Short, q, e));
        assert(legs@ =~= strangle_legs(self.terms()));
        Ok(legs)
    }
}

/// Take a rate that is not negative.
pub fn positive_rate(value: Decimal, field: &str) -> (r: Result<Positive, BacktestError>)
    ensures
        match r {
            Ok(p) => value@ >= 0 && p == Positive::of(value),
            Err(e) => value@ < 0 && e.kind() == ErrorKind::Strategy,
        },
{
    match Positive::new_decimal(value) {
        Ok(p) => {
            proof {
                p.lemma_of(value);
            }
            Ok(p)
        },
        Err(text) => Err(
            BacktestError::Strategy(
                String::from_str(field).concat(" ").concat(&written(value)).concat(
                    " must be non-negative: ",
                ).concat(text.as_str()),
            ),
        ),
    }
}

/// A price as dollars.
pub open spec fn dollars_of(price: PriceCents) -> Positive {
    Positive::of(Decimal::of(price.0 as int, 2))
}

/// A price as dollars.
fn positive_dollars(price: PriceCents) -> (p: Positive)
    ensures
        p == dollars_of(price),
{
    let p = positive_from_price(price);
    proof {
        p.lemma_of(p.dec());
    }
    p
}

/// A quantity as a number of contracts.
pub open spec fn contracts_of(quantity: Quantity) -> Positive {
    Positive::of(Decimal::of(quantity.n(), 0))
}

/// A quantity as a number of contracts.
fn positive_contracts(quantity: Quantity) -> (p: Positive)
    ensures
        p == contracts_of(quantity),
{
    let d = Decimal::new(quantity.value() as i64, 0);
    proof {
        crate::domain::decimal::lemma_pow10_positive(28);
        crate::domain::decimal::lemma_scaled_sign(d.mant(), crate::domain::decimal::pow10(28));
    }
    match Positive::new_decimal(d) {
        Ok(p) => {
            proof {
                p.lemma_of(d);
            }
            p
        },
        Err(_) => Positive::zero(),
    }
}

/// The terms that a specification asks for.
pub open spec fn condor_terms(spec: IronCondorSpec) -> CondorTerms {
    CondorTerms {
        underlying_price: dollars_of(spec.underlying_price),
        short_call_strike: dollars_of(spec.short_call_strike),
        short_put_strike: dollars_of(spec.short_put_strike),
        long_call_strike: dollars_of(spec.long_call_strike),
        long_put_strike: dollars_of(spec.long_put_strike),
        expiration: spec.expiration,
        implied_volatility: Positive::of(spec.implied_volatility),
        risk_free_rate: spec.risk_free_rate,
        dividend_yield: Positive::of(spec.dividend_yield),
        quantity: contracts_of(spec.quantity),
        premium_short_call: dollars_of(spec.premium_short_call),
        premium_short_put: dollars_of(spec.premium_short_put),
        premium_long_call: dollars_of(spec.premium_long_call),
        premium_long_put: dollars_of(spec.premium_long_put),
        open_fee: dollars_of(spec.open_fee),
        close_fee: dollars_of(spec.close_fee),
    }
}

/// Whether a specification gives an iron condor: its rates are not negative and
/// its terms stand.
pub open spec fn condor_buildable(spec: IronCondorSpec) -> bool {
    &&& spec.implied_volatility@ >= 0
    &&& spec.dividend_yield@ >= 0
    &&& condor_stands(spec.underlying@, condor_numbers(condor_terms(spec)))
}

/// Build an iron condor from its specification.
pub fn build_iron_condor(spec: &IronCondorSpec) -> (r: Result<IronCondor, BacktestError>)
    ensures
        match r {
            Ok(condor) => condor_buildable(*spec) && condor.terms() == condor_terms(*spec),
            Err(e) => !condor_buildable(*spec) && e.kind() == ErrorKind::Strategy,
        },
{
    let implied_volatility = match positive_rate(
        spec.implied_volatility,
        "iron condor implied volatility",
    ) {
        Ok(rate) => rate,
        Err(e) => {
            return Err(e);
        },
    };
    let dividend_yield = match positive_rate(spec.dividend_yield, "iron condor dividend yield") {
        Ok(rate) => rate,
        Err(e) => {
            return Err(e);
        },
    };
    IronCondor::new(
        spec.underlying.as_str(),
        CondorTerms {
            underlying_price: positive_dollars(spec.underlying_price),
            short_call_strike: positive_dollars(spec.short_call_strike),
            short_put_strike: positive_dollars(spec.short_put_strike),
            long_call_strike: positive_dollars(spec.long_call_strike),
            long_put_strike: positive_dollars(spec.long_put_strike),
            expiration: spec.expiration,
            implied_volatility,
            risk_free_rate: spec.risk_free_rate,
            dividend_yield,
            quantity: positive_contracts(spec.quantity),
            premium_short_call: positive_dollars(spec.premium_short_call),
            premium_short_put: positive_dollars(spec.premium_short_put),
            premium_long_call: positive_dollars(spec.premium_long_call),
            premium_long_put: positive_dollars(spec.premium_long_put),
            open_fee: positive_dollars(spec.open_fee),
            close_fee: positive_dollars(spec.close_fee),
        },
    )
}

/// The terms that a specification asks for.
pub open spec fn strangle_terms(spec: ShortStrangleSpec) -> StrangleTerms {
    StrangleTerms {
        underlying_price: dollars_of(spec.underlying_price),
        call_strike: dollars_of(spec.call_strike),
        put_strike: dollars_of(spec.put_strike),
        expiration: spec.expiration,
        call_implied_volatility: Positive::of(spec.call_implied_volatility),
        put_implied_volatility: Positive::of(spec.put_implied_volatility),
        risk_free_rate: spec.risk_free_rate,
        dividend_yield: Positive::of(spec.dividend_yield),
        quantity: contracts_of(spec.quantity),
        premium_short_call: dollars_of(spec.premium_short_call),
        premium_short_put: dollars_of(spec.premium_short_put),
        open_fee_short_call: dollars_of(spec.open_fee_short_call),
        close_fee_short_call: dollars_of(spec.close_fee_short_call),
        open_fee_short_put: dollars_of(spec.open_fee_short_put),
        close_fee_short_put: dollars_of(spec.close_fee_short_put),
    }
}

/// Whether a specification gives a short strangle: its rates are not negative
/// and its terms stand.
pub open spec fn strangle_buildable(spec: ShortStrangleSpec) -> bool {
    &&& spec.call_implied_volatility@ >= 0
    &&& spec.put_implied_volatility@ >= 0
    &&& spec.dividend_yield@ >= 0
    &&& strangle_strikes(spec.underlying@, strangle_numbers(strangle_terms(spec))) is Some
}

/// Build a short strangle from its specification.
pub fn build_short_strangle(spec: &ShortStrangleSpec) -> (r: Result<ShortStrangle, BacktestError>)
    ensures
        match r {
            Ok(strangle) => strangle_buildable(*spec) && strangle.terms() == struck(
                strangle_terms(*spec),
                strangle_strikes(spec.underlying@, strangle_numbers(strangle_terms(*spec)))->0,
            ) && (spec.call_strike.0 != 0 && spec.put_strike.0 != 0 ==> strangle.terms()
                == strangle_terms(*spec)),
            Err(e) => !strangle_buildable(*spec) && e.kind() == ErrorKind::Strategy,
        },
{
    let call_implied_volatility = match positive_rate(
        spec.call_implied_volatility,
        "short strangle call implied volatility",
    ) {
        Ok(rate) => rate,
        Err(e) => {
            return Err(e);
        },
    };
    let put_implied_volatility = match positive_rate(
        spec.put_implied_volatility,
        "short strangle put implied volatility",
    ) {
        Ok(rate) => rate,
        Err(e) => {
            return Err(e);
        },
    };
    let dividend_yield = match positive_rate(spec.dividend_yield, "short strangle dividend yield") {
        Ok(rate) => rate,
        Err(e) => {
            return Err(e);
        },
    };
    let call_strike = positive_dollars(spec.call_strike);
    let put_strike = positive_dollars(spec.put_strike);
    proof {
        lemma_dollars_are_positive(spec.call_strike);
        lemma_dollars_are_positive(spec.put_strike);
    }
    ShortStrangle::new(
        spec.underlying.as_str(),
        StrangleTerms {
            underlying_price: positive_dollars(spec.underlying_price),
            call_strike,
            put_strike,
            expiration: spec.expiration,
            call_implied_volatility,
            put_implied_volatility,
            risk_free_rate: spec.risk_free_rate,
            dividend_yield,
            quantity: positive_contracts(spec.quantity),
            premium_short_call: positive_dollars(spec.premium_short_call),
            premium_short_put: positive_dollars(spec.premium_short_put),
            open_fee_short_call: positive_dollars(spec.open_fee_short_call),
            close_fee_short_call: positive_dollars(spec.close_fee_short_call),
            open_fee_short_put: positive_dollars(spec.open_fee_short_put),
            close_fee_short_put: positive_dollars(spec.close_fee_short_put),
        },
    )
}

/// A price is zero dollars only where it is zero cents.
pub proof fn lemma_dollars_are_positive(price: PriceCents)
    ensures
        (dollars_of(price)@ == 0) == (price.0 == 0),
        dollars_of(price).dec() == Decimal::of(price.0 as int, 2),
        dollars_of(price).dec()@ >= 0,
{
    let d = Decimal::of(price.0 as int, 2);
    dollars_of(price).lemma_of(d);
    crate::domain::decimal::lemma_parts_of(price.0 as int, 2);
    crate::domain::decimal::lemma_pow10_positive(26);
    crate::domain::decimal::lemma_scaled_sign(
        price.0 as int,
        crate::domain::decimal::pow10(26),
    );
}

/// The legs of a named strategy are opened at the strikes that its
/// specification says: a strike survives the way to dollars and back.
pub proof fn law_strikes_survive_dollars(price: PriceCents)
    ensures
        crate::domain::decimal::hundredfold_fits(dollars_of(price).dec()),
        crate::domain::money::dollars_in_cents(dollars_of(price).dec()) == price.0,
{
    lemma_dollars_are_positive(price);
    crate::domain::decimal::lemma_parts_of(price.0 as int, 2);
    crate::domain::money::law_dollars_invert_cents(price, dollars_of(price).dec());
}

/// A leg has as many contracts as its specification says: a quantity survives
/// the way to a number of contracts and back.
pub proof fn law_quantities_survive(quantity: Quantity)
    requires
        quantity.wf(),
    ensures
        crate::engine::entry::quantity_of(contracts_of(quantity)) == Ok::<Quantity, ErrorKind>(
            quantity,
        ),
{
    let d = Decimal::of(quantity.n(), 0);
    contracts_of(quantity).lemma_of(d);
    crate::domain::decimal::lemma_parts_of(quantity.n(), 0);
    vstd::arithmetic::power::lemma_pow0(10);
    crate::domain::money::lemma_half_even_exact(quantity.n(), 1);
    quantity.lemma_of();
}

/// A price in dollars in the unit of a view.
proof fn lemma_dollars_viewed(price: PriceCents)
    ensures
        dollars_of(price)@ == price.0 * crate::domain::decimal::pow10(26),
{
    let d = Decimal::of(price.0 as int, 2);
    dollars_of(price).lemma_of(d);
    crate::domain::decimal::lemma_parts_of(price.0 as int, 2);
}

/// A quantity of contracts in the unit of a view.
proof fn lemma_contracts_viewed(quantity: Quantity)
    ensures
        contracts_of(quantity)@ == quantity.n() * crate::domain::decimal::pow10(28),
{
    let d = Decimal::of(quantity.n(), 0);
    quantity.lemma_of();
    contracts_of(quantity).lemma_of(d);
    crate::domain::decimal::lemma_parts_of(quantity.n(), 0);
}

/// An iron condor has four legs, a call and a put sold inside a call and a put
/// bought, all of one size and one expiration.
pub proof fn law_condor_sells_inside_what_it_buys(t: CondorTerms, i: int)
    requires
        0 <= i < 4,
    ensures
        ({
            let legs = condor_legs(t);
            &&& legs.len() == 4
            &&& legs[i].quantity == t.quantity
            &&& legs[i].expiration == t.expiration
            &&& legs[0].side is Short && legs[0].style is Call && legs[0].strike
                == t.short_call_strike
            &&& legs[1].side is Short && legs[1].style is Put && legs[1].strike
                == t.short_put_strike
            &&& legs[2].side is Long && legs[2].style is Call && legs[2].strike
                == t.long_call_strike
            &&& legs[3].side is Long && legs[3].style is Put && legs[3].strike
                == t.long_put_strike
        }),
        forall|symbol: Seq<char>| #[trigger]
            condor_in_order(symbol, t) ==> condor_legs(t)[3].strike@ <= condor_legs(t)[1].strike@
                <= condor_legs(t)[0].strike@ <= condor_legs(t)[2].strike@,
{
}

/// A short strangle sells a call and a put of one size and one expiration.
pub proof fn law_strangle_sells_both(t: StrangleTerms, i: int)
    requires
        0 <= i < 2,
    ensures
        ({
            let legs = strangle_legs(t);
            &&& legs.len() == 2
            &&& legs[i].side is Short
            &&& legs[i].quantity == t.quantity
            &&& legs[i].expiration == t.expiration
            &&& legs[0].style is Call && legs[0].strike == t.call_strike
            &&& legs[1].style is Put && legs[1].strike == t.put_strike
        }),
{
}

/// The terms of an iron condor are its specification's, cents become dollars:
/// each price, premium, fee and rate stands where it was named.
pub proof fn law_condor_terms_are_as_specified(spec: IronCondorSpec)
    ensures
        ({
            let t = condor_terms(spec);
            let cent = crate::domain::decimal::pow10(26);
            &&& t.underlying_price@ == spec.underlying_price.0 * cent
            &&& t.short_call_strike@ == spec.short_call_strike.0 * cent
            &&& t.short_put_strike@ == spec.short_put_strike.0 * cent
            &&& t.long_call_strike@ == spec.long_call_strike.0 * cent
            &&& t.long_put_strike@ == spec.long_put_strike.0 * cent
            &&& t.premium_short_call@ == spec.premium_short_call.0 * cent
            &&& t.premium_short_put@ == spec.premium_short_put.0 * cent
            &&& t.premium_long_call@ == spec.premium_long_call.0 * cent
            &&& t.premium_long_put@ == spec.premium_long_put.0 * cent
            &&& t.open_fee@ == spec.open_fee.0 * cent
            &&& t.close_fee@ == spec.close_fee.0 * cent
            &&& t.quantity@ == spec.quantity.n() * crate::domain::decimal::pow10(28)
            &&& t.expiration == spec.expiration
            &&& t.implied_volatility@ == spec.implied_volatility@
            &&& t.dividend_yield@ == spec.dividend_yield@
            &&& t.risk_free_rate == spec.risk_free_rate
        }),
        condor_buildable(spec) ==> spec.implied_volatility@ >= 0 && spec.dividend_yield@ >= 0,
{
    lemma_dollars_viewed(spec.underlying_price);
    lemma_dollars_viewed(spec.short_call_strike);
    lemma_dollars_viewed(spec.short_put_strike);
    lemma_dollars_viewed(spec.long_call_strike);
    lemma_dollars_viewed(spec.long_put_strike);
    lemma_dollars_viewed(spec.premium_short_call);
    lemma_dollars_viewed(spec.premium_short_put);
    lemma_dollars_viewed(spec.premium_long_call);
    lemma_dollars_viewed(spec.premium_long_put);
    lemma_dollars_viewed(spec.open_fee);
    lemma_dollars_viewed(spec.close_fee);
    lemma_contracts_viewed(spec.quantity);
    let t = condor_terms(spec);
    t.implied_volatility.lemma_of(spec.implied_volatility);
    t.dividend_yield.lemma_of(spec.dividend_yield);
}

/// The terms of a short strangle are its specification's, cents become
/// dollars: each price, premium, fee and rate stands where it was named.
pub proof fn law_strangle_terms_are_as_specified(spec: ShortStrangleSpec)
    ensures
        ({
            let t = strangle_terms(spec);
            let cent = crate::domain::decimal::pow10(26);
            &&& t.underlying_price@ == spec.underlying_price.0 * cent
            &&& t.call_strike@ == spec.call_strike.0 * cent
            &&& t.put_strike@ == spec.put_strike.0 * cent
            &&& t.premium_short_call@ == spec.premium_short_call.0 * cent
            &&& t.premium_short_put@ == spec.premium_short_put.0 * cent
            &&& t.open_fee_short_call@ == spec.open_fee_short_call.0 * cent
            &&& t.close_fee_short_call@ == spec.close_fee_short_call.0 * cent
            &&& t.open_fee_short_put@ == spec.open_fee_short_put.0 * cent
            &&& t.close_fee_short_put@ == spec.close_fee_short_put.0 * cent
            &&& t.quantity@ == spec.quantity.n() * crate::domain::decimal::pow10(28)
            &&& t.expiration == spec.expiration
            &&& t.call_implied_volatility@ == spec.call_implied_volatility@
            &&& t.put_implied_volatility@ == spec.put_implied_volatility@
            &&& t.dividend_yield@ == spec.dividend_yield@
            &&& t.risk_free_rate == spec.risk_free_rate
        }),
        strangle_buildable(spec) ==> spec.call_implied_volatility@ >= 0
            && spec.put_implied_volatility@ >= 0 && spec.dividend_yield@ >= 0,
{
    lemma_dollars_viewed(spec.underlying_price);
    lemma_dollars_viewed(spec.call_strike);
    lemma_dollars_viewed(spec.put_strike);
    lemma_dollars_viewed(spec.premium_short_call);
    lemma_dollars_viewed(spec.premium_short_put);
    lemma_dollars_viewed(spec.open_fee_short_call);
    lemma_dollars_viewed(spec.close_fee_short_call);
    lemma_dollars_viewed(spec.open_fee_short_put);
    lemma_dollars_viewed(spec.close_fee_short_put);
    lemma_contracts_viewed(spec.quantity);
    let t = strangle_terms(spec);
    t.call_implied_volatility.lemma_of(spec.call_implied_volatility);
    t.put_implied_volatility.lemma_of(spec.put_implied_volatility);
    t.dividend_yield.lemma_of(spec.dividend_yield);
}

} // verus!
