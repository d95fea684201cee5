//! How the legs of a strategy find their quotes and become opening orders.

use crate::data::convert::resolve_expiration;
use crate::domain::contract::KeyView;
use crate::domain::decimal::{
    decimal_text, half_even, is_normal, law_rounding_is_to_the_nearest, lemma_pow10_positive,
    lemma_scaled_sign, normalized, pow10, round_half_even, to_u64, written, Decimal,
};
use crate::domain::expiration::{debug_instant, instant_debug, ExpirationDate, ExpirationView};
use crate::domain::money::{fits_i64, lemma_half_even_bounds};
use crate::domain::positive::Positive;
use crate::domain::{
    ChainSnapshot, ContractKey, LegSpec, OptionStyle, OrderCommand, OrderIntent, PositionAction,
    PriceCents, Quantity, QuoteView, Side, SimTime, TimeInForce,
};
use crate::error::{BacktestError, ErrorKind};
use crate::text::unsigned_text;
use vstd::prelude::*;
use vstd::string::*;

verus! {

/// Whether a quote is of a strike and a style.
pub open spec fn quotes_leg(quote: QuoteView, strike: PriceCents, style: OptionStyle) -> bool {
    quote.contract.strike == strike && quote.contract.style == style
}

/// How many quotes are of a strike and a style.
pub open spec fn quote_count(
    entries: Seq<(ContractKey, QuoteView)>,
    strike: PriceCents,
    style: OptionStyle,
) -> int
    decreases entries.len(),
{
    if entries.len() == 0 {
        0
    } else {
        quote_count(entries.drop_last(), strike, style) + (if quotes_leg(
            entries.last().1,
            strike,
            style,
        ) {
            1int
        } else {
            0int
        })
    }
}

/// The last quote that is of a strike and a style.
pub open spec fn last_quote(
    entries: Seq<(ContractKey, QuoteView)>,
    strike: PriceCents,
    style: OptionStyle,
) -> QuoteView
    decreases entries.len(),
{
    if entries.len() == 0 || quotes_leg(entries.last().1, strike, style) {
        entries.last().1
    } else {
        last_quote(entries.drop_last(), strike, style)
    }
}

/// The identity of a leg in a snapshot.
pub open spec fn leg_key(
    snapshot: ChainSnapshot,
    expiration: ExpirationView,
    strike: PriceCents,
    style: OptionStyle,
) -> KeyView {
    KeyView { underlying: snapshot.underlying@, expiration, strike: strike.0, style }
}

/// The quote of a contract, if there is one.
pub open spec fn quote_at(snapshot: ChainSnapshot, key: KeyView) -> Option<QuoteView> {
    if snapshot.quotes@.dom().contains(key) {
        Some(snapshot.quotes@[key])
    } else {
        None
    }
}

/// The quote that a strategy's leg is opened at: the only one of its strike and
/// style, or among several the one of its own expiration.
pub open spec fn leg_quote(
    snapshot: ChainSnapshot,
    strike: PriceCents,
    style: OptionStyle,
    expiration: ExpirationDate,
) -> Option<QuoteView> {
    let n = quote_count(snapshot.quotes.entries(), strike, style);
    if n == 0 {
        None
    } else if n == 1 {
        Some(last_quote(snapshot.quotes.entries(), strike, style))
    } else {
        quote_at(snapshot, leg_key(snapshot, expiration@, strike, style))
    }
}

/// More quotes hold no fewer of a strike and a style, and one more at most.
proof fn lemma_quote_count_grows(
    entries: Seq<(ContractKey, QuoteView)>,
    strike: PriceCents,
    style: OptionStyle,
    k: int,
)
    requires
        0 <= k <= entries.len(),
    ensures
        0 <= quote_count(entries.take(k), strike, style) <= quote_count(entries, strike, style),
    decreases entries.len(),
{
    if k == entries.len() {
        assert(entries.take(k) =~= entries);
        if k > 0 {
            lemma_quote_count_grows(entries.drop_last(), strike, style, k - 1);
            assert(entries.drop_last().take(k - 1) =~= entries.drop_last());
        }
    } else {
        lemma_quote_count_grows(entries.drop_last(), strike, style, k);
        assert(entries.drop_last().take(k) =~= entries.take(k));
    }
}

/// Find the quote that a strategy's leg is opened at. Where several
/// expirations quote its strike and style, its own decides, and never the one
/// that happens to come first.
pub fn select_leg_quote<'a>(
    snapshot: &'a ChainSnapshot,
    strike: PriceCents,
    style: OptionStyle,
    expiration: ExpirationDate,
) -> (r: Result<&'a QuoteView, BacktestError>)
    ensures
        match r {
            Ok(quote) => leg_quote(*snapshot, strike, style, expiration) == Some(*quote),
            Err(e) => leg_quote(*snapshot, strike, style, expiration) is None && e.kind()
                == ErrorKind::Execution,
        },
{
    let ghost entries = snapshot.quotes.entries();
    let mut found: Option<usize> = None;
    let mut several = false;
    let mut i: usize = 0;
    assert(entries.take(0) =~= Seq::<(ContractKey, QuoteView)>::empty());
    while i < snapshot.quotes.len() && !several
        invariant
            i <= entries.len(),
            entries == snapshot.quotes.entries(),
            several ==> found is Some && quote_count(entries.take(i as int), strike, style) > 1,
            !several ==> match found {
                None => quote_count(entries.take(i as int), strike, style) == 0,
                Some(at) => at < i && quote_count(entries.take(i as int), strike, style) == 1
                    && last_quote(entries.take(i as int), strike, style) == entries[at as int].1,
            },
        decreases entries.len() - i,
    {
        assert(entries.take(i + 1).drop_last() =~= entries.take(i as int));
        let quote = snapshot.quotes.value_at(i);
        let same_style = match (quote.contract.style, style) {
            (OptionStyle::Call, OptionStyle::Call) => true,
            (OptionStyle::Put, OptionStyle::Put) => true,
            _ => false,
        };
        if quote.contract.strike.0 == strike.0 && same_style {
            if found.is_some() {
                several = true;
            } else {
                found = Some(i);
            }
        }
        i = i + 1;
    }
    proof {
        lemma_quote_count_grows(entries, strike, style, i as int);
        if !several {
            assert(entries.take(i as int) =~= entries);
        }
    }
    match found {
        None => {
            return Err(
                BacktestError::Execution(
                    String::from_str("no snapshot quote for leg strike ").concat(
                        &unsigned_text(strike.0 as u128),
                    ).concat(" style ").concat(style_words(style)),
                ),
            );
        },
        Some(at) => {
            if !several {
                return Ok(snapshot.quotes.value_at(at));
            }
        },
    }
    let contract = ContractKey {
        underlying: snapshot.underlying.clone(),
        expiration,
        strike,
        style,
    };
    match snapshot.quotes.get(&contract) {
        Some(quote) => Ok(quote),
        None => Err(
            BacktestError::Execution(
                String::from_str("no snapshot quote for leg strike ").concat(
                    &unsigned_text(strike.0 as u128),
                ).concat(" style ").concat(style_words(style)).concat(" at expiration ").concat(
                    &expiration_words(&expiration),
                ).concat(" in a multi-expiry snapshot"),
            ),
        ),
    }
}

/// What an expiration resolves to against an anchor, where it does.
pub open spec fn resolved_view(expiration: ExpirationDate, anchor: SimTime) -> Option<
    ExpirationView,
> {
    match expiration {
        ExpirationDate::DateTime(_) => Some(expiration@),
        ExpirationDate::Days(days) => {
            let ns = crate::data::convert::days_past(days, anchor);
            if fits_i64(ns) {
                Some(
                    ExpirationView::DateTime(
                        ns / crate::domain::expiration::NANOS_PER_SECOND as int,
                        ns % crate::domain::expiration::NANOS_PER_SECOND as int,
                    ),
                )
            } else {
                None
            }
        },
    }
}

/// The quote that a leg of a leg set is opened at: that of its own contract,
/// its expiration resolved against the snapshot's time, and no other.
pub open spec fn leg_set_quote(snapshot: ChainSnapshot, leg: LegSpec) -> Result<
    QuoteView,
    ErrorKind,
> {
    match resolved_view(leg.expiration, snapshot.ts) {
        None => Err(ErrorKind::ArithmeticOverflow),
        Some(expiration) => match quote_at(
            snapshot,
            leg_key(snapshot, expiration, leg.strike, leg.style),
        ) {
            Some(quote) => Ok(quote),
            None => Err(ErrorKind::Execution),
        },
    }
}

/// A style in words.
fn style_words(style: OptionStyle) -> (words: &'static str)
    ensures
        words@ == match style {
            OptionStyle::Call => "OptionStyle::Call"@,
            OptionStyle::Put => "OptionStyle::Put"@,
        },
{
    match style {
        OptionStyle::Call => "OptionStyle::Call",
        OptionStyle::Put => "OptionStyle::Put",
    }
}

/// Whether a text is a decimal without trailing zeros.
pub open spec fn is_short_form(text: Seq<char>, d: Decimal) -> bool {
    exists|n: Decimal|
        is_normal(n) && n@ == d@ && text == #[trigger] decimal_text(n.mant(), n.places())
}

/// A decimal without trailing zeros.
fn short_form(d: Decimal) -> (text: String)
    ensures
        is_short_form(text@, d),
{
    written(normalized(d))
}

/// An expiration in words: its days, or its instant.
fn expiration_words(expiration: &ExpirationDate) -> (words: String)
    ensures
        match *expiration {
            ExpirationDate::Days(days) => exists|text: Seq<char>| #[trigger]
                is_short_form(text, days.dec()) && words@ == "Days("@ + text + ")"@,
            ExpirationDate::DateTime(t) => words@ == "DateTime("@ + instant_debug(
                t.seconds(),
                t.subsec(),
            ) + ")"@,
        },
{
    match expiration {
        ExpirationDate::Days(days) => {
            let text = short_form(days.to_dec());
            String::from_str("Days(").concat(&text).concat(")")
        },
        ExpirationDate::DateTime(t) => String::from_str("DateTime(").concat(
            &debug_instant(*t),
        ).concat(")"),
    }
}

/// Find the quote that a leg of a leg set is opened at.
pub fn select_leg_set_quote<'a>(snapshot: &'a ChainSnapshot, leg: &LegSpec) -> (r: Result<
    &'a QuoteView,
    BacktestError,
>)
    ensures
        match r {
            Ok(quote) => leg_set_quote(*snapshot, *leg) == Ok::<QuoteView, ErrorKind>(*quote),
            Err(e) => leg_set_quote(*snapshot, *leg) == Err::<QuoteView, ErrorKind>(e.kind()),
        },
{
    let expiration = match resolve_expiration(&leg.expiration, snapshot.ts) {
        Ok(expiration) => expiration,
        Err(e) => {
            return Err(e);
        },
    };
    assert(resolved_view(leg.expiration, snapshot.ts) == Some(expiration@));
    let contract = ContractKey {
        underlying: snapshot.underlying.clone(),
        expiration,
        strike: leg.strike,
        style: leg.style,
    };
    match snapshot.quotes.get(&contract) {
        Some(quote) => Ok(quote),
        None => Err(
            BacktestError::Execution(
                String::from_str("no snapshot quote for leg set leg strike ").concat(
                    &unsigned_text(leg.strike.0 as u128),
                ).concat(" style ").concat(style_words(leg.style)).concat(" at expiration ").concat(
                    &expiration_words(&expiration),
                ).concat(" (resolved from ").concat(&expiration_words(&leg.expiration)).concat(
                    "); a leg set matches its own expiration exactly",
                ),
            ),
        ),
    }
}

/// The order that opens a leg at a quote.
pub open spec fn open_of(quote: QuoteView, side: Side, quantity: Quantity) -> OrderCommand {
    OrderCommand::Submit(
        OrderIntent {
            contract: quote.contract,
            action: PositionAction::Open,
            side,
            quantity,
            limit: None,
            tif: TimeInForce::Ioc,
            decision_mid: quote.mid,
        },
    )
}

/// The order that opens a leg at a quote, at the market.
pub fn open_command(quote: &QuoteView, side: Side, quantity: Quantity) -> (cmd: OrderCommand)
    ensures
        cmd == open_of(*quote, side, quantity),
{
    OrderCommand::Submit(
        OrderIntent {
            contract: quote.contract.clone(),
            action: PositionAction::Open,
            side,
            quantity,
            limit: None,
            tif: TimeInForce::Ioc,
            decision_mid: quote.mid,
        },
    )
}

/// A number of contracts, rounded half to even.
pub open spec fn rounded_count(value: Positive) -> int {
    half_even(value.dec().mant(), pow10(value.dec().places()))
}

/// The quantity that a number of contracts rounds to.
pub open spec fn quantity_of(value: Positive) -> Result<Quantity, ErrorKind> {
    if rounded_count(value) > u32::MAX {
        Err(ErrorKind::Strategy)
    } else if rounded_count(value) == 0 {
        Err(ErrorKind::InvalidQuantity(0))
    } else {
        Ok(Quantity::of(rounded_count(value)))
    }
}

/// Round a number of contracts to a quantity.
pub fn quantity_from_positive(value: Positive) -> (r: Result<Quantity, BacktestError>)
    ensures
        match r {
            Ok(quantity) => quantity_of(value) == Ok::<Quantity, ErrorKind>(quantity),
            Err(e) => quantity_of(value) == Err::<Quantity, ErrorKind>(e.kind()),
        },
{
    let d = value.to_dec();
    proof {
        use_type_invariant(&d);
        lemma_pow10_positive(d.places());
        lemma_pow10_positive(28 - d.places());
        lemma_scaled_sign(d.mant(), pow10(28 - d.places()));
        lemma_half_even_bounds(d.mant(), pow10(d.places()));
        vstd::arithmetic::power::lemma_pow0(10);
    }
    let rounded = round_half_even(d);
    let count: u64 = match to_u64(rounded) {
        Some(count) => count,
        None => {
            return Err(
                BacktestError::Strategy(
                    String::from_str("leg quantity ").concat(&short_form(d)).concat(
                        " is not a valid u32 contract count",
                    ),
                ),
            );
        },
    };
    if count > u32::MAX as u64 {
        return Err(
            BacktestError::Strategy(
                String::from_str("leg quantity ").concat(&short_form(d)).concat(
                    " is not a valid u32 contract count",
                ),
            ),
        );
    }
    Quantity::new(count as u32)
}

/// Where none of some quotes is of a strike and a style, there are none to
/// count.
proof fn lemma_no_quote(
    entries: Seq<(ContractKey, QuoteView)>,
    strike: PriceCents,
    style: OptionStyle,
)
    requires
        forall|j: int|
            0 <= j < entries.len() ==> !quotes_leg((#[trigger] entries[j]).1, strike, style),
    ensures
        quote_count(entries, strike, style) == 0,
    decreases entries.len(),
{
    if entries.len() > 0 {
        let front = entries.drop_last();
        assert forall|j: int| 0 <= j < front.len() implies !quotes_leg(
            (#[trigger] front[j]).1,
            strike,
            style,
        ) by {
            assert(front[j] == entries[j]);
        }
        lemma_no_quote(front, strike, style);
        assert(entries[entries.len() - 1] == entries.last());
    }
}

/// The only quote of a strike and a style is counted once, and found.
proof fn lemma_sole_quote(
    entries: Seq<(ContractKey, QuoteView)>,
    strike: PriceCents,
    style: OptionStyle,
    i: int,
)
    requires
        0 <= i < entries.len(),
        forall|j: int|
            0 <= j < entries.len() ==> (quotes_leg((#[trigger] entries[j]).1, strike, style) == (j
                == i)),
    ensures
        quote_count(entries, strike, style) == 1,
        last_quote(entries, strike, style) == entries[i].1,
    decreases entries.len(),
{
    let front = entries.drop_last();
    assert(entries[entries.len() - 1] == entries.last());
    assert forall|j: int| 0 <= j < front.len() implies (quotes_leg(
        (#[trigger] front[j]).1,
        strike,
        style,
    ) == (j == i)) by {
        assert(front[j] == entries[j]);
    }
    if i == entries.len() - 1 {
        lemma_no_quote(front, strike, style);
    } else {
        lemma_sole_quote(front, strike, style, i);
        assert(front[i] == entries[i]);
    }
}

/// Two quotes of a strike and a style are counted.
proof fn lemma_two_quotes(
    entries: Seq<(ContractKey, QuoteView)>,
    strike: PriceCents,
    style: OptionStyle,
    i: int,
    j: int,
)
    requires
        0 <= i < j < entries.len(),
        quotes_leg(entries[i].1, strike, style),
        quotes_leg(entries[j].1, strike, style),
    ensures
        quote_count(entries, strike, style) >= 2,
{
    let upto = entries.take(j + 1);
    lemma_quote_count_grows(entries, strike, style, j + 1);
    assert(upto.drop_last() =~= entries.take(j));
    assert(upto.last() == entries[j]);
    let first = entries.take(j);
    lemma_quote_count_grows(first, strike, style, i + 1);
    assert(first.take(i + 1) =~= entries.take(i + 1));
    assert(entries.take(i + 1).drop_last() =~= entries.take(i));
    assert(entries.take(i + 1).last() == entries[i]);
    lemma_quote_count_grows(entries, strike, style, i);
}

/// A leg whose strike and style are quoted once is opened at that quote,
/// whatever its expiration; one whose strike and style are not quoted at all is
/// not opened.
pub proof fn law_sole_quote_is_taken(
    snapshot: ChainSnapshot,
    strike: PriceCents,
    style: OptionStyle,
    expiration: ExpirationDate,
    i: int,
)
    requires
        0 <= i < snapshot.quotes.entries().len(),
        forall|j: int|
            0 <= j < snapshot.quotes.entries().len() && j != i ==> {
                let contract = (#[trigger] snapshot.quotes.entries()[j]).1.contract;
                contract.strike != strike || contract.style != style
            },
    ensures
        ({
            let quote = snapshot.quotes.entries()[i].1;
            leg_quote(snapshot, strike, style, expiration) == if quote.contract.strike == strike
                && quote.contract.style == style {
                Some(quote)
            } else {
                None
            }
        }),
{
    let entries = snapshot.quotes.entries();
    if quotes_leg(entries[i].1, strike, style) {
        lemma_sole_quote(entries, strike, style, i);
    } else {
        lemma_no_quote(entries, strike, style);
    }
}

/// A leg whose strike and style are quoted at several expirations is opened at
/// the quote of its own expiration and at no other.
pub proof fn law_own_expiration_decides(
    snapshot: ChainSnapshot,
    strike: PriceCents,
    style: OptionStyle,
    expiration: ExpirationDate,
    i: int,
    j: int,
)
    requires
        0 <= i < j < snapshot.quotes.entries().len(),
        snapshot.quotes.entries()[i].1.contract.strike == strike,
        snapshot.quotes.entries()[i].1.contract.style == style,
        snapshot.quotes.entries()[j].1.contract.strike == strike,
        snapshot.quotes.entries()[j].1.contract.style == style,
    ensures
        ({
            let own = KeyView {
                underlying: snapshot.underlying@,
                expiration: expiration@,
                strike: strike.0,
                style,
            };
            match leg_quote(snapshot, strike, style, expiration) {
                Some(quote) => snapshot.quotes@.dom().contains(own) && quote
                    == snapshot.quotes@[own],
                None => !snapshot.quotes@.dom().contains(own),
            }
        }),
{
    lemma_two_quotes(snapshot.quotes.entries(), strike, style, i, j);
}

/// A leg of a leg set is opened at the quote of its own contract alone: of its
/// own expiration where that is an instant, and where it is a number of days,
/// of the instant that lies so far past the snapshot's time.
pub proof fn law_leg_set_takes_its_own_quote(snapshot: ChainSnapshot, leg: LegSpec, instant: int)
    ensures
        ({
            let own = |expiration: ExpirationView|
                (KeyView {
                    underlying: snapshot.underlying@,
                    expiration,
                    strike: leg.strike.0,
                    style: leg.style,
                });
            let taken = |key: KeyView|
                if snapshot.quotes@.dom().contains(key) {
                    Ok::<QuoteView, ErrorKind>(snapshot.quotes@[key])
                } else {
                    Err::<QuoteView, ErrorKind>(ErrorKind::Execution)
                };
            match leg.expiration {
                ExpirationDate::DateTime(_) => leg_set_quote(snapshot, leg) == taken(
                    own(leg.expiration@),
                ),
                ExpirationDate::Days(days) => instant == snapshot.ts.0
                    + crate::data::convert::days_in_nanos(days) ==> leg_set_quote(snapshot, leg)
                    == if -0x8000_0000_0000_0000 <= instant < 0x8000_0000_0000_0000 {
                    taken(
                        own(ExpirationView::DateTime(instant / 1_000_000_000, instant % 1_000_000_000)),
                    )
                } else {
                    Err::<QuoteView, ErrorKind>(ErrorKind::ArithmeticOverflow)
                },
            }
        }),
{
}

/// An opening order opens what was quoted on the side and in the size asked
/// for, at the market, and is judged by the quoted mid.
pub proof fn law_opening_trades_what_was_asked(quote: QuoteView, side: Side, quantity: Quantity)
    ensures
        open_of(quote, side, quantity) matches OrderCommand::Submit(intent) && {
            &&& intent.contract == quote.contract
            &&& intent.action is Open
            &&& intent.side == side
            &&& intent.quantity == quantity
            &&& intent.limit is None
            &&& intent.tif is Ioc
            &&& intent.decision_mid == quote.mid
        },
{
}

/// A number of contracts becomes the nearest whole number of them, of two that
/// are equally near the even one; none at all is refused, and so is more than
/// can be counted.
pub proof fn law_contracts_round_to_the_nearest(value: Positive)
    requires
        value.wf(),
    ensures
        ({
            let one = pow10(28);
            match quantity_of(value) {
                Ok(quantity) => {
                    let off = value@ - quantity.n() * one;
                    &&& 0 < quantity.n() <= 0xffff_ffff
                    &&& -one <= 2 * off <= one
                    &&& 2 * off == one || 2 * off == -one ==> quantity.n() % 2 == 0
                },
                Err(ErrorKind::InvalidQuantity(n)) => n == 0 && 2 * value@ <= one,
                Err(kind) => kind == ErrorKind::Strategy && 2 * value@ >= (2 * 0xffff_ffff + 1)
                    * one,
            }
        }),
{
    let d = value.dec();
    let p = pow10(d.places());
    let k = pow10(28 - d.places());
    lemma_pow10_positive(d.places());
    lemma_pow10_positive(28 - d.places());
    lemma_scaled_sign(d.mant(), k);
    vstd::arithmetic::power::lemma_pow_adds(10, d.places() as nat, (28 - d.places()) as nat);
    let m = d.mant();
    let r = rounded_count(value);
    let one = pow10(28);
    law_rounding_is_to_the_nearest(m, p, 0);
    lemma_half_even_bounds(m, p);
    let gap = m - r * p;
    assert(m * k - r * one == gap * k) by (nonlinear_arith)
        requires
            one == p * k,
            gap == m - r * p,
    ;
    assert(-one <= 2 * (gap * k) <= one) by (nonlinear_arith)
        requires
            -p <= 2 * gap <= p,
            one == p * k,
            k > 0,
    ;
    assert(2 * (gap * k) == one ==> 2 * gap == p) by (nonlinear_arith)
        requires
            one == p * k,
            k > 0,
    ;
    assert(2 * (gap * k) == -one ==> 2 * gap == -p) by (nonlinear_arith)
        requires
            one == p * k,
            k > 0,
    ;
    assert(r == 0 ==> r * one == 0) by (nonlinear_arith);
    if r <= u32::MAX {
        Quantity::lemma_n(r);
    } else {
        assert((2 * 0xffff_ffff + 1) * one == 2 * (0x1_0000_0000 * one) - one) by (nonlinear_arith);
        assert(r * one >= 0x1_0000_0000 * one) by (nonlinear_arith)
            requires
                r >= 0x1_0000_0000,
                one == p * k,
                p > 0,
                k > 0,
        ;
    }
}

} // verus!
