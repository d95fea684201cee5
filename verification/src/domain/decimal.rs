//! Decimal numbers: an integer mantissa over a power of ten.
//!
//! A [`Decimal`] holds what `rust_decimal::Decimal` holds, as plain integers:
//! a mantissa of at most 96 bits and a number of decimal places of at most
//! 28. Its view is its value in units of 10^-28, so that two decimals are equal
//! in value exactly when their views are. The arithmetic itself is
//! `rust_decimal`'s, behind the small functions at the end of this file.

#[allow(unused_imports)]
use crate::text::nat_text;
use core::cmp::Ordering;
use rust_decimal::prelude::ToPrimitive;
use rust_decimal::Decimal as RustDecimal;
use vstd::arithmetic::power::pow;
use vstd::prelude::*;
use vstd::std_specs::cmp::PartialEqSpecImpl;

verus! {

/// The largest mantissa: 2^96 - 1.
pub const MAX_MANTISSA: i128 = 79_228_162_514_264_337_593_543_950_335;

/// The largest number of decimal places.
pub const MAX_PLACES: u32 = 28;

/// `10^n`.
pub open spec fn pow10(n: int) -> int {
    pow(10, n as nat)
}

/// A decimal number.
#[derive(Clone, Copy, Debug)]
pub struct Decimal {
    mantissa: i128,
    scale: u32,
}

impl Decimal {
    /// The integer mantissa.
    pub closed spec fn mant(self) -> int {
        self.mantissa as int
    }

    /// The number of decimal places.
    pub closed spec fn places(self) -> int {
        self.scale as int
    }

    /// The decimal `mant / 10^places`.
    pub closed spec fn of(mant: int, places: int) -> Self {
        Decimal { mantissa: mant as i128, scale: places as u32 }
    }

    /// Whether the mantissa and the number of places are in range.
    #[verifier::type_invariant]
    pub open spec fn wf(self) -> bool {
        &&& -MAX_MANTISSA <= self.mant() <= MAX_MANTISSA
        &&& 0 <= self.places() <= MAX_PLACES
    }
}

impl View for Decimal {
    type V = int;

    /// The value, in units of 10^-28.
    open spec fn view(&self) -> int {
        self.mant() * pow10(MAX_PLACES - self.places())
    }
}

/// The written form of a decimal: `-`, the integer part, and behind a `.` as
/// many digits as it has places.
pub open spec fn decimal_text(mant: int, places: int) -> Seq<char> {
    let magnitude = if mant < 0 {
        -mant
    } else {
        mant
    };
    let sign = if mant < 0 {
        seq!['-']
    } else {
        Seq::<char>::empty()
    };
    if places == 0 {
        sign + nat_text(magnitude as nat)
    } else {
        sign + nat_text((magnitude / pow10(places)) as nat) + seq!['.'] + padded_text(
            (magnitude % pow10(places)) as nat,
            places,
        )
    }
}

/// The last `width` digits of `n`, zeros in front included.
pub open spec fn padded_text(n: nat, width: int) -> Seq<char>
    decreases width,
{
    if width <= 0 {
        Seq::empty()
    } else {
        padded_text(n / 10, width - 1).push(crate::text::digit_char((n % 10) as int))
    }
}

/// `n / d` rounded to the nearest integer, a tie going to the even neighbour,
/// for `n >= 0` and `d > 0`.
pub open spec fn half_even(n: int, d: int) -> int {
    let q = n / d;
    let r = n % d;
    if 2 * r < d || (2 * r == d && q % 2 == 0) {
        q
    } else {
        q + 1
    }
}

/// `n / d` rounded half to even, the sign set aside.
pub open spec fn half_even_signed(n: int, d: int) -> int {
    if n < 0 {
        -half_even(-n, d)
    } else {
        half_even(n, d)
    }
}

impl Decimal {
    /// The decimal `mantissa / 10^scale`.
    pub fn new(mantissa: i64, scale: u32) -> (d: Self)
        requires
            scale <= MAX_PLACES,
        ensures
            d == Decimal::of(mantissa as int, scale as int),
            d.mant() == mantissa,
            d.places() == scale,
    {
        Decimal { mantissa: mantissa as i128, scale }
    }

    /// The decimal `mantissa / 10^scale`, where the two are in range.
    pub fn from_i128_with_scale(mantissa: i128, scale: u32) -> (d: Self)
        requires
            -MAX_MANTISSA <= mantissa <= MAX_MANTISSA,
            scale <= MAX_PLACES,
        ensures
            d == Decimal::of(mantissa as int, scale as int),
            d.mant() == mantissa,
            d.places() == scale,
    {
        Decimal { mantissa, scale }
    }

    /// The decimal `mantissa / 10^scale`, or nothing where one of the two is
    /// out of range.
    pub fn try_from_i128_with_scale(mantissa: i128, scale: u32) -> (r: Option<Self>)
        ensures
            match r {
                Some(d) => d == Decimal::of(mantissa as int, scale as int) && d.mant() == mantissa
                    && d.places() == scale,
                None => mantissa < -MAX_MANTISSA || mantissa > MAX_MANTISSA || scale > MAX_PLACES,
            },
    {
        if mantissa < -MAX_MANTISSA || mantissa > MAX_MANTISSA || scale > MAX_PLACES {
            None
        } else {
            Some(Decimal { mantissa, scale })
        }
    }

    /// The mantissa.
    pub fn mantissa(&self) -> (m: i128)
        ensures
            m == self.mant(),
    {
        self.mantissa
    }

    /// The number of decimal places.
    pub fn scale(&self) -> (s: u32)
        ensures
            s == self.places(),
    {
        self.scale
    }

    /// Whether the value is zero.
    pub fn is_zero(&self) -> (b: bool)
        ensures
            b == (self@ == 0),
    {
        proof {
            use_type_invariant(self);
            lemma_pow10_positive(MAX_PLACES - self.places());
            lemma_scaled_sign(self.mant(), pow10(MAX_PLACES - self.places()));
        }
        self.mantissa == 0
    }

    /// Whether the value is below zero.
    pub fn is_negative(&self) -> (b: bool)
        ensures
            b == (self@ < 0),
    {
        proof {
            use_type_invariant(self);
            lemma_pow10_positive(MAX_PLACES - self.places());
            lemma_scaled_sign(self.mant(), pow10(MAX_PLACES - self.places()));
        }
        self.mantissa < 0
    }
}

impl PartialEq for Decimal {
    /// Equality of value: `0.2` and `0.20` are equal.
    fn eq(&self, other: &Self) -> (b: bool) {
        match compare_decimals(*self, *other) {
            Ordering::Equal => true,
            _ => false,
        }
    }
}

impl PartialEqSpecImpl for Decimal {
    open spec fn obeys_eq_spec() -> bool {
        true
    }

    open spec fn eq_spec(&self, other: &Self) -> bool {
        self@ == other@
    }
}

impl Eq for Decimal {

}

/// A power of ten is positive.
pub proof fn lemma_pow10_positive(n: int)
    requires
        n >= 0,
    ensures
        pow10(n) > 0,
{
    vstd::arithmetic::power::lemma_pow_positive(10, n as nat);
}

/// A positive factor keeps the sign of a number.
pub proof fn lemma_scaled_sign(m: int, p: int)
    requires
        p > 0,
    ensures
        (m * p == 0) == (m == 0),
        (m * p < 0) == (m < 0),
        (m * p > 0) == (m > 0),
{
    assert((m * p == 0) == (m == 0)) by (nonlinear_arith)
        requires
            p > 0,
    ;
    assert((m * p < 0) == (m < 0)) by (nonlinear_arith)
        requires
            p > 0,
    ;
}

/// The decimals of `rust_decimal`.
#[verifier::external_type_specification]
#[verifier::external_body]
pub struct ExDecimal(RustDecimal);

impl Decimal {
    /// The same decimal by `rust_decimal::Decimal::from_i128_with_scale`, to be
    /// handed to an outside function. Nothing is claimed of what is inside it.
    #[verifier::external_body]
    pub(crate) fn outside(self) -> (d: RustDecimal) {
        RustDecimal::from_i128_with_scale(self.mantissa, self.scale)
    }

    /// The decimal that an outside function gave, by `mantissa` and `scale` of
    /// `rust_decimal::Decimal`. Nothing is claimed of what is inside it.
    #[verifier::external_body]
    pub(crate) fn inside(d: RustDecimal) -> (r: Self) {
        Decimal { mantissa: d.mantissa(), scale: d.scale() }
    }
}

/// Compare two decimals by `rust_decimal::Decimal`'s `Ord::cmp`, which orders
/// by value whatever the number of places.
#[verifier::external_body]
pub(crate) fn compare_decimals(a: Decimal, b: Decimal) -> (r: Ordering)
    ensures
        r == (if a@ < b@ {
            Ordering::Less
        } else if a@ == b@ {
            Ordering::Equal
        } else {
            Ordering::Greater
        }),
{
    a.outside().cmp(&b.outside())
}

/// Whether a decimal has no digit to spare: its last place is not zero, and
/// zero has no places.
pub open spec fn is_normal(d: Decimal) -> bool {
    &&& d.places() > 0 ==> d.mant() % 10 != 0
    &&& d.mant() == 0 ==> d.places() == 0
}

/// Strip trailing zeros by `rust_decimal::Decimal::normalize`: the value stays,
/// and the last place that is left is not zero.
#[verifier::external_body]
pub(crate) fn normalized(d: Decimal) -> (r: Decimal)
    ensures
        r@ == d@,
        is_normal(r),
{
    Decimal::inside(d.outside().normalize())
}

/// Two decimals of one value that have no digit to spare are written the same.
pub proof fn lemma_normal_is_unique(a: Decimal, b: Decimal)
    requires
        a.wf(),
        b.wf(),
        is_normal(a),
        is_normal(b),
        a@ == b@,
    ensures
        a.mant() == b.mant(),
        a.places() == b.places(),
{
    lemma_normal_not_longer(a, b);
    lemma_normal_not_longer(b, a);
    let p = pow10(MAX_PLACES - a.places());
    lemma_pow10_positive(MAX_PLACES - a.places());
    let (x, y) = (a.mant(), b.mant());
    assert(x == y) by (nonlinear_arith)
        requires
            x * p == y * p,
            p > 0,
    ;
}

/// Of two decimals of one value, one without a digit to spare has no more
/// places than the other.
proof fn lemma_normal_not_longer(a: Decimal, b: Decimal)
    requires
        a.wf(),
        b.wf(),
        is_normal(b),
        a@ == b@,
    ensures
        b.places() <= a.places(),
{
    if a.places() < b.places() {
        let k = b.places() - a.places();
        let p = pow10(MAX_PLACES - b.places());
        lemma_pow10_positive(MAX_PLACES - b.places());
        vstd::arithmetic::power::lemma_pow_adds(
            10,
            k as nat,
            (MAX_PLACES - b.places()) as nat,
        );
        assert(pow10(MAX_PLACES - a.places()) == pow10(k) * p);
        let (x, y) = (a.mant(), b.mant());
        let t = pow10(k);
        assert(y == x * t) by (nonlinear_arith)
            requires
                x * (t * p) == y * p,
                p > 0,
        ;
        vstd::arithmetic::power::lemma_pow_adds(10, 1, (k - 1) as nat);
        vstd::arithmetic::power::lemma_pow1(10);
        let u = pow10(k - 1);
        assert(t == 10 * u);
        assert(y == 10 * (x * u)) by (nonlinear_arith)
            requires
                y == x * t,
                t == 10 * u,
        ;
        assert(y % 10 == 0);
    }
}

/// Whether one hundred times `d` is a decimal again. Its digits are those of
/// `d` with the point two places to the right, so it is one as soon as `d` has
/// two places to give.
pub open spec fn hundredfold_fits(d: Decimal) -> bool {
    if d.places() == 0 {
        -MAX_MANTISSA <= d.mant() * 100 <= MAX_MANTISSA
    } else if d.places() == 1 {
        -MAX_MANTISSA <= d.mant() * 10 <= MAX_MANTISSA
    } else {
        true
    }
}

/// Multiply by `rust_decimal::Decimal::checked_mul`, here with a factor of one
/// hundred: the product is exact where it can be represented, and missing
/// where it cannot.
#[verifier::external_body]
pub(crate) fn checked_mul(a: Decimal, b: Decimal) -> (r: Option<Decimal>)
    requires
        b.mant() == 100,
        b.places() == 0,
    ensures
        r is Some == hundredfold_fits(a),
        r is Some ==> r->0@ == a@ * 100,
{
    let product = a.outside().checked_mul(b.outside())?;
    Some(Decimal::inside(product))
}

/// The quotient of two decimals as `rust_decimal::Decimal::checked_div` computes
/// it, each as its digits and its places; nothing where there is none.
pub uninterp spec fn quotient_of(n: (int, int), d: (int, int)) -> Option<(int, int)>;

/// Divide by `rust_decimal::Decimal::checked_div`, which carries as many digits
/// as a decimal can hold. The quotient of two positive numbers is not negative,
/// and that of two positive integers of no more than 64 bits is never so small
/// that it becomes zero.
#[verifier::external_body]
pub(crate) fn checked_div(n: Decimal, d: Decimal) -> (r: Option<Decimal>)
    ensures
        quotient_of((n.mant(), n.places()), (d.mant(), d.places())) == match r {
            Some(q) => Some((q.mant(), q.places())),
            None => None,
        },
        n@ > 0 && d@ > 0 ==> (r matches Some(q) ==> q@ >= 0),
        0 < n.mant() <= u64::MAX && n.places() == 0 && 0 < d.mant() <= u64::MAX && d.places() == 0
            ==> (r matches Some(q) ==> q@ > 0),
{
    let quotient = n.outside().checked_div(d.outside())?;
    Some(Decimal::inside(quotient))
}

/// Round to an integer by `rust_decimal::Decimal::round_dp_with_strategy` with
/// no decimal places and `MidpointNearestEven`: the nearest integer, a tie
/// going to the even one, the sign set aside.
#[verifier::external_body]
pub(crate) fn round_half_even(d: Decimal) -> (r: Decimal)
    ensures
        r.places() == 0,
        r.mant() == half_even_signed(d.mant(), pow10(d.places())),
{
    let rounded = d.outside().round_dp_with_strategy(
        0,
        rust_decimal::RoundingStrategy::MidpointNearestEven,
    );
    Decimal::inside(rounded)
}

/// Convert by `to_u64` of `rust_decimal::Decimal`: the integer part, where the
/// decimal is not negative and the integer part is a `u64`.
#[verifier::external_body]
pub(crate) fn to_u64(d: Decimal) -> (r: Option<u64>)
    ensures
        r == (if 0 <= d.mant() && d.mant() / pow10(d.places()) <= u64::MAX {
            Some((d.mant() / pow10(d.places())) as u64)
        } else {
            None
        }),
{
    d.outside().to_u64()
}

/// Write a decimal by the `Display` of `rust_decimal::Decimal`: all its places
/// are written, zeros at the end included.
#[verifier::external_body]
pub(crate) fn written(d: Decimal) -> (text: String)
    ensures
        text@ == decimal_text(d.mant(), d.places()),
{
    format!("{}", d.outside())
}

/// The padded digits are as many as asked for, and all digits.
proof fn lemma_padded_text(n: nat, width: int)
    requires
        width >= 0,
    ensures
        padded_text(n, width).len() == width,
        forall|i: int|
            0 <= i < width ==> crate::text::is_digit(#[trigger] padded_text(n, width)[i]),
    decreases width,
{
    if width > 0 {
        lemma_padded_text(n / 10, width - 1);
        let s = padded_text(n, width);
        assert forall|i: int| 0 <= i < width implies crate::text::is_digit(#[trigger] s[i]) by {
            if i < width - 1 {
                assert(s[i] == padded_text(n / 10, width - 1)[i]);
            }
        }
    }
}

/// Where the point of a written decimal stands: as many characters from the
/// end as it has places, and nowhere without places.
proof fn lemma_point_position(mant: int, places: int)
    requires
        0 <= places,
    ensures
        ({
            let s = decimal_text(mant, places);
            if places == 0 {
                forall|i: int| 0 <= i < s.len() ==> #[trigger] s[i] != '.'
            } else {
                &&& s.len() > places + 1
                &&& forall|i: int|
                    0 <= i < s.len() ==> (#[trigger] s[i] == '.') == (i == s.len() - 1 - places)
            }
        }),
{
    let magnitude = if mant < 0 {
        -mant
    } else {
        mant
    };
    let sign = if mant < 0 {
        seq!['-']
    } else {
        Seq::<char>::empty()
    };
    let s = decimal_text(mant, places);
    if places == 0 {
        crate::text::lemma_nat_text(magnitude as nat);
        let digits = nat_text(magnitude as nat);
        assert forall|i: int| 0 <= i < s.len() implies #[trigger] s[i] != '.' by {
            if i >= sign.len() {
                assert(s[i] == digits[i - sign.len()]);
                assert(crate::text::is_digit(digits[i - sign.len()]));
            }
        }
    } else {
        let whole = nat_text((magnitude / pow10(places)) as nat);
        let part = padded_text((magnitude % pow10(places)) as nat, places);
        crate::text::lemma_nat_text((magnitude / pow10(places)) as nat);
        lemma_padded_text((magnitude % pow10(places)) as nat, places);
        assert(s =~= sign + whole + seq!['.'] + part);
        assert forall|i: int| 0 <= i < s.len() implies (#[trigger] s[i] == '.') == (i == s.len() - 1
            - places) by {
            if i < sign.len() {
            } else if i < sign.len() + whole.len() {
                assert(s[i] == whole[i - sign.len()]);
                assert(crate::text::is_digit(whole[i - sign.len()]));
            } else if i > sign.len() + whole.len() {
                assert(s[i] == part[i - sign.len() - whole.len() - 1]);
            }
        }
    }
}

/// A written decimal is ASCII.
pub proof fn lemma_decimal_text_ascii(mant: int, places: int)
    requires
        0 <= places,
    ensures
        vstd::utf8::is_ascii_chars(decimal_text(mant, places)),
{
    let magnitude = if mant < 0 {
        -mant
    } else {
        mant
    };
    let s = decimal_text(mant, places);
    lemma_pow10_positive(places);
    let whole = if places == 0 {
        magnitude
    } else {
        magnitude / pow10(places)
    };
    assert(whole >= 0) by (nonlinear_arith)
        requires
            magnitude >= 0,
            pow10(places) > 0,
            whole == magnitude || whole == magnitude / pow10(places),
    ;
    crate::text::lemma_nat_text(whole as nat);
    lemma_padded_text((magnitude % pow10(places)) as nat, places);
    let front = if mant < 0 {
        1int
    } else {
        0int
    };
    let digits = nat_text(whole as nat);
    assert forall|i: int| 0 <= i < s.len() implies '\0' <= #[trigger] s[i] <= '\u{7f}' by {
        if i >= front && i < front + digits.len() {
            assert(s[i] == digits[i - front]);
            assert(crate::text::is_digit(digits[i - front]));
        } else if i > front + digits.len() {
            let rest = padded_text((magnitude % pow10(places)) as nat, places);
            assert(s[i] == rest[i - front - digits.len() - 1]);
            assert(crate::text::is_digit(rest[i - front - digits.len() - 1]));
        }
    }
}

/// Two decimals with one written form are one decimal, places included, as
/// soon as they are equal in value.
pub proof fn law_written_form_tells_decimals_apart(a: Decimal, b: Decimal)
    requires
        a.wf(),
        b.wf(),
        a@ == b@,
        decimal_text(a.mant(), a.places()) == decimal_text(b.mant(), b.places()),
    ensures
        a.mant() == b.mant(),
        a.places() == b.places(),
{
    lemma_point_position(a.mant(), a.places());
    lemma_point_position(b.mant(), b.places());
    let s = decimal_text(a.mant(), a.places());
    if a.places() != b.places() {
        if a.places() > 0 {
            assert(s[s.len() - 1 - a.places()] == '.');
        }
        if b.places() > 0 {
            assert(s[s.len() - 1 - b.places()] == '.');
        }
        assert(false);
    }
    let p = pow10(MAX_PLACES - a.places());
    lemma_pow10_positive(MAX_PLACES - a.places());
    assert(a.mant() == b.mant()) by (nonlinear_arith)
        requires
            a.mant() * p == b.mant() * p,
            p > 0,
    ;
}

/// A decimal is what its mantissa and its places say it is.
pub proof fn lemma_of_parts(d: Decimal)
    ensures
        Decimal::of(d.mant(), d.places()) == d,
{
}

/// The decimal of a mantissa and a number of places holds both.
pub proof fn lemma_parts_of(mant: int, places: int)
    requires
        -MAX_MANTISSA <= mant <= MAX_MANTISSA,
        0 <= places <= MAX_PLACES,
    ensures
        Decimal::of(mant, places).mant() == mant,
        Decimal::of(mant, places).places() == places,
{
}

/// Rounding goes to the nearest integer, and of two that are equally near to
/// the even one: there is no other such integer.
pub proof fn law_rounding_is_to_the_nearest(n: int, d: int, m: int)
    requires
        n >= 0,
        d > 0,
    ensures
        ({
            let r = half_even(n, d);
            &&& -d <= 2 * (n - r * d) <= d
            &&& 2 * (n - r * d) == d ==> r % 2 == 0
            &&& 2 * (r * d - n) == d ==> r % 2 == 0
            &&& -d < 2 * (n - m * d) < d ==> m == r
        }),
{
    let q = n / d;
    let rest = n % d;
    vstd::arithmetic::div_mod::lemma_fundamental_div_mod(n, d);
    assert(n == q * d + rest) by (nonlinear_arith)
        requires
            n == d * q + rest,
    ;
    assert((q + 1) * d == q * d + d) by (nonlinear_arith);
    let r = half_even(n, d);
    if -d < 2 * (n - m * d) < d && m != r {
        let e = m - r;
        assert(n - m * d == (n - r * d) - e * d) by (nonlinear_arith)
            requires
                e == m - r,
        ;
        let gap = n - r * d;
        assert(false) by (nonlinear_arith)
            requires
                -d <= 2 * gap <= d,
                -d < 2 * (gap - e * d) < d,
                e != 0,
                d > 0,
        ;
    }
}

/// Rounding sets the sign aside: what lies below zero rounds as its mirror
/// image above zero.
pub proof fn law_rounding_mirrors_at_zero(n: int, d: int)
    requires
        n >= 0,
        d > 0,
    ensures
        half_even_signed(n, d) == half_even(n, d),
        half_even_signed(-n, d) == -half_even(n, d),
{
    if n == 0 {
        vstd::arithmetic::div_mod::lemma_fundamental_div_mod_converse(0, d, 0, 0);
    }
}

} // verus!
