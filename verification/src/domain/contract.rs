//! Contract identity: the underlying, the contract key and its text id.
//!
//! A [`ContractKey`] is compared exactly: two keys are equal when they name the
//! same underlying, strike and style and the same expiration, days by value
//! and instants by time. The key's view is that identity, so equality and
//! order of keys are equality and order of views.

use crate::domain::decimal::{is_normal, lemma_normal_is_unique, normalized, written, Decimal};
use crate::domain::expiration::{
    display_instant, expiration_exact_cmp, expiration_exact_eq, int_order, triple_order,
    ExpirationDate, ExpirationView, Instant, NANOS_PER_SECOND,
};
use crate::domain::money::PriceCents;
use crate::error::{BacktestError, ErrorKind};
use crate::text::{
    chars_of, compare_text, cut_positions, int_text, is_digit, lemma_int_text_chars,
    lemma_parse_int_text, lemma_split_push, lemma_split_single, lemma_text_order_reversed,
    lemma_text_order_transitive, parse_i64, parse_int, parse_u64, quoted, reversed, signed_text,
    split, stands_at, text_order, unsigned_text,
};
use core::cmp::Ordering;
use vstd::prelude::*;
use vstd::std_specs::cmp::{PartialEqSpecImpl, PartialOrdSpecImpl};
use vstd::std_specs::convert::{FromSpecImpl, TryFromSpecImpl};
use vstd::string::*;

verus! {

/// Whether a position or an order buys or sells.
#[derive(Debug, Clone, Copy, PartialEq, Eq, PartialOrd, Ord, Hash, Structural)]
pub enum Side {
    /// Bought.
    Long,
    /// Sold.
    Short,
}

impl Side {
    /// Longs come before shorts.
    pub open spec fn rank(self) -> int {
        match self {
            Side::Long => 0,
            Side::Short => 1,
        }
    }
}

/// The right that an option carries.
#[derive(Debug, Clone, Copy, PartialEq, Eq, PartialOrd, Ord, Hash, Structural)]
pub enum OptionStyle {
    /// The right to buy.
    Call,
    /// The right to sell.
    Put,
}

impl OptionStyle {
    /// Calls come before puts.
    pub open spec fn rank(self) -> int {
        match self {
            OptionStyle::Call => 0,
            OptionStyle::Put => 1,
        }
    }

    /// The letter of the style in a contract id.
    pub open spec fn letter(self) -> Seq<char> {
        match self {
            OptionStyle::Call => seq!['C'],
            OptionStyle::Put => seq!['P'],
        }
    }
}

/// Whether `c` may stand in a ticker: `A` to `Z`, `0` to `9`, `.` and `_`.
pub open spec fn ticker_char(c: char) -> bool {
    ('A' <= c && c <= 'Z') || ('0' <= c && c <= '9') || c == '.' || c == '_'
}

/// The ticker grammar: 1 to 32 ticker characters.
pub open spec fn ticker_grammar(s: Seq<char>) -> bool {
    &&& 1 <= s.len() <= 32
    &&& forall|i: int| 0 <= i < s.len() ==> ticker_char(#[trigger] s[i])
}

/// A validated underlying ticker.
#[derive(Debug, Ord, Hash)]
pub struct Underlying(String);

impl View for Underlying {
    type V = Seq<char>;

    closed spec fn view(&self) -> Seq<char> {
        self.0@
    }
}

impl Underlying {
    /// The ticker meets the grammar.
    #[verifier::type_invariant]
    pub open spec fn wf(self) -> bool {
        ticker_grammar(self@)
    }

    /// Take a ticker that meets the grammar; every other is refused.
    pub fn new(ticker: &str) -> (r: Result<Self, BacktestError>)
        ensures
            match r {
                Ok(u) => ticker_grammar(ticker@) && u@ == ticker@,
                Err(e) => !ticker_grammar(ticker@) && e.kind() == ErrorKind::Conversion,
            },
    {
        let v = chars_of(ticker);
        let mut valid = v.len() >= 1 && v.len() <= 32;
        let mut i: usize = 0;
        while i < v.len()
            invariant
                i <= v.len(),
                v@ == ticker@,
                valid == (1 <= v@.len() <= 32 && forall|k: int|
                    0 <= k < i ==> ticker_char(#[trigger] v@[k])),
            decreases v.len() - i,
        {
            let c: char = v[i];
            if !(('A' <= c && c <= 'Z') || ('0' <= c && c <= '9') || c == '.' || c == '_') {
                assert(!ticker_char(v@[i as int]));
                valid = false;
            }
            i = i + 1;
        }
        if !valid {
            return Err(
                BacktestError::Conversion(
                    String::from_str("underlying ").concat(&quoted(ticker)).concat(
                        " violates the grammar ^[A-Z0-9._]{1,32}$",
                    ),
                ),
            );
        }
        Ok(Underlying(String::from_str(ticker)))
    }

    /// The ticker.
    pub fn as_str(&self) -> (s: &str)
        ensures
            s@ == self@,
            ticker_grammar(s@),
    {
        proof {
            use_type_invariant(self);
        }
        self.0.as_str()
    }
}

impl Clone for Underlying {
    fn clone(&self) -> (u: Self)
        ensures
            u == *self,
    {
        proof {
            use_type_invariant(self);
        }
        Underlying(self.0.clone())
    }
}

impl PartialEq for Underlying {
    fn eq(&self, other: &Self) -> (b: bool) {
        self.0 == other.0
    }
}

impl PartialEqSpecImpl for Underlying {
    open spec fn obeys_eq_spec() -> bool {
        true
    }

    open spec fn eq_spec(&self, other: &Self) -> bool {
        self@ == other@
    }
}

impl Eq for Underlying {

}

impl PartialOrd for Underlying {
    fn partial_cmp(&self, other: &Self) -> (r: Option<Ordering>) {
        let a = self.as_str();
        let b = other.as_str();
        proof {
            lemma_ticker_ascii(a@);
            lemma_ticker_ascii(b@);
        }
        Some(compare_text(a, b))
    }
}

impl PartialOrdSpecImpl for Underlying {
    open spec fn obeys_partial_cmp_spec() -> bool {
        true
    }

    open spec fn partial_cmp_spec(&self, other: &Self) -> Option<Ordering> {
        Some(text_order(self@, other@))
    }
}

impl TryFrom<String> for Underlying {
    type Error = BacktestError;

    fn try_from(value: String) -> (r: Result<Self, BacktestError>)
        ensures
            match r {
                Ok(u) => ticker_grammar(value@) && u@ == value@,
                Err(e) => !ticker_grammar(value@) && e.kind() == ErrorKind::Conversion,
            },
    {
        Underlying::new(value.as_str())
    }
}

impl TryFromSpecImpl<String> for Underlying {
    open spec fn obeys_try_from_spec() -> bool {
        false
    }

    open spec fn try_from_spec(value: String) -> Result<Self, BacktestError> {
        arbitrary()
    }
}

impl From<Underlying> for String {
    fn from(value: Underlying) -> (s: String)
        ensures
            s@ == value@,
    {
        value.0
    }
}

impl FromSpecImpl<Underlying> for String {
    open spec fn obeys_from_spec() -> bool {
        false
    }

    open spec fn from_spec(value: Underlying) -> String {
        arbitrary()
    }
}

/// The identity of one listed option contract.
#[derive(Debug)]
pub struct ContractKey {
    /// The underlying ticker.
    pub underlying: Underlying,
    /// When the contract expires.
    pub expiration: ExpirationDate,
    /// The strike price.
    pub strike: PriceCents,
    /// Call or put.
    pub style: OptionStyle,
}

/// What a contract key stands for.
pub struct KeyView {
    pub underlying: Seq<char>,
    pub expiration: ExpirationView,
    pub strike: u64,
    pub style: OptionStyle,
}

impl View for ContractKey {
    type V = KeyView;

    open spec fn view(&self) -> KeyView {
        KeyView {
            underlying: self.underlying@,
            expiration: self.expiration@,
            strike: self.strike.0,
            style: self.style,
        }
    }
}

/// A contract's identity in a form that can be hashed: an expiration in days
/// stands without trailing zeros, so that keys of one contract give the same
/// identity.
#[derive(Debug, PartialEq, Eq, Hash)]
pub struct KeyIdentity {
    /// The underlying ticker.
    pub underlying: String,
    /// Whether the expiration is an instant.
    pub resolved: bool,
    /// The digits of the days, or the seconds of the instant.
    pub whole: i128,
    /// The places of the days, or the nanoseconds of the instant.
    pub part: u32,
    /// The strike in cents.
    pub strike: u64,
    /// Call or put.
    pub style: OptionStyle,
}

impl KeyIdentity {
    /// Whether two identities are the same, and so are hashed the same.
    pub open spec fn same_as(self, other: Self) -> bool {
        &&& self.underlying@ == other.underlying@
        &&& self.resolved == other.resolved
        &&& self.whole == other.whole
        &&& self.part == other.part
        &&& self.strike == other.strike
        &&& self.style == other.style
    }
}

/// Whether an identity is that of a contract key.
pub open spec fn is_identity_of(identity: KeyIdentity, key: ContractKey) -> bool {
    &&& identity.underlying@ == key.underlying@
    &&& identity.strike == key.strike.0
    &&& identity.style == key.style
    &&& match key.expiration {
        ExpirationDate::Days(days) => {
            &&& !identity.resolved
            &&& exists|d: Decimal|
                {
                    &&& #[trigger] is_normal(d)
                    &&& d.wf()
                    &&& d@ == days@
                    &&& identity.whole == d.mant()
                    &&& identity.part == d.places()
                }
        },
        ExpirationDate::DateTime(t) => {
            &&& identity.resolved
            &&& identity.whole == t.seconds()
            &&& identity.part == t.subsec()
        },
    }
}

impl ContractKey {
    /// The contract's identity in a form that can be hashed.
    pub fn identity(&self) -> (identity: KeyIdentity)
        ensures
            is_identity_of(identity, *self),
    {
        let (resolved, whole, part): (bool, i128, u32) = match &self.expiration {
            ExpirationDate::Days(days) => {
                let d = normalized(days.to_dec());
                proof {
                    use_type_invariant(&d);
                }
                (false, d.mantissa(), d.scale())
            },
            ExpirationDate::DateTime(t) => (
                true,
                t.timestamp() as i128,
                t.timestamp_subsec_nanos(),
            ),
        };
        KeyIdentity {
            underlying: String::from_str(self.underlying.as_str()),
            resolved,
            whole,
            part,
            strike: self.strike.0,
            style: self.style,
        }
    }
}

/// Two keys are equal exactly when their identities are, so equal keys are
/// hashed the same.
pub proof fn law_equal_keys_have_one_identity(
    a: ContractKey,
    b: ContractKey,
    identity_a: KeyIdentity,
    identity_b: KeyIdentity,
)
    requires
        is_identity_of(identity_a, a),
        is_identity_of(identity_b, b),
    ensures
        identity_a.same_as(identity_b) == (a@ == b@),
{
    match (a.expiration, b.expiration) {
        (ExpirationDate::Days(x), ExpirationDate::Days(y)) => {
            let d = choose|d: Decimal|
                {
                    &&& #[trigger] is_normal(d)
                    &&& d.wf()
                    &&& d@ == x@
                    &&& identity_a.whole == d.mant()
                    &&& identity_a.part == d.places()
                };
            let e = choose|e: Decimal|
                {
                    &&& #[trigger] is_normal(e)
                    &&& e.wf()
                    &&& e@ == y@
                    &&& identity_b.whole == e.mant()
                    &&& identity_b.part == e.places()
                };
            if d@ == e@ {
                lemma_normal_is_unique(d, e);
            }
        },
        _ => {},
    }
}

/// The order of contract keys: by underlying, expiration, strike and style.
pub open spec fn key_order(a: KeyView, b: KeyView) -> Ordering {
    if a.underlying != b.underlying {
        text_order(a.underlying, b.underlying)
    } else if a.expiration != b.expiration {
        triple_order(a.expiration.rank(), b.expiration.rank())
    } else if a.strike < b.strike {
        Ordering::Less
    } else if b.strike < a.strike {
        Ordering::Greater
    } else {
        int_order(a.style.rank(), b.style.rank())
    }
}

/// Contract keys are totally ordered, and equal in order only to themselves.
pub proof fn law_key_order_total(a: KeyView, b: KeyView)
    ensures
        key_order(b, a) == reversed(key_order(a, b)),
        (key_order(a, b) == Ordering::Equal) == (a == b),
{
    lemma_text_order_reversed(a.underlying, b.underlying);
}

/// The order of contract keys is transitive.
pub proof fn law_key_order_transitive(a: KeyView, b: KeyView, c: KeyView)
    requires
        key_order(a, b) == Ordering::Less,
        key_order(b, c) == Ordering::Less,
    ensures
        key_order(a, c) == Ordering::Less,
{
    lemma_text_order_reversed(a.underlying, b.underlying);
    lemma_text_order_reversed(b.underlying, c.underlying);
    lemma_text_order_reversed(a.underlying, c.underlying);
    if a.underlying != b.underlying && b.underlying != c.underlying {
        lemma_text_order_transitive(a.underlying, b.underlying, c.underlying);
    }
}

/// Whether one key comes strictly before another.
pub open spec fn key_less(a: KeyView, b: KeyView) -> bool {
    key_order(a, b) == Ordering::Less
}

/// Of two keys exactly one comes first, unless they are the same.
pub proof fn lemma_key_less_total(a: KeyView, b: KeyView)
    ensures
        key_less(a, b) ==> a != b && !key_less(b, a),
        a == b || key_less(a, b) || key_less(b, a),
{
    law_key_order_total(a, b);
}

/// A key before another comes before all that the other comes before.
pub proof fn lemma_key_less_transitive(a: KeyView, b: KeyView, c: KeyView)
    requires
        key_less(a, b),
        key_less(b, c),
    ensures
        key_less(a, c),
{
    law_key_order_transitive(a, b, c);
}

/// A ticker is ASCII.
proof fn lemma_ticker_ascii(s: Seq<char>)
    requires
        ticker_grammar(s),
    ensures
        vstd::utf8::is_ascii_chars(s),
{
    assert forall|i: int| 0 <= i < s.len() implies '\0' <= #[trigger] s[i] <= '\u{7f}' by {
        assert(ticker_char(s[i]));
    }
}

impl ContractKey {
    /// Compare two keys by underlying, expiration, strike and style.
    pub fn compare(&self, other: &Self) -> (r: Ordering)
        ensures
            r == key_order(self@, other@),
            (r == Ordering::Equal) == (self@ == other@),
    {
        let a = self.underlying.as_str();
        let b = other.underlying.as_str();
        proof {
            lemma_ticker_ascii(a@);
            lemma_ticker_ascii(b@);
            lemma_text_order_reversed(a@, b@);
        }
        match compare_text(a, b) {
            Ordering::Less => Ordering::Less,
            Ordering::Greater => Ordering::Greater,
            Ordering::Equal => match expiration_exact_cmp(&self.expiration, &other.expiration) {
                Ordering::Less => Ordering::Less,
                Ordering::Greater => Ordering::Greater,
                Ordering::Equal => if self.strike.0 < other.strike.0 {
                    Ordering::Less
                } else if other.strike.0 < self.strike.0 {
                    Ordering::Greater
                } else {
                    match (self.style, other.style) {
                        (OptionStyle::Call, OptionStyle::Put) => Ordering::Less,
                        (OptionStyle::Put, OptionStyle::Call) => Ordering::Greater,
                        _ => Ordering::Equal,
                    }
                },
            },
        }
    }
}

impl ContractKey {
    /// Whether this key comes strictly before another.
    pub fn comes_before(&self, other: &Self) -> (r: bool)
        ensures
            r == key_less(self@, other@),
    {
        matches!(self.compare(other), Ordering::Less)
    }
}

impl Clone for ContractKey {
    fn clone(&self) -> (k: Self)
        ensures
            k == *self,
    {
        ContractKey {
            underlying: self.underlying.clone(),
            expiration: self.expiration,
            strike: self.strike,
            style: self.style,
        }
    }
}

impl PartialEq for ContractKey {
    /// Exact equality of identity.
    fn eq(&self, other: &Self) -> (b: bool) {
        self.underlying == other.underlying && self.strike == other.strike && self.style
            == other.style && expiration_exact_eq(&self.expiration, &other.expiration)
    }
}

impl PartialEqSpecImpl for ContractKey {
    open spec fn obeys_eq_spec() -> bool {
        true
    }

    open spec fn eq_spec(&self, other: &Self) -> bool {
        self@ == other@
    }
}

impl Eq for ContractKey {

}

impl PartialOrd for ContractKey {
    fn partial_cmp(&self, other: &Self) -> (r: Option<Ordering>) {
        Some(self.compare(other))
    }
}

impl PartialOrdSpecImpl for ContractKey {
    open spec fn obeys_partial_cmp_spec() -> bool {
        true
    }

    open spec fn partial_cmp_spec(&self, other: &Self) -> Option<Ordering> {
        Some(key_order(self@, other@))
    }
}

/// The id of a contract that expires `ns` nanoseconds after the Unix epoch:
/// version, underlying, expiration, strike and style, joined by colons.
pub open spec fn contract_id_text(
    underlying: Seq<char>,
    ns: int,
    strike: int,
    style: OptionStyle,
) -> Seq<char> {
    "v1"@ + seq![':'] + underlying + seq![':'] + int_text(ns) + seq![':'] + int_text(strike) + seq![
        ':',
    ] + style.letter()
}

/// The style that a letter stands for.
pub open spec fn style_of(s: Seq<char>) -> Option<OptionStyle> {
    if s == "C"@ {
        Some(OptionStyle::Call)
    } else if s == "P"@ {
        Some(OptionStyle::Put)
    } else {
        None
    }
}

/// The instant at `ns` nanoseconds since the Unix epoch, as an expiration.
pub open spec fn instant_at(ns: int) -> ExpirationView {
    ExpirationView::DateTime(ns / NANOS_PER_SECOND as int, ns % NANOS_PER_SECOND as int)
}

/// The contract that an id names: five pieces between colons, of which the
/// first is the version, the second a ticker, the third an `i64`, the fourth a
/// `u64` and the fifth a style.
pub open spec fn contract_id_key(id: Seq<char>) -> Option<KeyView> {
    let pieces = split(id, ':');
    if pieces.len() != 5 || pieces[0] != "v1"@ || !ticker_grammar(pieces[1]) {
        None
    } else {
        match (parse_int(pieces[2], true), parse_int(pieces[3], false), style_of(pieces[4])) {
            (Some(ns), Some(strike), Some(style)) => if i64::MIN <= ns <= i64::MAX && strike
                <= u64::MAX {
                Some(
                    KeyView {
                        underlying: pieces[1],
                        expiration: instant_at(ns),
                        strike: strike as u64,
                        style,
                    },
                )
            } else {
                None
            },
            _ => None,
        }
    }
}

impl ContractKey {
    /// The expiration in nanoseconds since the Unix epoch. Days are refused,
    /// and so is an instant outside the range of an `i64`.
    pub fn expiration_ns(&self) -> (r: Result<i64, BacktestError>)
        ensures
            match r {
                Ok(ns) => self.expiration matches ExpirationDate::DateTime(t)
                    && t.nanos_since_epoch() == ns,
                Err(e) => e.kind() == ErrorKind::Conversion && (
                self.expiration matches ExpirationDate::DateTime(t) ==> !(i64::MIN
                    <= t.nanos_since_epoch() <= i64::MAX)),
            },
    {
        match &self.expiration {
            ExpirationDate::DateTime(t) => match t.timestamp_nanos_opt() {
                Some(ns) => Ok(ns),
                None => Err(
                    BacktestError::Conversion(
                        String::from_str("expiration ").concat(&display_instant(*t)).concat(
                            " outside the nanosecond i64 range",
                        ),
                    ),
                ),
            },
            ExpirationDate::Days(days) => Err(
                BacktestError::Conversion(
                    String::from_str("relative expiration Days(").concat(
                        &written(normalized(days.to_dec())),
                    ).concat(
                        ") is unresolved — resolved once at tape materialisation",
                    ),
                ),
            ),
        }
    }

    /// The text id of the contract, refused as the expiration is.
    pub fn to_contract_id(&self) -> (r: Result<String, BacktestError>)
        ensures
            match r {
                Ok(id) => self.expiration matches ExpirationDate::DateTime(t) && i64::MIN
                    <= t.nanos_since_epoch() <= i64::MAX && id@ == contract_id_text(
                    self.underlying@,
                    t.nanos_since_epoch(),
                    self.strike.0 as int,
                    self.style,
                ),
                Err(e) => e.kind() == ErrorKind::Conversion && (
                self.expiration matches ExpirationDate::DateTime(t) ==> !(i64::MIN
                    <= t.nanos_since_epoch() <= i64::MAX)),
            },
    {
        let ns: i64 = match self.expiration_ns() {
            Ok(ns) => ns,
            Err(e) => {
                return Err(e);
            },
        };
        let letter = match self.style {
            OptionStyle::Call => "C",
            OptionStyle::Put => "P",
        };
        proof {
            reveal_strlit("C");
            reveal_strlit("P");
            reveal_strlit(":");
            assert("C"@ =~= seq!['C']);
            assert("P"@ =~= seq!['P']);
            assert(":"@ =~= seq![':']);
        }
        Ok(
            String::from_str("v1").concat(":").concat(self.underlying.as_str()).concat(":").concat(
                &signed_text(ns as i128),
            ).concat(":").concat(&unsigned_text(self.strike.0 as u128)).concat(":").concat(letter),
        )
    }

    /// The contract that a text id names; every other text is refused.
    pub fn from_contract_id(contract_id: &str) -> (r: Result<Self, BacktestError>)
        ensures
            match r {
                Ok(key) => contract_id_key(contract_id@) == Some(key@),
                Err(e) => contract_id_key(contract_id@) is None && e.kind()
                    == ErrorKind::Conversion,
            },
    {
        let v = chars_of(contract_id);
        let cuts = cut_positions(&v, ':');
        let ghost pieces = split(v@, ':');
        let ghost len = v@.len() as int;
        if cuts.len() != 4 {
            return Err(
                refused_id(contract_id, "must have exactly 5 ':'-separated segments", None, ""),
            );
        }
        proof {
            assert(stands_at(v@, cuts@, pieces[0], len, 0));
            assert(stands_at(v@, cuts@, pieces[1], len, 1));
            assert(stands_at(v@, cuts@, pieces[2], len, 2));
            assert(stands_at(v@, cuts@, pieces[3], len, 3));
            assert(stands_at(v@, cuts@, pieces[4], len, 4));
            reveal_strlit("v1");
            reveal_strlit("C");
            reveal_strlit("P");
        }
        let version = contract_id.substring_char(0, cuts[0]);
        if !same_text(version, "v1") {
            return Err(
                refused_id(
                    contract_id,
                    "has unsupported version ",
                    Some(version),
                    ", expected \"v1\"",
                ),
            );
        }
        let underlying = match Underlying::new(
            contract_id.substring_char(cuts[0] + 1, cuts[1]),
        ) {
            Ok(u) => u,
            Err(e) => {
                return Err(e);
            },
        };
        let ns: i64 = match parse_i64(&v, cuts[1] + 1, cuts[2]) {
            Some(ns) => ns,
            None => {
                let piece = contract_id.substring_char(cuts[1] + 1, cuts[2]);
                return Err(
                    refused_id(contract_id, "has non-numeric expiration_ns ", Some(piece), ""),
                );
            },
        };
        let strike: u64 = match parse_u64(&v, cuts[2] + 1, cuts[3]) {
            Some(strike) => strike,
            None => {
                proof {
                    lemma_unsigned_is_not_negative(pieces[3]);
                }
                let piece = contract_id.substring_char(cuts[2] + 1, cuts[3]);
                return Err(
                    refused_id(contract_id, "has non-numeric strike_cents ", Some(piece), ""),
                );
            },
        };
        let letter = contract_id.substring_char(cuts[3] + 1, v.len());
        let style = if same_text(letter, "C") {
            OptionStyle::Call
        } else if same_text(letter, "P") {
            OptionStyle::Put
        } else {
            return Err(
                refused_id(
                    contract_id,
                    "has unknown style ",
                    Some(letter),
                    ", expected \"C\" or \"P\"",
                ),
            );
        };
        Ok(
            ContractKey {
                underlying,
                expiration: ExpirationDate::DateTime(Instant::from_timestamp_nanos(ns)),
                strike: PriceCents(strike),
                style,
            },
        )
    }
}

/// Without a sign, a number that can be read is not negative.
proof fn lemma_unsigned_is_not_negative(s: Seq<char>)
    ensures
        parse_int(s, false) is Some ==> parse_int(s, false)->0 >= 0,
{
}

/// The refusal of a contract id: what is wrong, the piece it is wrong with, and
/// what was expected.
fn refused_id(contract_id: &str, why: &str, piece: Option<&str>, expected: &str) -> (e:
    BacktestError)
    ensures
        e.kind() == ErrorKind::Conversion,
{
    let start = String::from_str("contract id ").concat(&quoted(contract_id)).concat(" ").concat(
        why,
    );
    let text = match piece {
        Some(piece) => start.concat(&quoted(piece)),
        None => start,
    };
    BacktestError::Conversion(text.concat(expected))
}

/// Whether two texts are the same.
fn same_text(a: &str, b: &str) -> (r: bool)
    ensures
        r == (a@ == b@),
{
    String::from_str(a) == String::from_str(b)
}

/// Reading the id of a contract gives the contract back. The one contract
/// whose id does not name it is one that expires inside a leap second, whose
/// nanoseconds run into the next second: it is left out.
pub proof fn law_contract_id_roundtrip(key: ContractKey, t: Instant)
    requires
        ticker_grammar(key.underlying@),
        key.expiration == ExpirationDate::DateTime(t),
        i64::MIN <= t.nanos_since_epoch() <= i64::MAX,
        0 <= t.subsec() < NANOS_PER_SECOND,
    ensures
        contract_id_key(
            contract_id_text(
                key.underlying@,
                t.nanos_since_epoch(),
                key.strike.0 as int,
                key.style,
            ),
        ) == Some(key@),
{
    let u = key.underlying@;
    let ns = t.nanos_since_epoch();
    let strike = key.strike.0 as int;
    let id = contract_id_text(u, ns, strike, key.style);
    reveal_strlit("v1");
    reveal_strlit("C");
    reveal_strlit("P");
    assert("C"@ =~= seq!['C']);
    assert("P"@ =~= seq!['P']);
    assert(!"v1"@.contains(':')) by {
        assert("v1"@ =~= seq!['v', '1']);
    }
    assert(!u.contains(':')) by {
        assert forall|i: int| 0 <= i < u.len() implies u[i] != ':' by {
            assert(ticker_char(u[i]));
        }
    }
    lemma_number_has_no_colon(ns);
    lemma_number_has_no_colon(strike);
    assert(!key.style.letter().contains(':'));
    let p1 = "v1"@ + seq![':'] + u;
    let p2 = p1 + seq![':'] + int_text(ns);
    let p3 = p2 + seq![':'] + int_text(strike);
    lemma_split_single("v1"@, ':');
    lemma_split_push("v1"@, u, ':');
    lemma_split_push(p1, int_text(ns), ':');
    lemma_split_push(p2, int_text(strike), ':');
    lemma_split_push(p3, key.style.letter(), ':');
    assert(id =~= p3 + seq![':'] + key.style.letter());
    assert(split(id, ':') =~= seq!["v1"@, u, int_text(ns), int_text(strike), key.style.letter()]);
    lemma_parse_int_text(ns);
    lemma_parse_int_text(strike);
    vstd::arithmetic::div_mod::lemma_fundamental_div_mod_converse(
        ns,
        NANOS_PER_SECOND as int,
        t.seconds(),
        t.subsec(),
    );
    assert('C' != 'P');
    assert(seq!['C'][0] != seq!['P'][0]);
}

/// The text of a number holds no colon.
proof fn lemma_number_has_no_colon(n: int)
    ensures
        !int_text(n).contains(':'),
{
    lemma_int_text_chars(n);
    assert forall|i: int| 0 <= i < int_text(n).len() implies int_text(n)[i] != ':' by {
        assert(is_digit(int_text(n)[i]) || int_text(n)[i] == '-');
    }
}

/// Keys are told apart first by their underlying, then by when they expire,
/// then by their strike, lowest first, and last by their style, calls first.
/// Of two instants the earlier comes first, and days come before instants.
pub proof fn law_keys_order_part_by_part(a: KeyView, b: KeyView)
    ensures
        ({
            let same_name = a.underlying == b.underlying;
            let same_chain = same_name && a.expiration == b.expiration;
            &&& !same_name ==> key_less(a, b) == (text_order(a.underlying, b.underlying)
                == Ordering::Less)
            &&& same_chain && a.strike < b.strike ==> key_less(a, b)
            &&& same_chain && a.strike == b.strike && a.style is Call && b.style is Put
                ==> key_less(a, b)
            &&& same_name ==> match (a.expiration, b.expiration) {
                (ExpirationView::Days(x), ExpirationView::Days(y)) => x < y ==> key_less(a, b),
                (ExpirationView::Days(_), ExpirationView::DateTime(_, _)) => key_less(a, b),
                (ExpirationView::DateTime(_, _), ExpirationView::Days(_)) => key_less(b, a),
                (ExpirationView::DateTime(s, m), ExpirationView::DateTime(t, n)) => s < t || (s == t
                    && m < n) ==> key_less(a, b),
            }
        }),
{
}

/// A ticker is made of upper-case letters, digits, dots and underscores, at
/// least one of them and at most thirty-two.
pub proof fn law_tickers_are_short_and_upper_case(s: Seq<char>, i: int)
    ensures
        ticker_grammar(s) ==> 0 < s.len() < 33,
        ticker_grammar(s) && 0 <= i < s.len() ==> {
            ||| 65 <= s[i] as int <= 90
            ||| 48 <= s[i] as int <= 57
            ||| s[i] == '.'
            ||| s[i] == '_'
        },
        0 < s.len() < 33 && (forall|k: int|
            0 <= k < s.len() ==> {
                ||| 65 <= #[trigger] s[k] as int <= 90
                ||| 48 <= s[k] as int <= 57
                ||| s[k] == '.'
                ||| s[k] == '_'
            }) ==> ticker_grammar(s),
{
    if ticker_grammar(s) && 0 <= i < s.len() {
        assert(ticker_char(s[i]));
    }
}

/// No two contracts have one id, but for those that expire inside a leap
/// second.
pub proof fn law_ids_tell_contracts_apart(a: ContractKey, s: Instant, b: ContractKey, t: Instant)
    requires
        ticker_grammar(a.underlying@),
        ticker_grammar(b.underlying@),
        a.expiration == ExpirationDate::DateTime(s),
        b.expiration == ExpirationDate::DateTime(t),
        i64::MIN <= s.nanos_since_epoch() <= i64::MAX,
        i64::MIN <= t.nanos_since_epoch() <= i64::MAX,
        0 <= s.subsec() < NANOS_PER_SECOND,
        0 <= t.subsec() < NANOS_PER_SECOND,
        contract_id_text(a.underlying@, s.nanos_since_epoch(), a.strike.0 as int, a.style)
            == contract_id_text(b.underlying@, t.nanos_since_epoch(), b.strike.0 as int, b.style),
    ensures
        a@ == b@,
{
    law_contract_id_roundtrip(a, s);
    law_contract_id_roundtrip(b, t);
}

/// An id begins with its version and ends with a letter for its style.
pub proof fn law_id_tells_its_version_and_style(
    underlying: Seq<char>,
    ns: int,
    strike: int,
    style: OptionStyle,
)
    ensures
        ({
            let id = contract_id_text(underlying, ns, strike, style);
            &&& id.len() > 3
            &&& id[0] == 'v' && id[1] == '1' && id[2] == ':'
            &&& style is Call ==> id.last() == 'C'
            &&& style is Put ==> id.last() == 'P'
        }),
{
    reveal_strlit("v1");
}

/// What is read as an id has five pieces between colons: the version, a ticker,
/// the nanoseconds of the expiration, the cents of the strike, and the letter of
/// the style. Nothing else is read.
pub proof fn law_only_ids_are_read(id: Seq<char>, key: KeyView)
    requires
        contract_id_key(id) == Some(key),
    ensures
        ({
            let pieces = split(id, ':');
            &&& pieces.len() == 5
            &&& pieces[0] == seq!['v', '1']
            &&& pieces[1] == key.underlying
            &&& ticker_grammar(key.underlying)
            &&& key.expiration matches ExpirationView::DateTime(seconds, nanos)
            &&& parse_int(pieces[2], true) == Some(seconds * 1_000_000_000 + nanos)
            &&& 0 <= nanos < 1_000_000_000
            &&& parse_int(pieces[3], false) == Some(key.strike as int)
            &&& key.style is Call ==> pieces[4] == seq!['C']
            &&& key.style is Put ==> pieces[4] == seq!['P']
        }),
{
    reveal_strlit("v1");
    reveal_strlit("C");
    reveal_strlit("P");
    assert("v1"@ =~= seq!['v', '1']);
    assert("C"@ =~= seq!['C']);
    assert("P"@ =~= seq!['P']);
}

} // verus!
