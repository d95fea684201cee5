//! The typed error boundary of the crate.
//!
//! [`BacktestError`] is the single error type that crosses every public
//! boundary. What a contract says of an error is its [`ErrorKind`]: the variant
//! with the numbers it carries. The wording inside a text-carrying variant is
//! for people and is left open.

use crate::text::{signed_text, unsigned_text};
use vstd::prelude::*;
use vstd::string::*;
#[allow(unused_imports)]
use vstd::std_specs::convert::FromSpecImpl;

verus! {

/// The error type of the standard library's I/O calls.
#[verifier::external_type_specification]
#[verifier::external_body]
pub struct ExIoError(std::io::Error);

/// The single typed error for every fallible operation of the crate.
#[derive(Debug)]
pub enum BacktestError {
    /// A quantity of zero was supplied.
    InvalidQuantity(u32),
    /// A quote whose bid exceeds its ask, in integer cents.
    CrossedQuote {
        /// Bid price in integer cents.
        bid: u64,
        /// Ask price in integer cents.
        ask: u64,
    },
    /// A price that is not on the venue tick grid, in integer cents.
    PriceNotTickAligned {
        /// The offending price in integer cents.
        price: u64,
        /// The venue tick size in integer cents.
        tick: u64,
    },
    /// A tape timestamp that is not strictly after its predecessor.
    DataOutOfOrder {
        /// The step at which the violation was detected.
        step: u32,
        /// The offending timestamp (nanoseconds since the Unix epoch).
        ts: i64,
        /// The previous timestamp that it failed to exceed.
        prev: i64,
    },
    /// A ceiling was crossed while collecting a tape.
    TapeTooLarge {
        /// The name of the limit that was crossed.
        limit: &'static str,
        /// The observed value.
        value: u64,
        /// The configured ceiling.
        cap: u64,
    },
    /// An invalid configuration value.
    Config(String),
    /// A tape that is inconsistent with itself or with its metadata.
    Data(String),
    /// An I/O failure reading a data source.
    DataIo(std::io::Error),
    /// A value that failed validation while it was converted.
    Conversion(String),
    /// A simulator session failure.
    Session(String),
    /// A fill-model failure (unknown position, oversized close, ...).
    Execution(String),
    /// An order-book failure.
    OrderBook(String),
    /// A strategy failure.
    Strategy(String),
    /// A result-bundle write or read-back failure.
    Bundle(String),
    /// Checked integer arithmetic on cents or counters overflowed.
    ArithmeticOverflow,
}

/// An error without its wording: the variant and the numbers it carries.
pub enum ErrorKind {
    InvalidQuantity(u32),
    CrossedQuote { bid: u64, ask: u64 },
    PriceNotTickAligned { price: u64, tick: u64 },
    DataOutOfOrder { step: u32, ts: i64, prev: i64 },
    TapeTooLarge { limit: Seq<char>, value: u64, cap: u64 },
    Config,
    Data,
    DataIo,
    Conversion,
    Session,
    Execution,
    OrderBook,
    Strategy,
    Bundle,
    ArithmeticOverflow,
}

/// The text of an I/O error, by the `Display` of `std::io::Error`. Nothing is
/// claimed of the text: part of it comes from the operating system.
#[verifier::external_body]
fn io_error_text(error: &std::io::Error) -> (text: String) {
    format!("{error}")
}

/// The error of a call that gives nothing where it succeeds.
pub open spec fn refusal(r: Result<(), BacktestError>) -> Option<BacktestError> {
    match r {
        Ok(_) => None,
        Err(e) => Some(e),
    }
}

/// The kind of an error, where there is one.
pub open spec fn kind_of(error: Option<BacktestError>) -> Option<ErrorKind> {
    match error {
        None => None,
        Some(e) => Some(e.kind()),
    }
}

impl BacktestError {
    /// The error without its wording.
    pub open spec fn kind(self) -> ErrorKind {
        match self {
            BacktestError::InvalidQuantity(q) => ErrorKind::InvalidQuantity(q),
            BacktestError::CrossedQuote { bid, ask } => ErrorKind::CrossedQuote { bid, ask },
            BacktestError::PriceNotTickAligned { price, tick } => ErrorKind::PriceNotTickAligned {
                price,
                tick,
            },
            BacktestError::DataOutOfOrder { step, ts, prev } => ErrorKind::DataOutOfOrder {
                step,
                ts,
                prev,
            },
            BacktestError::TapeTooLarge { limit, value, cap } => ErrorKind::TapeTooLarge {
                limit: limit@,
                value,
                cap,
            },
            BacktestError::Config(_) => ErrorKind::Config,
            BacktestError::Data(_) => ErrorKind::Data,
            BacktestError::DataIo(_) => ErrorKind::DataIo,
            BacktestError::Conversion(_) => ErrorKind::Conversion,
            BacktestError::Session(_) => ErrorKind::Session,
            BacktestError::Execution(_) => ErrorKind::Execution,
            BacktestError::OrderBook(_) => ErrorKind::OrderBook,
            BacktestError::Strategy(_) => ErrorKind::Strategy,
            BacktestError::Bundle(_) => ErrorKind::Bundle,
            BacktestError::ArithmeticOverflow => ErrorKind::ArithmeticOverflow,
        }
    }

    /// The message of every error but an I/O failure.
    pub open spec fn message(self) -> Seq<char> {
        match self {
            BacktestError::InvalidQuantity(q) => "invalid quantity: "@ + crate::text::int_text(
                q as int,
            ),
            BacktestError::CrossedQuote { bid, ask } => "crossed quote: bid "@
                + crate::text::int_text(bid as int) + " > ask "@ + crate::text::int_text(
                ask as int,
            ),
            BacktestError::PriceNotTickAligned { price, tick } => "price "@
                + crate::text::int_text(price as int) + " not aligned to tick "@
                + crate::text::int_text(tick as int),
            BacktestError::DataOutOfOrder { step, ts, prev } => "data out of order: step "@
                + crate::text::int_text(step as int) + " ts "@ + crate::text::int_text(ts as int)
                + " not strictly after previous "@ + crate::text::int_text(prev as int),
            BacktestError::TapeTooLarge { limit, value, cap } => "tape too large: "@ + limit@
                + " = "@ + crate::text::int_text(value as int) + " exceeds cap "@
                + crate::text::int_text(cap as int),
            BacktestError::Config(text) => "config: "@ + text@,
            BacktestError::Data(text) => "data: "@ + text@,
            BacktestError::DataIo(_) => "data source io: "@,
            BacktestError::Conversion(text) => "chain conversion: "@ + text@,
            BacktestError::Session(text) => "simulator session: "@ + text@,
            BacktestError::Execution(text) => "execution: "@ + text@,
            BacktestError::OrderBook(text) => "orderbook: "@ + text@,
            BacktestError::Strategy(text) => "strategy: "@ + text@,
            BacktestError::Bundle(text) => "bundle write: "@ + text@,
            BacktestError::ArithmeticOverflow => "arithmetic overflow"@,
        }
    }

    /// The human-readable message, with the offending values in it. The part
    /// of an I/O failure's message behind `data source io: ` is the system's.
    pub fn to_string(&self) -> (text: String)
        ensures
            self.kind() != ErrorKind::DataIo ==> text@ == self.message(),
            self.kind() == ErrorKind::DataIo ==> self.message().is_prefix_of(text@),
    {
        match self {
            BacktestError::InvalidQuantity(q) => String::from_str("invalid quantity: ").concat(
                &unsigned_text(*q as u128),
            ),
            BacktestError::CrossedQuote { bid, ask } => String::from_str(
                "crossed quote: bid ",
            ).concat(&unsigned_text(*bid as u128)).concat(" > ask ").concat(
                &unsigned_text(*ask as u128),
            ),
            BacktestError::PriceNotTickAligned { price, tick } => String::from_str("price ").concat(
                &unsigned_text(*price as u128),
            ).concat(" not aligned to tick ").concat(&unsigned_text(*tick as u128)),
            BacktestError::DataOutOfOrder { step, ts, prev } => String::from_str(
                "data out of order: step ",
            ).concat(&unsigned_text(*step as u128)).concat(" ts ").concat(
                &signed_text(*ts as i128),
            ).concat(" not strictly after previous ").concat(&signed_text(*prev as i128)),
            BacktestError::TapeTooLarge { limit, value, cap } => String::from_str(
                "tape too large: ",
            ).concat(*limit).concat(" = ").concat(&unsigned_text(*value as u128)).concat(
                " exceeds cap ",
            ).concat(&unsigned_text(*cap as u128)),
            BacktestError::Config(text) => String::from_str("config: ").concat(text.as_str()),
            BacktestError::Data(text) => String::from_str("data: ").concat(text.as_str()),
            BacktestError::DataIo(error) => String::from_str("data source io: ").concat(
                &io_error_text(error),
            ),
            BacktestError::Conversion(text) => String::from_str("chain conversion: ").concat(
                text.as_str(),
            ),
            BacktestError::Session(text) => String::from_str("simulator session: ").concat(
                text.as_str(),
            ),
            BacktestError::Execution(text) => String::from_str("execution: ").concat(
                text.as_str(),
            ),
            BacktestError::OrderBook(text) => String::from_str("orderbook: ").concat(
                text.as_str(),
            ),
            BacktestError::Strategy(text) => String::from_str("strategy: ").concat(text.as_str()),
            BacktestError::Bundle(text) => String::from_str("bundle write: ").concat(
                text.as_str(),
            ),
            BacktestError::ArithmeticOverflow => String::from_str("arithmetic overflow"),
        }
    }
}

impl From<std::io::Error> for BacktestError {
    fn from(error: std::io::Error) -> (r: Self) {
        BacktestError::DataIo(error)
    }
}

impl FromSpecImpl<std::io::Error> for BacktestError {
    open spec fn obeys_from_spec() -> bool {
        true
    }

    open spec fn from_spec(error: std::io::Error) -> Self {
        BacktestError::DataIo(error)
    }
}

/// A message ends with what went wrong in the words of whoever found it, and
/// tells the kinds of errors apart by how it begins.
pub proof fn law_messages_end_in_their_words(text: String)
    ensures
        ({
            let t = text@;
            &&& BacktestError::Config(text).message() == "config: "@ + t
            &&& BacktestError::Data(text).message() == "data: "@ + t
            &&& BacktestError::Conversion(text).message() == "chain conversion: "@ + t
            &&& BacktestError::Session(text).message() == "simulator session: "@ + t
            &&& BacktestError::Execution(text).message() == "execution: "@ + t
            &&& BacktestError::OrderBook(text).message() == "orderbook: "@ + t
            &&& BacktestError::Strategy(text).message() == "strategy: "@ + t
            &&& BacktestError::Bundle(text).message() == "bundle write: "@ + t
        }),
{
}

/// The kind of an error is its variant and the numbers that it carries,
/// whatever its words.
pub proof fn law_kinds_forget_the_words(a: String, b: String)
    ensures
        BacktestError::Config(a).kind() == BacktestError::Config(b).kind(),
        BacktestError::Data(a).kind() == BacktestError::Data(b).kind(),
        BacktestError::Conversion(a).kind() == BacktestError::Conversion(b).kind(),
        BacktestError::Session(a).kind() == BacktestError::Session(b).kind(),
        BacktestError::Execution(a).kind() == BacktestError::Execution(b).kind(),
        BacktestError::OrderBook(a).kind() == BacktestError::OrderBook(b).kind(),
        BacktestError::Strategy(a).kind() == BacktestError::Strategy(b).kind(),
        BacktestError::Bundle(a).kind() == BacktestError::Bundle(b).kind(),
        BacktestError::Execution(a).kind() != BacktestError::Strategy(b).kind(),
        BacktestError::Execution(a).kind() != BacktestError::Conversion(b).kind(),
        BacktestError::Config(a).kind() != BacktestError::Data(b).kind(),
{
}

} // verus!
