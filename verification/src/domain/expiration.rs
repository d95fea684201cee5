//! Contract expirations: an instant, or a number of days not resolved yet.

use crate::domain::decimal::compare_decimals;
use crate::domain::positive::Positive;
use core::cmp::Ordering;
use optionstratlib::ExpirationDate as OutsideExpiration;
use vstd::prelude::*;
use vstd::std_specs::cmp::PartialEqSpecImpl;

verus! {

/// Nanoseconds in one second.
pub const NANOS_PER_SECOND: i64 = 1_000_000_000;

/// The first second that the calendar can name.
pub const MIN_SECONDS: i64 = -8_334_601_228_800;

/// The last second that the calendar can name.
pub const MAX_SECONDS: i64 = 8_210_266_876_799;

/// An instant in universal time: seconds since the Unix epoch, and
/// nanoseconds behind that second. Inside a leap second, which only the last
/// second of a minute can carry, the nanoseconds run on past one second.
#[derive(Clone, Copy, Debug)]
pub struct Instant {
    secs: i64,
    nanos: u32,
}

impl Instant {
    /// Seconds since the Unix epoch.
    pub closed spec fn seconds(self) -> int {
        self.secs as int
    }

    /// Nanoseconds behind the second.
    pub closed spec fn subsec(self) -> int {
        self.nanos as int
    }

    /// The instant is one that the calendar can name.
    #[verifier::type_invariant]
    pub open spec fn wf(self) -> bool {
        &&& MIN_SECONDS <= self.seconds() <= MAX_SECONDS
        &&& 0 <= self.subsec() < 2 * NANOS_PER_SECOND
        &&& self.subsec() >= NANOS_PER_SECOND ==> self.seconds() % 60 == 59
    }

    /// The instant at some seconds and nanoseconds.
    pub closed spec fn of(seconds: int, subsec: int) -> Self {
        Instant { secs: seconds as i64, nanos: subsec as u32 }
    }

    /// An instant is what its seconds and nanoseconds say it is.
    pub proof fn lemma_of(self)
        ensures
            Instant::of(self.seconds(), self.subsec()) == self,
    {
    }

    /// The instant in nanoseconds since the Unix epoch.
    pub open spec fn nanos_since_epoch(self) -> int {
        self.seconds() * NANOS_PER_SECOND + self.subsec()
    }
}

impl View for Instant {
    type V = (int, int);

    open spec fn view(&self) -> (int, int) {
        (self.seconds(), self.subsec())
    }
}

impl Instant {
    /// The instant at `secs` seconds and `nanos` nanoseconds, where the
    /// calendar can name it.
    pub fn from_timestamp(secs: i64, nanos: u32) -> (r: Option<Self>)
        ensures
            match r {
                Some(t) => t.seconds() == secs && t.subsec() == nanos,
                None => !(MIN_SECONDS <= secs <= MAX_SECONDS && nanos < 2 * NANOS_PER_SECOND && (
                nanos >= NANOS_PER_SECOND ==> secs % 60 == 59)),
            },
    {
        if secs < MIN_SECONDS || secs > MAX_SECONDS || nanos >= 2_000_000_000 {
            return None;
        }
        if nanos >= 1_000_000_000 {
            let shifted: u64 = (secs + 8_334_601_228_800) as u64;
            assert(shifted % 60 == secs % 60);
            if shifted % 60 != 59 {
                return None;
            }
        }
        Some(Instant { secs, nanos })
    }

    /// The instant at `nanos` nanoseconds since the Unix epoch.
    pub fn from_timestamp_nanos(nanos: i64) -> (t: Self)
        ensures
            t.seconds() == nanos as int / NANOS_PER_SECOND as int,
            t.subsec() == nanos as int % NANOS_PER_SECOND as int,
            t.nanos_since_epoch() == nanos,
    {
        from_timestamp_nanos(nanos)
    }

    /// Seconds since the Unix epoch.
    pub fn timestamp(&self) -> (secs: i64)
        ensures
            secs == self.seconds(),
    {
        self.secs
    }

    /// Nanoseconds behind the second.
    pub fn timestamp_subsec_nanos(&self) -> (nanos: u32)
        ensures
            nanos == self.subsec(),
    {
        self.nanos
    }

    /// Nanoseconds since the Unix epoch, where an `i64` can hold them.
    pub fn timestamp_nanos_opt(&self) -> (r: Option<i64>)
        ensures
            r == (if i64::MIN <= self.nanos_since_epoch() <= i64::MAX {
                Some(self.nanos_since_epoch() as i64)
            } else {
                None
            }),
    {
        timestamp_nanos_opt(*self)
    }
}

/// Convert by `chrono::DateTime::from_timestamp_nanos`: whole seconds, rounded
/// down, and the rest in nanoseconds.
#[verifier::external_body]
fn from_timestamp_nanos(nanos: i64) -> (t: Instant)
    ensures
        t.seconds() == nanos as int / NANOS_PER_SECOND as int,
        t.subsec() == nanos as int % NANOS_PER_SECOND as int,
        t.nanos_since_epoch() == nanos,
{
    let instant = chrono::DateTime::<chrono::Utc>::from_timestamp_nanos(nanos);
    Instant { secs: instant.timestamp(), nanos: instant.timestamp_subsec_nanos() }
}

/// Convert by `chrono::DateTime::timestamp_nanos_opt`: the nanoseconds since
/// the Unix epoch, missing where they leave the range of an `i64`.
#[verifier::external_body]
fn timestamp_nanos_opt(t: Instant) -> (r: Option<i64>)
    ensures
        r == (if i64::MIN <= t.nanos_since_epoch() <= i64::MAX {
            Some(t.nanos_since_epoch() as i64)
        } else {
            None
        }),
{
    chrono::DateTime::<chrono::Utc>::from_timestamp(t.secs, t.nanos)?.timestamp_nanos_opt()
}

/// An instant as the `Display` of `chrono::DateTime<Utc>` writes it.
pub uninterp spec fn instant_text(secs: int, nanos: int) -> Seq<char>;

/// Write by the `Display` of `chrono::DateTime<Utc>`, whose text is a function
/// of the instant alone. An instant that the calendar cannot name does not
/// arise: the type rules it out.
#[verifier::external_body]
pub(crate) fn display_instant(t: Instant) -> (text: String)
    ensures
        text@ == instant_text(t.seconds(), t.subsec()),
{
    let instant = chrono::DateTime::<chrono::Utc>::from_timestamp(t.secs, t.nanos);
    format!("{}", instant.unwrap_or_default())
}

/// An instant as the `Debug` of `chrono::DateTime<Utc>` writes it.
pub uninterp spec fn instant_debug(secs: int, nanos: int) -> Seq<char>;

/// Write by the `Debug` of `chrono::DateTime<Utc>`, whose text is a function of
/// the instant alone. An instant that the calendar cannot name does not arise:
/// the type rules it out.
#[verifier::external_body]
pub(crate) fn debug_instant(t: Instant) -> (text: String)
    ensures
        text@ == instant_debug(t.seconds(), t.subsec()),
{
    let instant = chrono::DateTime::<chrono::Utc>::from_timestamp(t.secs, t.nanos);
    format!("{:?}", instant.unwrap_or_default())
}

/// The expirations of `optionstratlib`.
#[verifier::external_type_specification]
#[verifier::external_body]
pub struct ExExpirationDate(OutsideExpiration);

impl ExpirationDate {
    /// The same expiration as `optionstratlib` writes it, to be handed to an
    /// outside function; an instant goes by `chrono::DateTime::from_timestamp`.
    /// Nothing is claimed of what is inside it.
    #[verifier::external_body]
    pub(crate) fn outside(self) -> (e: OutsideExpiration) {
        match self {
            ExpirationDate::Days(days) => OutsideExpiration::Days(days.outside()),
            ExpirationDate::DateTime(t) => OutsideExpiration::DateTime(
                chrono::DateTime::from_timestamp(t.secs, t.nanos).unwrap_or_default(),
            ),
        }
    }
}

/// When a contract expires.
#[derive(Clone, Copy, Debug)]
pub enum ExpirationDate {
    /// A number of days from an anchor that is yet to be applied.
    Days(Positive),
    /// An absolute instant.
    DateTime(Instant),
}

impl PartialEq for ExpirationDate {
    /// Two expirations are equal where they are exactly equal.
    fn eq(&self, other: &Self) -> (r: bool) {
        expiration_exact_eq(self, other)
    }
}

impl PartialEqSpecImpl for ExpirationDate {
    open spec fn obeys_eq_spec() -> bool {
        true
    }

    open spec fn eq_spec(&self, other: &Self) -> bool {
        self@ == other@
    }
}

impl Eq for ExpirationDate {

}

/// What an expiration stands for: a number of days by value, or an instant.
pub enum ExpirationView {
    Days(int),
    DateTime(int, int),
}

impl View for ExpirationDate {
    type V = ExpirationView;

    open spec fn view(&self) -> ExpirationView {
        match *self {
            ExpirationDate::Days(days) => ExpirationView::Days(days@),
            ExpirationDate::DateTime(t) => ExpirationView::DateTime(t.seconds(), t.subsec()),
        }
    }
}

impl ExpirationView {
    /// The expiration as three integers, which order lexicographically: days
    /// before instants, days by value, instants by time.
    pub open spec fn rank(self) -> (int, int, int) {
        match self {
            ExpirationView::Days(days) => (0, days, 0),
            ExpirationView::DateTime(secs, nanos) => (1, secs, nanos),
        }
    }
}

/// The lexicographic order of two triples.
pub open spec fn triple_order(a: (int, int, int), b: (int, int, int)) -> Ordering {
    if a.0 != b.0 {
        int_order(a.0, b.0)
    } else if a.1 != b.1 {
        int_order(a.1, b.1)
    } else {
        int_order(a.2, b.2)
    }
}

/// The order of two integers.
pub open spec fn int_order(a: int, b: int) -> Ordering {
    if a < b {
        Ordering::Less
    } else if a == b {
        Ordering::Equal
    } else {
        Ordering::Greater
    }
}

/// Compare two expirations exactly: days before instants, days by value,
/// instants by time.
pub fn expiration_exact_cmp(a: &ExpirationDate, b: &ExpirationDate) -> (r: Ordering)
    ensures
        r == triple_order(a@.rank(), b@.rank()),
        (r == Ordering::Equal) == (a@ == b@),
{
    match (a, b) {
        (ExpirationDate::Days(x), ExpirationDate::Days(y)) => compare_decimals(
            x.to_dec(),
            y.to_dec(),
        ),
        (ExpirationDate::DateTime(x), ExpirationDate::DateTime(y)) => compare_instants(*x, *y),
        (ExpirationDate::Days(_), ExpirationDate::DateTime(_)) => Ordering::Less,
        (ExpirationDate::DateTime(_), ExpirationDate::Days(_)) => Ordering::Greater,
    }
}

/// Whether two expirations are exactly equal.
pub fn expiration_exact_eq(a: &ExpirationDate, b: &ExpirationDate) -> (r: bool)
    ensures
        r == (a@ == b@),
{
    match expiration_exact_cmp(a, b) {
        Ordering::Equal => true,
        _ => false,
    }
}

/// Compare two instants by time.
fn compare_instants(a: Instant, b: Instant) -> (r: Ordering)
    ensures
        r == triple_order((1, a.seconds(), a.subsec()), (1, b.seconds(), b.subsec())),
{
    if a.secs < b.secs {
        Ordering::Less
    } else if a.secs > b.secs {
        Ordering::Greater
    } else if a.nanos < b.nanos {
        Ordering::Less
    } else if a.nanos > b.nanos {
        Ordering::Greater
    } else {
        Ordering::Equal
    }
}

/// An instant is so many nanoseconds past the epoch as its seconds and what is
/// behind them make, a thousand million to the second.
pub proof fn law_seconds_have_a_thousand_million_nanoseconds(t: Instant)
    ensures
        t.nanos_since_epoch() == t.seconds() * 1_000_000_000 + t.subsec(),
{
}

} // verus!
