//! Instants in UTC, modelled as seconds since the UNIX epoch plus a
//! sub-second part, with the calendar arithmetic that chrono performs on them.

use vstd::prelude::*;

verus! {

/// chrono's day number (`num_days_from_ce`) of 1970-01-01.
pub const UNIX_EPOCH_DAY: i64 = 719163;

/// Seconds in a day.
pub const SECS_PER_DAY: i64 = 86400;

/// The smallest day number of a date that chrono can represent.
pub const MIN_DAY: i64 = -95746129;

/// The largest day number of a date that chrono can represent.
pub const MAX_DAY: i64 = 95745399;

/// The day number (counted as chrono's `num_days_from_ce`) of the UTC day
/// that holds the instant `secs` seconds after the epoch.
pub open spec fn day_of_secs(secs: int) -> int {
    secs / (SECS_PER_DAY as int) + UNIX_EPOCH_DAY
}

/// Whether `day` is the number of a date that chrono can represent.
pub open spec fn day_in_range(day: int) -> bool {
    MIN_DAY <= day <= MAX_DAY
}

/// Whether chrono accepts `secs` and `nanos` as a UTC instant: the date must be
/// representable, and a sub-second part of a second or more (a leap second)
/// is allowed only in the last second of a minute.
pub open spec fn is_valid_instant(secs: int, nanos: int) -> bool {
    &&& day_in_range(day_of_secs(secs))
    &&& nanos < 2_000_000_000
    &&& (nanos >= 1_000_000_000 ==> (secs % (SECS_PER_DAY as int)) % 60 == 59)
}

/// The first second of the day with number `day`, counted from the epoch.
pub open spec fn day_start_secs(day: int) -> int {
    (day - UNIX_EPOCH_DAY) * SECS_PER_DAY
}

/// Midnight at the start of a day lies on that day.
pub proof fn lemma_day_of_day_start(day: int)
    ensures
        day_of_secs(day_start_secs(day)) == day,
{
    assert(((day - UNIX_EPOCH_DAY) * 86400) / 86400 == day - UNIX_EPOCH_DAY) by (nonlinear_arith);
}

/// Calls `chrono::DateTime::<Utc>::from_timestamp` and reports whether it
/// gives an instant. Its source returns `Some` exactly on the inputs that
/// `is_valid_instant` describes.
#[verifier::external_body]
fn chrono_accepts(secs: i64, nanos: u32) -> (ok: bool)
    ensures
        ok == is_valid_instant(secs as int, nanos as int),
{
    chrono::DateTime::<chrono::Utc>::from_timestamp(secs, nanos).is_some()
}

/// Calls chrono's `DateTime::<Utc>::from_timestamp(..).date_naive()` and returns
/// the date's `num_days_from_ce`. chrono computes the date as the Euclidean
/// quotient of `secs` by the seconds of a day, shifted to its own day numbering.
#[verifier::external_body]
fn chrono_day_number(secs: i64, nanos: u32) -> (day: i32)
    requires
        is_valid_instant(secs as int, nanos as int),
    ensures
        day as int == day_of_secs(secs as int),
{
    let instant = chrono::DateTime::<chrono::Utc>::from_timestamp(secs, nanos).unwrap();
    chrono::Datelike::num_days_from_ce(&instant.date_naive())
}

/// Calls chrono's `NaiveDate::from_num_days_from_ce_opt(day)`, then
/// `and_hms_opt(0, 0, 0)`, `and_utc()` and `timestamp()`: the UNIX time of
/// midnight at the start of that date.
#[verifier::external_body]
fn chrono_midnight(day: i32) -> (secs: i64)
    requires
        day_in_range(day as int),
    ensures
        secs as int == day_start_secs(day as int),
{
    chrono::NaiveDate::from_num_days_from_ce_opt(day).unwrap().and_hms_opt(0, 0, 0).unwrap().and_utc().timestamp()
}

/// An instant in UTC: whole seconds since 1970-01-01 00:00:00 UTC and the
/// nanoseconds past that second, as chrono's `DateTime<Utc>` holds it.
#[derive(Debug, Clone, Copy, PartialEq, Eq, Hash)]
pub struct Timestamp {
    secs: i64,
    nanos: u32,
}

impl Timestamp {
    #[verifier::type_invariant]
    spec fn inv(self) -> bool {
        is_valid_instant(self.secs as int, self.nanos as int)
    }

    /// Seconds since the epoch.
    pub closed spec fn seconds(self) -> int {
        self.secs as int
    }

    /// Nanoseconds past the second.
    pub closed spec fn subsec_nanos(self) -> int {
        self.nanos as int
    }

    /// Whether `self` comes strictly before `other` in time.
    pub open spec fn precedes(self, other: Timestamp) -> bool {
        ||| self.seconds() < other.seconds()
        ||| (self.seconds() == other.seconds() && self.subsec_nanos() < other.subsec_nanos())
    }

    /// Two timestamps with the same seconds and nanoseconds are the same.
    pub proof fn lemma_same_instant(a: Timestamp, b: Timestamp)
        requires
            a.seconds() == b.seconds(),
            a.subsec_nanos() == b.subsec_nanos(),
        ensures
            a == b,
    {
    }

    /// The instant `secs` seconds and `nanos` nanoseconds after the epoch, or
    /// `None` where chrono has no such instant.
    pub fn new(secs: i64, nanos: u32) -> (res: Option<Timestamp>)
        ensures
            res is Some <==> is_valid_instant(secs as int, nanos as int),
            res matches Some(t) ==> t.seconds() == secs && t.subsec_nanos() == nanos,
    {
        if chrono_accepts(secs, nanos) {
            Some(Timestamp { secs, nanos })
        } else {
            None
        }
    }

    /// Seconds since the epoch.
    pub fn secs(&self) -> (s: i64)
        ensures
            s == self.seconds(),
    {
        self.secs
    }

    /// Nanoseconds past the second.
    pub fn nanos(&self) -> (n: u32)
        ensures
            n == self.subsec_nanos(),
    {
        self.nanos
    }

    /// The number of the UTC day that holds this instant (the date that
    /// chrono's `date_naive` gives, as `num_days_from_ce`).
    pub fn day(&self) -> (d: i32)
        ensures
            d == day_of_secs(self.seconds()),
            day_in_range(d as int),
    {
        proof {
            use_type_invariant(self);
        }
        chrono_day_number(self.secs, self.nanos)
    }

    /// Whether `self` comes strictly before `other`.
    pub fn is_before(&self, other: &Timestamp) -> (b: bool)
        ensures
            b == self.precedes(*other),
    {
        self.secs < other.secs || (self.secs == other.secs && self.nanos < other.nanos)
    }
}

/// The UNIX time of midnight at the start of the day numbered `day`.
pub fn day_start(day: i32) -> (secs: i64)
    requires
        day_in_range(day as int),
    ensures
        secs as int == day_start_secs(day as int),
{
    chrono_midnight(day)
}

} // verus!
