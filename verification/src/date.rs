use chrono::DateTime;
use vstd::prelude::*;

verus! {

/// Whether chrono can represent the UTC instant `secs` seconds and `nanos`
/// nanoseconds after the Unix epoch (`DateTime::from_timestamp` gives `Some`):
/// the day lies between January 1 of year -262143 and December 31 of year
/// 262142, and the nanoseconds are below one second, or below two seconds
/// (a leap second) when the instant is the last second of a minute.
pub open spec fn utc_representable(secs: i64, nanos: u32) -> bool {
    &&& -8334601228800 <= secs <= 8210266876799
    &&& (nanos < 1_000_000_000 || (nanos < 2_000_000_000 && secs % 60 == 59))
}

/// The text chrono's `DateTime<Utc>::format(fmt)` renders for that instant.
pub uninterp spec fn utc_strftime(secs: i64, nanos: u32, fmt: Seq<char>) -> Seq<char>;

/// The text chrono's `DateTime<Utc>::to_rfc3339` renders for that instant.
pub uninterp spec fn utc_rfc3339(secs: i64, nanos: u32) -> Seq<char>;

/// What chrono's `DateTime::parse_from_rfc3339(s)`, formatted with `fmt` in the
/// parsed offset, renders; `None` when `s` does not parse.
pub uninterp spec fn rfc3339_reformatted(s: Seq<char>, fmt: Seq<char>) -> Option<Seq<char>>;

/// The format of a human-readable date label, such as `Mar 4, 2024`.
pub open spec fn label_format() -> Seq<char> {
    "%b %-d, %Y"@
}

/// The format of a calendar date, such as `2024-03-04`.
pub open spec fn day_format() -> Seq<char> {
    "%Y-%m-%d"@
}

/// The strftime formats this library renders dates with.
pub open spec fn known_format(fmt: Seq<char>) -> bool {
    fmt == label_format() || fmt == day_format()
}

/// Trusted: `chrono::DateTime::from_timestamp(secs, nanos).is_some()`, whose
/// range check (through `NaiveDate::from_num_days_from_ce_opt` and
/// `NaiveTime::from_num_seconds_from_midnight_opt`) `utc_representable` spells out.
#[verifier::external_body]
fn representable(secs: i64, nanos: u32) -> (b: bool)
    ensures
        b == utc_representable(secs, nanos),
{
    DateTime::from_timestamp(secs, nanos).is_some()
}

/// Trusted: chrono's `DateTime<Utc>::format(fmt).to_string()` for the instant
/// `(secs, nanos)`, built with `DateTime::from_timestamp`. Only called with an
/// instant chrono represents and a format string that renders without error.
/// The result is the name `utc_strftime(secs, nanos, fmt@)`.
#[verifier::external_body]
fn strftime_utc(secs: i64, nanos: u32, fmt: &str) -> (text: String)
    requires
        utc_representable(secs, nanos),
        known_format(fmt@),
    ensures
        text@ == utc_strftime(secs, nanos, fmt@),
{
    DateTime::from_timestamp(secs, nanos).unwrap().format(fmt).to_string()
}

/// Trusted: chrono's `DateTime<Utc>::to_rfc3339()` for the instant `(secs, nanos)`,
/// built with `DateTime::from_timestamp`. The result is the name `utc_rfc3339(secs, nanos)`.
#[verifier::external_body]
fn rfc3339_utc(secs: i64, nanos: u32) -> (text: String)
    requires
        utc_representable(secs, nanos),
    ensures
        text@ == utc_rfc3339(secs, nanos),
{
    DateTime::from_timestamp(secs, nanos).unwrap().to_rfc3339()
}

/// Trusted: chrono's `DateTime::parse_from_rfc3339(s)`, and on success
/// `format(fmt).to_string()` of the parsed date in its own offset.
/// The result is the name `rfc3339_reformatted(s@, fmt@)`.
#[verifier::external_body]
pub(crate) fn reformat_rfc3339(s: &str, fmt: &str) -> (text: Option<String>)
    requires
        known_format(fmt@),
    ensures
        match text {
            Some(t) => rfc3339_reformatted(s@, fmt@) == Some(t@),
            None => rfc3339_reformatted(s@, fmt@) is None,
        },
{
    match DateTime::parse_from_rfc3339(s) {
        Ok(d) => Some(d.format(fmt).to_string()),
        Err(_) => None,
    }
}

/// An instant chrono can represent: seconds and nanoseconds after the Unix epoch.
#[derive(Debug, Clone, Copy)]
pub struct Timestamp {
    secs: i64,
    nanos: u32,
}

/// `a` is strictly later than `b`, instants compared as (seconds, nanoseconds).
pub open spec fn later(a: (i64, u32), b: (i64, u32)) -> bool {
    a.0 > b.0 || (a.0 == b.0 && a.1 > b.1)
}

impl View for Timestamp {
    type V = (i64, u32);

    closed spec fn view(&self) -> (i64, u32) {
        (self.secs, self.nanos)
    }
}

impl Timestamp {
    #[verifier::type_invariant]
    spec fn valid(self) -> bool {
        utc_representable(self.secs, self.nanos)
    }

    /// The instant `secs` seconds and `nanos` nanoseconds after the epoch, if
    /// chrono can represent it.
    pub fn new(secs: i64, nanos: u32) -> (t: Option<Timestamp>)
        ensures
            t is Some <==> utc_representable(secs, nanos),
            t matches Some(t) ==> t@ == (secs, nanos),
    {
        if representable(secs, nanos) {
            Some(Timestamp { secs, nanos })
        } else {
            None
        }
    }

    /// Whole seconds after the epoch.
    pub fn secs(&self) -> (s: i64)
        ensures
            s == self@.0,
    {
        self.secs
    }

    /// Nanoseconds past the whole second.
    pub fn nanos(&self) -> (n: u32)
        ensures
            n == self@.1,
    {
        self.nanos
    }

    /// Whether this instant is strictly later than `other`.
    pub fn is_later_than(&self, other: &Timestamp) -> (b: bool)
        ensures
            b == later(self@, other@),
    {
        self.secs > other.secs || (self.secs == other.secs && self.nanos > other.nanos)
    }

    /// The date as `Mar 4, 2024`.
    pub fn label(&self) -> (text: String)
        ensures
            text@ == utc_strftime(self@.0, self@.1, label_format()),
    {
        proof {
            use_type_invariant(self);
        }
        strftime_utc(self.secs, self.nanos, "%b %-d, %Y")
    }

    /// The date as `2024-03-04`.
    pub fn day(&self) -> (text: String)
        ensures
            text@ == utc_strftime(self@.0, self@.1, day_format()),
    {
        proof {
            use_type_invariant(self);
        }
        strftime_utc(self.secs, self.nanos, "%Y-%m-%d")
    }

    /// The instant in RFC 3339 form.
    pub fn rfc3339(&self) -> (text: String)
        ensures
            text@ == utc_rfc3339(self@.0, self@.1),
    {
        proof {
            use_type_invariant(self);
        }
        rfc3339_utc(self.secs, self.nanos)
    }
}

} // verus!
