//! UTC instants, held as milliseconds since the Unix epoch, and their RFC
//! 3339 text form. The rendering and reading of the text form is done by
//! chrono behind trusted wrappers; everything this library states about a
//! timestamp's place inside an encoded datum is proved from those contracts.

use vstd::prelude::*;

verus! {

/// Earliest supported instant: 0001-01-01T00:00:00 UTC, in milliseconds.
pub const TS_MILLIS_MIN: i64 = -62135596800000;

/// Latest supported instant: 9999-12-31T23:59:59.999 UTC, in milliseconds.
pub const TS_MILLIS_MAX: i64 = 253402300799999;

/// Instants this library can hold: those whose RFC 3339 year has four
/// digits, so that rendering and re-reading them is lossless.
pub open spec fn ts_millis_in_range(ms: int) -> bool {
    TS_MILLIS_MIN as int <= ms <= TS_MILLIS_MAX as int
}

/// The RFC 3339 text chrono renders for an in-range instant.
pub uninterp spec fn rfc3339_of(ms: int) -> Seq<char>;

/// The instant chrono reads back from a piece of text, truncated to
/// milliseconds; `None` when the text is not a valid RFC 3339 date-time.
pub uninterp spec fn rfc3339_millis(s: Seq<char>) -> Option<i64>;

/// A UTC instant with millisecond precision.
#[derive(Structural, PartialEq, Eq, Clone, Copy, Debug, Hash)]
pub struct Timestamp {
    pub millis: i64,
}

impl Timestamp {
    /// The instant lies in the supported era.
    pub open spec fn wf(self) -> bool {
        ts_millis_in_range(self.millis as int)
    }

    /// Wraps a millisecond count, or `None` when it falls outside the
    /// supported era.
    pub fn from_millis(ms: i64) -> (r: Option<Timestamp>)
        ensures
            r is Some <==> ts_millis_in_range(ms as int),
            r is Some ==> r.unwrap() == (Timestamp { millis: ms }),
    {
        if TS_MILLIS_MIN <= ms && ms <= TS_MILLIS_MAX {
            Some(Timestamp { millis: ms })
        } else {
            None
        }
    }

    pub fn millis(&self) -> (r: i64)
        ensures
            r == self.millis,
    {
        self.millis
    }
}

/// Relies on chrono: `Utc.timestamp_millis_opt` yields a date-time for every
/// in-range millisecond count, and `DateTime::to_rfc3339` renders it as an
/// RFC 3339 date-time — a nonempty string determined by the instant alone,
/// made of digits and date-time punctuation (never an `'@'`), which
/// `parse_from_rfc3339` reads back to the same instant.
#[verifier::external_body]
pub(crate) fn format_rfc3339(ms: i64) -> (r: String)
    requires
        ts_millis_in_range(ms as int),
    ensures
        r@ == rfc3339_of(ms as int),
        r@.len() > 0,
        forall|i: int| 0 <= i < r@.len() ==> r@[i] != '@',
        rfc3339_millis(r@) == Some(ms),
{
    match chrono::TimeZone::timestamp_millis_opt(&chrono::Utc, ms) {
        chrono::LocalResult::Single(dt) => dt.to_rfc3339(),
        _ => String::new(),
    }
}

/// Relies on chrono's `DateTime::parse_from_rfc3339` and
/// `DateTime::timestamp_millis`: reading a piece of text as an RFC 3339
/// date-time is a function of the text alone.
#[verifier::external_body]
pub(crate) fn parse_rfc3339_millis(s: &str) -> (r: Option<i64>)
    ensures
        r == rfc3339_millis(s@),
{
    match chrono::DateTime::parse_from_rfc3339(s) {
        Ok(dt) => Some(dt.timestamp_millis()),
        Err(_) => None,
    }
}

/// Relies on chrono's `Utc::now`: the machine clock, read as milliseconds
/// since the Unix epoch. Nothing is promised of the value.
#[verifier::external_body]
pub(crate) fn now_millis() -> i64 {
    chrono::Utc::now().timestamp_millis()
}

} // verus!
