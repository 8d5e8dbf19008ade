//! Instants in UTC at second precision, and the two computations on them
//! that are left to `chrono` and `timeago`.

use vstd::prelude::*;

verus! {

/// An instant in UTC, counted in whole seconds since 1970-01-01T00:00:00Z.
#[derive(Clone, Copy, Debug, PartialEq, Eq, Structural)]
pub struct Timestamp {
    pub secs: i64,
}

/// The diagnostic that `chrono` gives when a text is not a timestamp.
#[verifier::external_type_specification]
#[verifier::external_body]
pub struct ExParseError(chrono::format::ParseError);

/// What `chrono` reads from `text` under the strftime pattern `pattern`,
/// taken in UTC, as seconds since the epoch; `None` where it rejects the text.
/// Leap seconds are not counted: a second numbered 60 is the second before it.
pub uninterp spec fn utc_seconds(text: Seq<char>, pattern: Seq<char>) -> Option<i64>;

/// What `timeago`'s default (English) formatter writes for a span of
/// `elapsed` whole seconds.
pub uninterp spec fn time_ago_text(elapsed: u64) -> Seq<char>;

/// Calls `chrono::TimeZone::datetime_from_str` on `Utc` and hands back the
/// instant's `timestamp()`. The call depends on the two texts alone, so its
/// outcome is `utc_seconds` of them; on rejection `chrono`'s error is passed on.
#[verifier::external_body]
#[allow(deprecated)]
pub(crate) fn parse_utc_seconds(text: &str, pattern: &str) -> (r: Result<
    i64,
    chrono::format::ParseError,
>)
    ensures
        r matches Ok(secs) ==> utc_seconds(text@, pattern@) == Some(secs),
        r is Err ==> utc_seconds(text@, pattern@) is None,
{
    match chrono::TimeZone::datetime_from_str(&chrono::Utc, text, pattern) {
        Ok(instant) => Ok(instant.timestamp()),
        Err(e) => Err(e),
    }
}

/// Calls `timeago::Formatter::convert` of a formatter made by
/// `timeago::Formatter::new` on a duration of `elapsed` seconds. The text
/// depends on the duration alone, so it is `time_ago_text` of it.
#[verifier::external_body]
pub(crate) fn format_time_ago(elapsed: u64) -> (text: String)
    ensures
        text@ == time_ago_text(elapsed),
{
    timeago::Formatter::new().convert(std::time::Duration::from_secs(elapsed))
}

impl Timestamp {
    /// The instant `secs` seconds after the epoch (before it, if negative).
    pub fn from_unix_seconds(secs: i64) -> (t: Timestamp)
        ensures
            t.secs == secs,
    {
        Timestamp { secs }
    }

    /// Seconds since the epoch.
    pub fn unix_seconds(&self) -> (secs: i64)
        ensures
            secs == self.secs,
    {
        self.secs
    }

    /// The whole seconds that lie between `earlier` and `self`, if `earlier`
    /// is not after `self`.
    pub open spec fn elapsed_since(self, earlier: Timestamp) -> Option<u64> {
        if earlier.secs <= self.secs {
            Some((self.secs - earlier.secs) as u64)
        } else {
            None
        }
    }

    /// The time that has passed from `earlier` to `self`; `None` when
    /// `earlier` lies in the future of `self`.
    pub fn seconds_since(&self, earlier: Timestamp) -> (elapsed: Option<u64>)
        ensures
            elapsed == self.elapsed_since(earlier),
            elapsed matches Some(d) ==> d == self.secs - earlier.secs,
    {
        if earlier.secs <= self.secs {
            let span: i128 = self.secs as i128 - earlier.secs as i128;
            Some(span as u64)
        } else {
            None
        }
    }
}

} // verus!
