//! Points in time as RFC 3339 text.

use vstd::prelude::*;

use crate::model::node::Timestamp;

verus! {

/// What `chrono` writes for a point in time, in UTC with the fewest of zero, three,
/// six or nine fractional digits that lose nothing; nothing where it cannot
/// represent the point.
pub uninterp spec fn rfc3339_text(secs: i64, nanos: u32) -> Option<Seq<char>>;

/// The point in time that `chrono` reads from a text, if it reads one.
pub uninterp spec fn rfc3339_instant(text: Seq<char>) -> Option<(i64, u32)>;

/// A point in time within the years 0 to 9999.
pub open spec fn four_digit_year(secs: i64, nanos: u32) -> bool {
    -62_167_219_200 <= secs <= 253_402_300_799 && nanos < 1_000_000_000
}

/// `chrono::DateTime::from_timestamp`, then `to_rfc3339_opts` with automatic
/// fraction and `Z`. It is trusted that the text depends on the point in time
/// alone, that there is one for every point within the years 0 to 9999, and that
/// reading it gives the point in time back.
#[verifier::external_body]
fn format_instant(secs: i64, nanos: u32) -> (r: Option<String>)
    ensures
        match r {
            Some(s) => rfc3339_text(secs, nanos) == Some(s@) && rfc3339_instant(s@) == Some(
                (secs, nanos),
            ),
            None => rfc3339_text(secs, nanos) is None,
        },
        four_digit_year(secs, nanos) ==> r is Some,
{
    match chrono::DateTime::<chrono::Utc>::from_timestamp(secs, nanos) {
        Some(t) => Some(t.to_rfc3339_opts(chrono::SecondsFormat::AutoSi, true)),
        None => None,
    }
}

/// `str::parse` to a `chrono::DateTime<Utc>`, handed out as seconds and nanoseconds.
/// It is trusted that the outcome depends on the text alone. Nothing is claimed of
/// the error message.
#[verifier::external_body]
fn parse_instant(text: &str) -> (r: Result<(i64, u32), String>)
    ensures
        match r {
            Ok(t) => rfc3339_instant(text@) == Some(t),
            Err(_) => rfc3339_instant(text@) is None,
        },
{
    match text.parse::<chrono::DateTime<chrono::Utc>>() {
        Ok(t) => Ok((t.timestamp(), t.timestamp_subsec_nanos())),
        Err(e) => Err(e.to_string()),
    }
}

impl Timestamp {
    /// The text of the point in time, if it has one.
    pub open spec fn rfc3339(self) -> Option<Seq<char>> {
        rfc3339_text(self.secs, self.nanos)
    }

    /// The point in time that a text gives.
    pub open spec fn from_rfc3339(text: Seq<char>) -> Option<Timestamp> {
        match rfc3339_instant(text) {
            Some((secs, nanos)) => Some(Timestamp { secs, nanos }),
            None => None,
        }
    }

    /// Write the point in time as text. What is written can be read back.
    pub fn format(&self) -> (r: Option<String>)
        ensures
            match r {
                Some(s) => self.rfc3339() == Some(s@) && Timestamp::from_rfc3339(s@) == Some(
                    *self,
                ),
                None => self.rfc3339() is None,
            },
            four_digit_year(self.secs, self.nanos) ==> r is Some,
    {
        format_instant(self.secs, self.nanos)
    }

    /// Read a point in time from text.
    pub fn parse(text: &str) -> (r: Result<Timestamp, String>)
        ensures
            match r {
                Ok(t) => Timestamp::from_rfc3339(text@) == Some(t),
                Err(_) => Timestamp::from_rfc3339(text@) is None,
            },
    {
        match parse_instant(text) {
            Ok((secs, nanos)) => Ok(Timestamp { secs, nanos }),
            Err(e) => Err(e),
        }
    }
}

} // verus!
