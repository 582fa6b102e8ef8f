//! Calls into the date-time crate: the current time and timestamp parsing.

use vstd::prelude::*;

verus! {

/// The instant, in milliseconds since the Unix epoch, that chrono's parser
/// reads from the text (an RFC 3339 timestamp, or the relaxed form chrono
/// also accepts), or `None` when it reads none.
pub uninterp spec fn rfc3339_millis(text: Seq<char>) -> Option<i64>;

/// Relies on chrono's `FromStr` for `DateTime<Utc>` and `timestamp_millis`:
/// parses a timestamp in chrono's RFC 3339-like form; the outcome depends on
/// the text alone.
#[verifier::external_body]
pub fn parse_rfc3339_millis(text: &str) -> (r: Option<i64>)
    ensures
        r == rfc3339_millis(text@),
{
    text.parse::<chrono::DateTime<chrono::Utc>>().ok().map(|d| d.timestamp_millis())
}

/// Relies on chrono's `Utc::now` and `timestamp_millis`: the current time.
#[verifier::external_body]
pub fn now_millis() -> (r: i64) {
    chrono::Utc::now().timestamp_millis()
}

/// Relies on chrono's `Utc::now`, `DateTime::date_naive` and
/// `Datelike::num_days_from_ce`: today's UTC date as a day number, one more
/// on each following day.
#[verifier::external_body]
pub fn utc_day_number() -> (r: i32) {
    chrono::Datelike::num_days_from_ce(&chrono::Utc::now().date_naive())
}

/// Relies on chrono's `Utc::now` and `Timelike::minute` and `second`: the
/// current UTC minute (0 to 59) and second (0 to 59).
#[verifier::external_body]
pub fn utc_minute_second() -> (r: (u32, u32))
    ensures
        r.0 < 60,
        r.1 < 60,
{
    let now = chrono::Utc::now();
    (chrono::Timelike::minute(&now), chrono::Timelike::second(&now))
}

} // verus!
