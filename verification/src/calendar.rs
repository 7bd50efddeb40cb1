//! Calendar dates, read and written by `chrono`.
use vstd::prelude::*;

verus! {

/// The instant, in milliseconds since the epoch, that `chrono` reads from a
/// date-and-time text with an offset; `None` for a text that it rejects.
pub uninterp spec fn utc_millis(text: Seq<char>) -> Option<i64>;

/// The text that `chrono` writes for the UTC date and time at an instant,
/// under a `strftime` pattern; `None` for an instant beyond its calendar.
pub uninterp spec fn utc_text(ms: i64, pattern: Seq<char>) -> Option<Seq<char>>;

/// The pattern of a calendar day: year, month, day.
pub open spec fn day_pattern() -> Seq<char> {
    "%Y%m%d"@
}

/// The pattern of a calendar second: year, month, day, hour, minute, second.
pub open spec fn second_pattern() -> Seq<char> {
    "%Y%m%d%H%M%S"@
}

/// `str::parse::<chrono::DateTime<chrono::Utc>>` and then
/// `DateTime::timestamp_millis`. The contract claims only that the outcome is
/// a function of the text, the one that `utc_millis` names.
#[verifier::external_body]
pub(crate) fn read_utc_millis(text: &str) -> (r: Option<i64>)
    ensures
        r == utc_millis(text@),
{
    match text.parse::<chrono::DateTime<chrono::Utc>>() {
        Ok(d) => Some(d.timestamp_millis()),
        Err(_) => None,
    }
}

/// `chrono::DateTime::from_timestamp_millis` and then `DateTime::format`
/// with one of the two patterns above, which hold no specifier that `chrono`
/// refuses. The contract claims only that the outcome is a function of the
/// instant and the pattern, the one that `utc_text` names.
#[verifier::external_body]
fn write_utc(ms: i64, pattern: &str) -> (r: Option<String>)
    requires
        pattern@ == day_pattern() || pattern@ == second_pattern(),
    ensures
        match r {
            Some(s) => utc_text(ms, pattern@) == Some(s@),
            None => utc_text(ms, pattern@) is None,
        },
{
    match chrono::DateTime::from_timestamp_millis(ms) {
        Some(d) => Some(d.format(pattern).to_string()),
        None => None,
    }
}

/// The calendar day of an instant, as eight digits.
pub fn day_of(ms: i64) -> (r: Option<String>)
    ensures
        match r {
            Some(s) => utc_text(ms, day_pattern()) == Some(s@),
            None => utc_text(ms, day_pattern()) is None,
        },
{
    write_utc(ms, "%Y%m%d")
}

/// The calendar second of an instant, as fourteen digits.
pub fn second_of(ms: i64) -> (r: Option<String>)
    ensures
        match r {
            Some(s) => utc_text(ms, second_pattern()) == Some(s@),
            None => utc_text(ms, second_pattern()) is None,
        },
{
    write_utc(ms, "%Y%m%d%H%M%S")
}

} // verus!
