//! Wall-clock readings and their RFC-3339 rendering. The clock itself and
//! the calendar arithmetic are outside work; pulses and templates only ever
//! see the resulting plain values.

use vstd::prelude::*;

verus! {

/// The RFC-3339 rendering (millisecond precision, `Z` suffix) of an epoch
/// millisecond timestamp, when the timestamp is representable.
pub uninterp spec fn rfc3339_millis_of(ms: int) -> Option<Seq<char>>;

/// Relies on `chrono::DateTime::from_timestamp_millis` and
/// `to_rfc3339_opts(SecondsFormat::Millis, true)`: the rendering is a
/// function of the timestamp alone; out-of-range timestamps have none, and
/// every timestamp from the epoch to the end of year 9999 (well inside
/// chrono's representable years) has one.
#[verifier::external_body]
pub fn format_rfc3339_millis(ms: i64) -> (r: Option<String>)
    ensures
        match r {
            Option::Some(s) => rfc3339_millis_of(ms as int) == Option::Some(s@),
            Option::None => rfc3339_millis_of(ms as int) is None,
        },
        0 <= ms <= 253402300799999 ==> r is Some,
{
    chrono::DateTime::<chrono::Utc>::from_timestamp_millis(ms).map(
        |dt| dt.to_rfc3339_opts(chrono::SecondsFormat::Millis, true),
    )
}

/// Relies on `std::time::SystemTime::now`: the current wall clock as epoch
/// milliseconds, reading 0 on a clock set before the epoch (where
/// `duration_since` errs) or past the representable range. Nothing can be
/// promised of the value; every caller must hold for any reading.
#[verifier::external_body]
pub fn now_epoch_millis() -> (r: i64)
{
    match std::time::SystemTime::now().duration_since(std::time::UNIX_EPOCH) {
        Ok(d) => i64::try_from(d.as_millis()).unwrap_or(0),
        Err(_) => 0,
    }
}

} // verus!
