use vstd::prelude::*;

use crate::clock::{parse_rfc3339_millis, rfc3339_millis};
use crate::models::Reading;
use crate::protocol::STALE_WINDOW_MS;

verus! {

/// `|a - b|` over the integers.
pub open spec fn abs_diff(a: int, b: int) -> int {
    if a >= b { a - b } else { b - a }
}

/// Two instants (in milliseconds) belong to the same measurement.
pub open spec fn same_measurement(new_ms: int, last_ms: int) -> bool {
    abs_diff(new_ms, last_ms) < STALE_WINDOW_MS
}

/// Whether a reading taken at `new_ms` is stored, given the instant of the
/// most recent stored reading: `None` when there is none or when its
/// timestamp could not be read, in which case the reading is stored.
pub open spec fn store_decision(new_ms: int, last: Option<i64>) -> bool {
    match last {
        None => true,
        Some(t) => !same_measurement(new_ms, t as int),
    }
}

/// The instant of a stored timestamp text, if there is a text and it parses.
pub open spec fn last_instant(last_timestamp: Option<Seq<char>>) -> Option<i64> {
    match last_timestamp {
        None => None,
        Some(s) => rfc3339_millis(s),
    }
}

/// Whether two instants lie strictly less than the staleness window apart.
pub fn is_same_measurement(new_ms: i64, last_ms: i64) -> (r: bool)
    ensures
        r == same_measurement(new_ms as int, last_ms as int),
{
    let d: i128 = new_ms as i128 - last_ms as i128;
    let a: i128 = if d >= 0 { d } else { -d };
    a < STALE_WINDOW_MS as i128
}

/// The staleness policy on an already parsed stored instant.
pub fn should_store(new_ms: i64, last: Option<i64>) -> (r: bool)
    ensures
        r == store_decision(new_ms as int, last),
{
    match last {
        None => true,
        Some(t) => !is_same_measurement(new_ms, t),
    }
}

/// The staleness policy on the stored timestamp text of the most recent
/// row: a reading within the window of it is a duplicate; with no row, or a
/// text that does not parse, the reading is stored.
pub fn should_store_reading(reading: &Reading, last_timestamp: Option<&str>) -> (r: bool)
    ensures
        r == store_decision(
            reading.timestamp_ms as int,
            last_instant(
                match last_timestamp {
                    Some(s) => Some(s@),
                    None => None,
                },
            ),
        ),
{
    let last = match last_timestamp {
        Some(s) => parse_rfc3339_millis(s),
        None => None,
    };
    should_store(reading.timestamp_ms, last)
}

/// Against a stored reading taken at `t`, whatever its other fields hold, a
/// new reading taken 30 s later is discarded and one taken 90 s later is
/// stored; with nothing stored, every reading is stored.
pub proof fn lemma_dedup_window(new: Reading, t: i64)
    ensures
        new.timestamp_ms == t + 30_000 ==> !store_decision(new.timestamp_ms as int, Some(t)),
        new.timestamp_ms == t + 90_000 ==> store_decision(new.timestamp_ms as int, Some(t)),
        store_decision(new.timestamp_ms as int, None),
{
}

} // verus!
