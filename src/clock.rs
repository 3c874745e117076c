use vstd::prelude::*;

verus! {

/// Relies on chrono::Utc::now and DateTime::timestamp_millis: the current
/// time in milliseconds since the Unix epoch. Nothing is known of its value.
#[verifier::external_body]
pub(crate) fn now_millis() -> (r: i64) {
    chrono::Utc::now().timestamp_millis()
}

/// The instant an RFC 3339 text denotes, in milliseconds since the Unix
/// epoch, or `None` where the text is not a well-formed RFC 3339 instant.
pub uninterp spec fn rfc3339_millis(s: Seq<char>) -> Option<i64>;

/// Relies on chrono::DateTime::parse_from_rfc3339 and
/// DateTime::timestamp_millis: the result depends on the text alone.
#[verifier::external_body]
pub(crate) fn parse_rfc3339_millis(s: &str) -> (r: Option<i64>)
    ensures
        r == rfc3339_millis(s@),
{
    match chrono::DateTime::parse_from_rfc3339(s) {
        Ok(t) => Some(t.timestamp_millis()),
        Err(_) => None,
    }
}

/// The RFC 3339 text of an instant given in milliseconds since the Unix
/// epoch, or `None` where the instant lies outside the representable range.
pub uninterp spec fn rfc3339_of_millis(ms: i64) -> Option<Seq<char>>;

/// Relies on chrono::DateTime::from_timestamp_millis and
/// DateTime::to_rfc3339: the text depends on the instant alone.
#[verifier::external_body]
pub(crate) fn rfc3339_text(ms: i64) -> (r: Option<String>)
    ensures
        match r {
            Some(t) => rfc3339_of_millis(ms) == Some(t@),
            None => rfc3339_of_millis(ms) is None,
        },
{
    match chrono::DateTime::from_timestamp_millis(ms) {
        Some(t) => Some(t.to_rfc3339()),
        None => None,
    }
}

} // verus!
