use vstd::prelude::*;

verus! {

/// What `chrono` reads from an RFC 3339 text: the instant in milliseconds since
/// the epoch, or nothing when the text is not a valid RFC 3339 timestamp.
pub uninterp spec fn rfc3339_millis(text: Seq<char>) -> Option<i64>;

/// What `chrono` writes for an instant given in milliseconds since the epoch,
/// or nothing when the instant lies outside the range that it represents.
pub uninterp spec fn rfc3339_text(millis: i64) -> Option<Seq<char>>;

/// Relies on `chrono::DateTime::parse_from_rfc3339` and
/// `DateTime::timestamp_millis`: the result depends on the text alone.
#[verifier::external_body]
pub(crate) fn parse_millis(text: &str) -> (r: Option<i64>)
    ensures
        r == rfc3339_millis(text@),
{
    chrono::DateTime::parse_from_rfc3339(text).ok().map(|d| d.timestamp_millis())
}

/// Relies on `chrono::DateTime::from_timestamp_millis` and
/// `DateTime::to_rfc3339`: the result depends on the instant alone.
#[verifier::external_body]
pub(crate) fn format_millis(millis: i64) -> (r: Option<String>)
    ensures
        r matches Some(s) ==> rfc3339_text(millis) == Some(s@),
        r is None ==> rfc3339_text(millis) is None,
{
    chrono::DateTime::from_timestamp_millis(millis).map(|d| d.to_rfc3339())
}

} // verus!
