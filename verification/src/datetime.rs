use vstd::prelude::*;

verus! {

/// The instant that an RFC 3339 text names, in milliseconds since the Unix
/// epoch, where the text is a valid RFC 3339 date and time.
pub uninterp spec fn rfc3339_millis(text: Seq<char>) -> Option<i64>;

/// The RFC 3339 text (such as `2024-01-02T03:04:05.678+00:00`) of the instant
/// `millis` milliseconds after the Unix epoch, where chrono can represent it.
pub uninterp spec fn rfc3339_text(millis: i64) -> Option<Seq<char>>;

/// `chrono::DateTime::parse_from_rfc3339`, then the instant in milliseconds
/// since the Unix epoch (`to_utc().timestamp_millis()`). Claimed: the parse
/// succeeds exactly where `rfc3339_millis` names an instant, and gives that
/// instant; otherwise chrono's parse error comes back.
#[verifier::external_body]
pub fn parse_rfc3339_millis(text: &str) -> (res: Result<i64, chrono::ParseError>)
    ensures
        res is Ok <==> rfc3339_millis(text@) is Some,
        res matches Ok(millis) ==> rfc3339_millis(text@) == Some(millis),
{
    match chrono::DateTime::parse_from_rfc3339(text) {
        Ok(time) => Ok(time.to_utc().timestamp_millis()),
        Err(err) => Err(err),
    }
}

/// `chrono::DateTime::from_timestamp_millis`, then `to_rfc3339` of the
/// result. Claimed: the text is `rfc3339_text(millis)`, and chrono represents
/// every instant within about 253,000 years of the epoch (its dates reach
/// the years -262144 and 262143), so the text exists for every `millis`
/// within 8 * 10^15 of 0.
#[verifier::external_body]
pub fn rfc3339_from_millis(millis: i64) -> (res: Option<String>)
    ensures
        res is Some <==> rfc3339_text(millis) is Some,
        res matches Some(text) ==> rfc3339_text(millis) == Some(text@),
        -8_000_000_000_000_000 <= millis <= 8_000_000_000_000_000 ==> res is Some,
{
    match chrono::DateTime::from_timestamp_millis(millis) {
        Some(time) => Some(time.to_rfc3339()),
        None => None,
    }
}

} // verus!
