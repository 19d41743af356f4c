use vstd::prelude::*;
use vstd::string::*;

verus! {

/// Milliseconds since the Unix epoch of an RFC 3339 date-time, or `None`
/// where the text is not one.
pub uninterp spec fn rfc3339_millis(s: Seq<char>) -> Option<i64>;

/// The RFC 3339 text of a point in time given in milliseconds since the Unix
/// epoch, or `None` where it is outside the representable range.
pub uninterp spec fn rfc3339_text(ms: i64) -> Option<Seq<char>>;

/// Relies on chrono's `DateTime::parse_from_rfc3339`, read through
/// `timestamp_millis`: the instant that an RFC 3339 string denotes.
#[verifier::external_body]
fn parse_rfc3339_millis(s: &str) -> (r: Option<i64>)
    ensures
        r == rfc3339_millis(s@),
{
    chrono::DateTime::parse_from_rfc3339(s).ok().map(|t| t.timestamp_millis())
}

/// Relies on chrono's `DateTime::from_timestamp_millis` (`None` out of
/// range), rendered by `to_rfc3339`.
#[verifier::external_body]
fn format_rfc3339_millis(ms: i64) -> (r: Option<String>)
    ensures
        r is None <==> rfc3339_text(ms) is None,
        r matches Some(t) ==> rfc3339_text(ms) == Some(t@),
{
    chrono::DateTime::from_timestamp_millis(ms).map(|t| t.to_rfc3339())
}

/// The instant of an RFC 3339 date-time, in milliseconds since the Unix
/// epoch; an error message naming the input otherwise.
pub fn timestamp_from_str(datetime: &str) -> (r: Result<i64, String>)
    ensures
        r is Ok <==> rfc3339_millis(datetime@) is Some,
        r matches Ok(ms) ==> rfc3339_millis(datetime@) == Some(ms),
{
    match parse_rfc3339_millis(datetime) {
        Some(ms) => Ok(ms),
        None => {
            let mut msg = String::from_str("could not parse datetime string ");
            msg.append(datetime);
            Err(msg)
        },
    }
}

/// The RFC 3339 text of an instant given in milliseconds, if representable.
pub fn millis_to_rfc3339(ms: i64) -> (r: Option<String>)
    ensures
        r is None <==> rfc3339_text(ms) is None,
        r matches Some(t) ==> rfc3339_text(ms) == Some(t@),
{
    format_rfc3339_millis(ms)
}

} // verus!
