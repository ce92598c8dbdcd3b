use vstd::prelude::*;
use chrono::{DateTime, TimeZone, Utc};

verus! {

/// An instant in UTC as chrono holds it: whole seconds since 1970-01-01T00:00:00Z
/// and the nanoseconds past them.
pub type Instant = (i64, u32);

/// What `DateTime::parse_from_rfc3339` of chrono gives for a text, taken to UTC
/// as an instant, or the text of its `ParseError`.
pub uninterp spec fn spec_parse_rfc3339(s: Seq<char>) -> Result<(i64, u32), Seq<char>>;

/// The RFC 3339 text that chrono's `DateTime::<Utc>::to_rfc3339` writes for an
/// instant, or `None` where `DateTime::from_timestamp` has no `DateTime` for it.
pub uninterp spec fn spec_rfc3339_text(secs: i64, nanos: u32) -> Option<Seq<char>>;

/// The texts chrono's `ParseError` displays.
pub open spec fn is_chrono_parse_message(m: Seq<char>) -> bool {
    ||| m == "input is out of range"@
    ||| m == "no possible date and time matching input"@
    ||| m == "input is not enough for unique date and time"@
    ||| m == "input contains invalid characters"@
    ||| m == "premature end of input"@
    ||| m == "trailing input"@
    ||| m == "bad or unsupported format string"@
}

/// Calls chrono's `DateTime::parse_from_rfc3339`, takes the result to UTC with
/// `with_timezone(&Utc)` and hands it over as an instant (`timestamp`,
/// `timestamp_subsec_nanos`); an error is handed over as its display text.
/// The contract claims: the result is the named one; a parsed instant has a
/// `DateTime` again (chrono documents that `from_timestamp` gives back the
/// `DateTime` whose `timestamp` and `timestamp_subsec_nanos` it is given);
/// an error text is one of the texts `ParseError` displays. What text
/// chrono accepts is left to the name.
#[verifier::external_body]
pub(crate) fn parse_rfc3339(s: &str) -> (r: Result<Instant, String>)
    ensures
        match r {
            Ok(p) => spec_parse_rfc3339(s@) == Ok::<Instant, Seq<char>>(p),
            Err(e) => spec_parse_rfc3339(s@) == Err::<Instant, Seq<char>>(e@),
        },
        r matches Ok(p) ==> spec_rfc3339_text(p.0, p.1) is Some,
        r matches Err(e) ==> is_chrono_parse_message(e@),
{
    match DateTime::parse_from_rfc3339(s) {
        Ok(dt) => {
            let utc = dt.with_timezone(&Utc);
            Ok((utc.timestamp(), utc.timestamp_subsec_nanos()))
        },
        Err(e) => Err(e.to_string()),
    }
}

/// Calls chrono's `DateTime::<Utc>::to_rfc3339` on the `DateTime` that
/// `DateTime::from_timestamp` gives for the instant, if any. The contract
/// claims only that the result is the named one.
#[verifier::external_body]
pub(crate) fn rfc3339_text(secs: i64, nanos: u32) -> (r: Option<String>)
    ensures
        match r {
            Some(t) => spec_rfc3339_text(secs, nanos) == Some(t@),
            None => spec_rfc3339_text(secs, nanos) is None,
        },
{
    DateTime::from_timestamp(secs, nanos).map(|dt| dt.to_rfc3339())
}

/// Calls chrono's `Utc.timestamp_nanos(nanos)` and hands the `DateTime` over as
/// an instant. The contract claims what chrono's source shows: the seconds
/// are `nanos` divided by 10^9 rounded down, the nanoseconds the remainder,
/// and the instant has a `DateTime` (the call never fails).
#[verifier::external_body]
pub(crate) fn utc_timestamp_nanos(nanos: i64) -> (r: Instant)
    ensures
        r.0 == nanos / 1_000_000_000,
        r.1 == nanos % 1_000_000_000,
        spec_rfc3339_text(r.0, r.1) is Some,
{
    let dt = Utc.timestamp_nanos(nanos);
    (dt.timestamp(), dt.timestamp_subsec_nanos())
}

/// Calls chrono's `Utc.timestamp(secs, nanos)` and hands the `DateTime` over as
/// an instant. That call panics where `DateTime::from_timestamp` has no
/// `DateTime`; the `requires` keeps within a range it always has one for
/// (chrono's years span ±262143 years, more than ±8·10^12 seconds, and
/// nanoseconds below 10^9 are always valid). The contract claims that the
/// instant comes back unchanged and has a `DateTime`.
#[verifier::external_body]
#[allow(deprecated)]
pub(crate) fn utc_timestamp(secs: i64, nanos: u32) -> (r: Instant)
    requires
        -8_000_000_000_000 <= secs <= 8_000_000_000_000,
        nanos < 1_000_000_000,
    ensures
        r == (secs, nanos),
        spec_rfc3339_text(r.0, r.1) is Some,
{
    let dt = Utc.timestamp(secs, nanos);
    (dt.timestamp(), dt.timestamp_subsec_nanos())
}

} // verus!
