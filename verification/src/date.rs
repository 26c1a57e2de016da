//! Date normalization: a raw date string from a feed document is parsed
//! with an ordered fallback of accepted formats (RFC 3339, then RFC 2822).

use vstd::prelude::*;

verus! {

/// A point in time with the fixed UTC offset the source document carried:
/// seconds since the Unix epoch together with the offset, in seconds,
/// of the local time the document wrote that instant in.
#[derive(Clone, Copy, Debug, PartialEq, Eq, Structural)]
pub struct Timestamp {
    pub secs: i64,
    pub offset_secs: i32,
}

/// A publication date after normalization: either the parsed instant, or
/// an explicit marker for an entry whose date was missing or unreadable.
/// The marker keeps the entry in the feed instead of aborting ingestion,
/// and presentation sorts such entries last.
#[derive(Clone, Copy, Debug, PartialEq, Eq, Structural)]
pub enum ArticleDate {
    At(Timestamp),
    Unknown,
}

/// The date a raw optional date string normalizes to: an absent or
/// unparseable string becomes the explicit unknown marker.
pub open spec fn date_value_spec(raw: Option<Seq<char>>) -> ArticleDate {
    match raw {
        Some(s) => match normalize_spec(s) {
            Ok(t) => ArticleDate::At(t),
            Err(_) => ArticleDate::Unknown,
        },
        None => ArticleDate::Unknown,
    }
}

/// Whether an article dated `a` is shown above one dated `b` under the
/// presentation ordering: newer instants first, unknown dates last.
pub open spec fn shows_before_spec(a: ArticleDate, b: ArticleDate) -> bool {
    match (a, b) {
        (ArticleDate::At(x), ArticleDate::At(y)) => x.secs > y.secs,
        (ArticleDate::At(_), ArticleDate::Unknown) => true,
        (ArticleDate::Unknown, _) => false,
    }
}

impl ArticleDate {
    /// Decides the presentation ordering: newer instants first, an
    /// unknown date after every known one.
    pub fn shows_before(&self, other: &ArticleDate) -> (r: bool)
        ensures
            r == shows_before_spec(*self, *other),
    {
        match (self, other) {
            (ArticleDate::At(x), ArticleDate::At(y)) => x.secs > y.secs,
            (ArticleDate::At(_), ArticleDate::Unknown) => true,
            (ArticleDate::Unknown, _) => false,
        }
    }
}

/// Failure to read a date string in any accepted format.
#[derive(Clone, Copy, Debug, PartialEq, Eq, Structural)]
pub enum DateError {
    Unparseable,
}

/// What RFC 3339 parsing yields on a given string; the result depends on
/// the characters alone.
pub uninterp spec fn rfc3339_of(s: Seq<char>) -> Option<Timestamp>;

/// What RFC 2822 parsing yields on a given string; the result depends on
/// the characters alone.
pub uninterp spec fn rfc2822_of(s: Seq<char>) -> Option<Timestamp>;

/// Relies on chrono's `DateTime::parse_from_rfc3339`: parses an RFC 3339
/// date-and-time string into epoch seconds plus the string's own UTC
/// offset, a function of the characters alone.
#[verifier::external_body]
fn parse_rfc3339(s: &str) -> (r: Option<Timestamp>)
    ensures
        r == rfc3339_of(s@),
{
    match chrono::DateTime::parse_from_rfc3339(s) {
        Ok(d) => Some(Timestamp { secs: d.timestamp(), offset_secs: d.offset().local_minus_utc() }),
        Err(_) => None,
    }
}

/// Relies on chrono's `DateTime::parse_from_rfc2822`: parses an RFC 2822
/// date-and-time string into epoch seconds plus the string's own UTC
/// offset, a function of the characters alone.
#[verifier::external_body]
fn parse_rfc2822(s: &str) -> (r: Option<Timestamp>)
    ensures
        r == rfc2822_of(s@),
{
    match chrono::DateTime::parse_from_rfc2822(s) {
        Ok(d) => Some(Timestamp { secs: d.timestamp(), offset_secs: d.offset().local_minus_utc() }),
        Err(_) => None,
    }
}

/// The normalization policy: RFC 3339 first, RFC 2822 second, and an
/// explicit error when both formats reject the string.
pub open spec fn normalize_spec(s: Seq<char>) -> Result<Timestamp, DateError> {
    if rfc3339_of(s) is Some {
        Ok(rfc3339_of(s)->Some_0)
    } else if rfc2822_of(s) is Some {
        Ok(rfc2822_of(s)->Some_0)
    } else {
        Err(DateError::Unparseable)
    }
}

/// Parses a raw date string with the ordered format fallback; an
/// unparseable string is reported, never substituted silently.
pub fn normalize(raw: &str) -> (r: Result<Timestamp, DateError>)
    ensures
        r == normalize_spec(raw@),
{
    if let Some(t) = parse_rfc3339(raw) {
        Ok(t)
    } else if let Some(t) = parse_rfc2822(raw) {
        Ok(t)
    } else {
        Err(DateError::Unparseable)
    }
}

} // verus!
