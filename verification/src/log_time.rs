//! Instants read from timestamps with the `chrono` crate, held as seconds and
//! nanoseconds since the Unix epoch so that they compare as numbers.
use vstd::prelude::*;

verus! {

/// An instant: whole seconds since 1970-01-01T00:00:00Z, and nanoseconds past them.
#[derive(Debug, Clone, Copy, PartialEq, Eq, Structural)]
pub struct Instant {
    pub secs: i64,
    pub nanos: u32,
}

/// Whether instant `a` comes before instant `b`.
pub open spec fn before(a: Instant, b: Instant) -> bool {
    a.secs < b.secs || (a.secs == b.secs && a.nanos < b.nanos)
}

/// Whether instant `a` comes before instant `b`.
pub fn is_before(a: Instant, b: Instant) -> (r: bool)
    ensures
        r == before(a, b),
{
    a.secs < b.secs || (a.secs == b.secs && a.nanos < b.nanos)
}

/// What `DateTime::parse_from_rfc3339` gives for `s`: the instant as seconds and
/// nanoseconds since the epoch, or the text of its parse error.
pub uninterp spec fn rfc3339_instant(s: Seq<char>) -> Result<(i64, u32), Seq<char>>;

/// What `str::parse::<DateTime<Utc>>` gives for `s` (a relaxed RFC 3339): the
/// instant as seconds and nanoseconds since the epoch, or the text of its error.
pub uninterp spec fn utc_instant(s: Seq<char>) -> Result<(i64, u32), Seq<char>>;

/// `chrono::DateTime::parse_from_rfc3339`, the result taken as seconds
/// (`timestamp`) and nanoseconds (`timestamp_subsec_nanos`) since the epoch; both
/// are fixed by `s`, which is all that is claimed.
#[verifier::external_body]
pub(crate) fn parse_rfc3339(s: &str) -> (r: Result<Instant, String>)
    ensures
        match r {
            Ok(t) => rfc3339_instant(s@) == Ok::<(i64, u32), Seq<char>>((t.secs, t.nanos)),
            Err(e) => rfc3339_instant(s@) == Err::<(i64, u32), Seq<char>>(e@),
        },
{
    match chrono::DateTime::parse_from_rfc3339(s) {
        Ok(d) => Ok(Instant { secs: d.timestamp(), nanos: d.timestamp_subsec_nanos() }),
        Err(e) => Err(e.to_string()),
    }
}

/// `str::parse::<chrono::DateTime<chrono::Utc>>`, the result taken as seconds and
/// nanoseconds since the epoch; both are fixed by `s`, which is all that is claimed.
#[verifier::external_body]
pub(crate) fn parse_utc(s: &str) -> (r: Result<Instant, String>)
    ensures
        match r {
            Ok(t) => utc_instant(s@) == Ok::<(i64, u32), Seq<char>>((t.secs, t.nanos)),
            Err(e) => utc_instant(s@) == Err::<(i64, u32), Seq<char>>(e@),
        },
{
    match s.parse::<chrono::DateTime<chrono::Utc>>() {
        Ok(d) => Ok(Instant { secs: d.timestamp(), nanos: d.timestamp_subsec_nanos() }),
        Err(e) => Err(e.to_string()),
    }
}

} // verus!
