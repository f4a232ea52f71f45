//! Timestamps, which `chrono` reads.

use vstd::prelude::*;

verus! {

/// A point in time: whole seconds since the start of 1970 in UTC, and the
/// nanoseconds past that second.
#[derive(Clone, Copy, Debug, PartialEq, Eq, Structural)]
pub struct Instant {
    pub seconds: i64,
    pub nanos: u32,
}

impl Instant {
    /// `self` is strictly earlier than `other`.
    pub open spec fn before(self, other: Instant) -> bool {
        self.seconds < other.seconds || (self.seconds == other.seconds && self.nanos
            < other.nanos)
    }

    /// Tells whether `self` is strictly earlier than `other`.
    pub fn is_before(&self, other: &Instant) -> (r: bool)
        ensures
            r == self.before(*other),
    {
        self.seconds < other.seconds || (self.seconds == other.seconds && self.nanos
            < other.nanos)
    }
}

/// Of two instants exactly one holds: the first is earlier, the second is
/// earlier, or they are the same.
pub proof fn instants_are_totally_ordered(a: Instant, b: Instant)
    ensures
        a.before(b) || b.before(a) || a == b,
        !(a.before(b) && b.before(a)),
        !(a.before(b) && a == b),
        !(b.before(a) && a == b),
{
}

/// `chrono::ParseError`, of which nothing is read.
#[verifier::external_type_specification]
#[verifier::external_body]
pub struct ExParseError(chrono::ParseError);

/// What `chrono::DateTime::parse_from_rfc3339` makes of a text: the instant
/// that it reads from it, and `None` where it reports an error.
pub uninterp spec fn instant_of(text: Seq<char>) -> Option<Instant>;

/// Calls `chrono::DateTime::parse_from_rfc3339` and takes the instant out of
/// the result with `timestamp` and `timestamp_subsec_nanos`.
///
/// Trusted: the outcome depends on the text alone, so it is the one that
/// `instant_of` names.
#[verifier::external_body]
fn parse_rfc3339(text: &str) -> (r: Result<Instant, chrono::ParseError>)
    ensures
        match r {
            Ok(t) => instant_of(text@) == Some(t),
            Err(_) => instant_of(text@) is None,
        },
{
    match chrono::DateTime::parse_from_rfc3339(text) {
        Ok(d) => Ok(Instant { seconds: d.timestamp(), nanos: d.timestamp_subsec_nanos() }),
        Err(e) => Err(e),
    }
}

/// Reads an RFC 3339 timestamp.
///
/// Returns the instant exactly when `chrono` accepts the text, and `None` when
/// it rejects it.
pub fn parse_instant(text: &str) -> (r: Option<Instant>)
    ensures
        r == instant_of(text@),
{
    match parse_rfc3339(text) {
        Ok(t) => Some(t),
        Err(_) => None,
    }
}

} // verus!
