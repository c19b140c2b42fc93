//! Moments and their text, computed by `chrono`.

use chrono::{DateTime, Utc};
use vstd::prelude::*;

verus! {

/// A moment in UTC: seconds since the Unix epoch and the nanoseconds past them.
#[derive(Debug, Clone, Copy, PartialEq, Eq, Structural)]
pub struct Moment {
    pub seconds: i64,
    pub nanos: u32,
}

/// Whether `a` is later than `b`.
pub open spec fn later(a: Moment, b: Moment) -> bool {
    a.seconds > b.seconds || (a.seconds == b.seconds && a.nanos > b.nanos)
}

/// Exec form of [`later`].
pub fn is_later(a: Moment, b: Moment) -> (r: bool)
    ensures
        r == later(a, b),
{
    a.seconds > b.seconds || (a.seconds == b.seconds && a.nanos > b.nanos)
}

/// The whole seconds, cut off towards zero, from one RFC 3339 text to another;
/// nothing where one of them is no such text.
pub uninterp spec fn gap_seconds(earlier: Seq<char>, later: Seq<char>) -> Option<int>;

/// `chrono::DateTime::parse_from_rfc3339` of both texts, then
/// `signed_duration_since` and `num_seconds`: the result depends on the two
/// texts alone, and from a moment to itself no time passes.
#[verifier::external_body]
pub(crate) fn gap_between(earlier: &str, later: &str) -> (r: Option<i64>)
    ensures
        match r {
            Some(seconds) => gap_seconds(earlier@, later@) == Some(seconds as int),
            None => gap_seconds(earlier@, later@) is None,
        },
        earlier@ == later@ ==> (r matches Some(seconds) ==> seconds == 0),
{
    let from = DateTime::parse_from_rfc3339(earlier).ok()?;
    let to = DateTime::parse_from_rfc3339(later).ok()?;
    Some(to.signed_duration_since(from).num_seconds())
}

/// The RFC 3339 text of a moment in UTC; nothing where no calendar date stands for it.
pub uninterp spec fn rfc3339(seconds: int, nanos: int) -> Option<Seq<char>>;

/// `chrono::DateTime::<chrono::Utc>::from_timestamp`, then `to_rfc3339`: the
/// text depends on the moment alone.
#[verifier::external_body]
pub(crate) fn rfc3339_of(moment: Moment) -> (r: Option<String>)
    ensures
        match r {
            Some(text) => rfc3339(moment.seconds as int, moment.nanos as int) == Some(text@),
            None => rfc3339(moment.seconds as int, moment.nanos as int) is None,
        },
{
    DateTime::<Utc>::from_timestamp(moment.seconds, moment.nanos).map(|date| date.to_rfc3339())
}

/// Moments are compared by the nanoseconds that have passed.
pub proof fn law_later_is_more_time(a: Moment, b: Moment)
    requires
        a.nanos < 1_000_000_000,
        b.nanos < 1_000_000_000,
    ensures
        later(a, b) <==> a.seconds * 1_000_000_000 + a.nanos > b.seconds * 1_000_000_000 + b.nanos,
{
}

} // verus!
