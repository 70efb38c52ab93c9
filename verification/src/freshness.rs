//! When a stored catalog is too old to be used: the clock, the reading of
//! time stamps, and the rule itself.

use vstd::prelude::*;

verus! {

/// A point in time: whole seconds since the start of 1970 in UTC, and the
/// nanoseconds after them. During a leap second the nanoseconds go on
/// counting past a full second.
#[derive(Clone, Copy, Debug, PartialEq, Eq, Structural)]
pub struct Timestamp {
    pub seconds: i64,
    pub nanos: u32,
}

impl Timestamp {
    /// The point in time as nanoseconds since the start of 1970.
    pub open spec fn total_nanos(self) -> int {
        self.seconds * 1_000_000_000 + self.nanos
    }

    /// The text that stands for the point in time in a stored catalog.
    pub open spec fn stamp(self) -> Seq<char> {
        rfc3339_text(self.seconds as int, self.nanos as int)
    }
}

/// The present moment, as a point in time and as the text that stands
/// for it in a stored catalog.
#[derive(Debug)]
pub struct Moment {
    pub at: Timestamp,
    pub text: String,
}

/// The age from which a stored catalog is too old: 24 hours, in
/// nanoseconds.
pub open spec fn max_age_nanos() -> int {
    86_400_000_000_000int
}

/// The point in time that `chrono::DateTime::parse_from_rfc3339` reads
/// from `text`, as seconds and nanoseconds; `None` where it refuses the
/// text.
pub uninterp spec fn rfc3339_instant(text: Seq<char>) -> Option<(int, int)>;

/// `chrono::DateTime::parse_from_rfc3339`, with the result taken apart by
/// `DateTime::timestamp` and `DateTime::timestamp_subsec_nanos`. What comes
/// back depends on the text alone.
#[verifier::external_body]
pub(crate) fn read_rfc3339(text: &str) -> (out: Option<Timestamp>)
    ensures
        out is Some == rfc3339_instant(text@) is Some,
        out matches Some(at) ==> rfc3339_instant(text@) == Some(
            (at.seconds as int, at.nanos as int),
        ),
{
    chrono::DateTime::parse_from_rfc3339(text).ok().map(
        |at| Timestamp { seconds: at.timestamp(), nanos: at.timestamp_subsec_nanos() },
    )
}

/// The text that `chrono::DateTime::to_rfc3339` writes for the point in
/// time, in UTC, that lies `seconds` whole seconds and `nanos` nanoseconds
/// after the start of 1970.
pub uninterp spec fn rfc3339_text(seconds: int, nanos: int) -> Seq<char>;

/// `chrono::Utc::now`, with the result taken apart by `DateTime::timestamp`
/// and `DateTime::timestamp_subsec_nanos` and written out by
/// `DateTime::to_rfc3339`. Nothing is promised of the time that the clock
/// shows; the text is the one that stands for that time, which depends on
/// the time alone. Chrono gives up where the clock stands before 1970.
#[verifier::external_body]
pub(crate) fn read_clock() -> (out: Moment)
    ensures
        out.text@ == rfc3339_text(out.at.seconds as int, out.at.nanos as int),
{
    let now = chrono::Utc::now();
    Moment {
        at: Timestamp { seconds: now.timestamp(), nanos: now.timestamp_subsec_nanos() },
        text: now.to_rfc3339(),
    }
}

/// Whether a catalog of `item_count` items, fetched at `fetched_at`, has to
/// be fetched again at `now`: it has no items, or its time stamp could not
/// be read, or 24 hours or more have passed since.
pub open spec fn is_stale(item_count: nat, fetched_at: Option<Timestamp>, now: Timestamp) -> bool {
    ||| item_count == 0
    ||| fetched_at is None
    ||| now.total_nanos() - fetched_at->0.total_nanos() >= max_age_nanos()
}

/// Decides whether a catalog has to be fetched again.
pub fn needs_refresh(item_count: usize, fetched_at: Option<Timestamp>, now: Timestamp) -> (stale:
    bool)
    ensures
        stale == is_stale(item_count as nat, fetched_at, now),
{
    if item_count == 0 {
        return true;
    }
    match fetched_at {
        None => true,
        Some(then) => {
            let seconds: i128 = now.seconds as i128 - then.seconds as i128;
            let age: i128 = seconds * 1_000_000_000 + now.nanos as i128 - then.nanos as i128;
            age >= 86_400_000_000_000
        },
    }
}

/// An empty catalog is stale whatever its time stamp says. One with items
/// and a time stamp is stale exactly from 24 hours of age on.
pub proof fn lemma_staleness(item_count: nat, fetched_at: Timestamp, now: Timestamp)
    ensures
        is_stale(0, Some(fetched_at), now),
        item_count > 0 ==> (is_stale(item_count, Some(fetched_at), now) <==> now.total_nanos()
            - fetched_at.total_nanos() >= max_age_nanos()),
        is_stale(item_count, None, now),
{
}

} // verus!
