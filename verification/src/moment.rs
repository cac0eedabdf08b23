//! Moments in time, and how the workspace table writes them.

use vstd::prelude::*;

verus! {

/// A moment: whole seconds since the start of 1970 in UTC, and nanoseconds into the next one. Only
/// a leap second has a thousand million nanoseconds or more.
#[derive(Debug, Clone, Copy, PartialEq, Eq, Structural)]
pub struct Moment {
    pub seconds: i64,
    pub nanos: u32,
}

impl Moment {
    /// Whether the first of two moments comes after the second.
    pub open spec fn spec_after(self, other: Moment) -> bool {
        self.seconds > other.seconds || (self.seconds == other.seconds && self.nanos > other.nanos)
    }

    /// Whether this moment comes after another.
    pub fn after(self, other: Moment) -> (r: bool)
        ensures
            r == self.spec_after(other),
    {
        self.seconds > other.seconds || (self.seconds == other.seconds && self.nanos > other.nanos)
    }
}

/// The moment that a text gives in a format, by its seconds and nanoseconds in UTC.
pub uninterp spec fn moment_in_text(text: Seq<char>, format: Seq<char>) -> Option<(i64, u32)>;

/// Calls `chrono::NaiveDateTime::parse_from_str`, which reads a date and time of day in a given
/// format, and takes it as UTC. Its result has a name: the text and the format decide it.
#[verifier::external_body]
fn parse_moment(text: &str, format: &str) -> (r: Option<(i64, u32)>)
    ensures
        r == moment_in_text(text@, format@),
{
    let naive = chrono::NaiveDateTime::parse_from_str(text, format).ok()?;
    let at = naive.and_utc();
    Some((at.timestamp(), at.timestamp_subsec_nanos()))
}

/// Calls `chrono::Utc::now`, which takes the time since the start of 1970 from the system's clock.
///
/// Claimed, whatever the clock says: the moment does not lie before 1970, nor in a leap second. On a
/// system whose clock stands before 1970, or beyond the years that chrono knows, the call does not
/// return. A build for a browser, where chrono asks another clock, is not covered.
#[verifier::external_body]
fn clock() -> (r: (i64, u32))
    ensures
        r.0 >= 0,
        r.1 < 1_000_000_000,
{
    let at = chrono::Utc::now();
    (at.timestamp(), at.timestamp_subsec_nanos())
}

/// The whole seconds from the second of two moments to the first.
pub uninterp spec fn seconds_between(
    seconds: i64,
    nanos: u32,
    from_seconds: i64,
    from_nanos: u32,
) -> Option<i64>;

/// A moment of the years 0 to 9999 that is not in a leap second.
pub open spec fn in_calendar(seconds: i64, nanos: u32) -> bool {
    -62_167_219_200 <= seconds <= 253_402_300_799 && nanos < 1_000_000_000
}

/// The nanoseconds from the second of two moments to the first.
pub open spec fn nanos_between(seconds: i64, nanos: u32, from_seconds: i64, from_nanos: u32) -> int {
    (seconds - from_seconds) * 1_000_000_000 + nanos - from_nanos
}

/// Calls `chrono::DateTime::signed_duration_since` on two moments in UTC and takes the whole
/// seconds of the result; there is none where chrono cannot hold one of the moments. Its result
/// has a name. For moments of the years 0 to 9999, apart from leap seconds, there is a result: time
/// that has passed is the difference of the two moments, rounded down, and of time that is yet to
/// come it is not positive.
#[verifier::external_body]
fn elapsed(seconds: i64, nanos: u32, from_seconds: i64, from_nanos: u32) -> (r: Option<i64>)
    ensures
        r == seconds_between(seconds, nanos, from_seconds, from_nanos),
        in_calendar(seconds, nanos) && in_calendar(from_seconds, from_nanos) ==> match r {
            Some(passed) => if nanos_between(seconds, nanos, from_seconds, from_nanos) >= 0 {
                passed == nanos_between(seconds, nanos, from_seconds, from_nanos) / 1_000_000_000
            } else {
                passed <= 0
            },
            None => false,
        },
{
    let at = chrono::DateTime::from_timestamp(seconds, nanos)?;
    let from = chrono::DateTime::from_timestamp(from_seconds, from_nanos)?;
    Some(at.signed_duration_since(from).num_seconds())
}

/// How the workspace table writes a moment.
pub open spec fn timestamp_format() -> Seq<char> {
    "%Y-%m-%d %H:%M:%S"@
}

/// The moment that was read or, where none could be, the present one.
pub fn timestamp_or(read: Option<(i64, u32)>, now: Moment) -> (r: Moment)
    ensures
        r == match read {
            Some((seconds, nanos)) => Moment { seconds, nanos },
            None => now,
        },
{
    match read {
        Some((seconds, nanos)) => Moment { seconds, nanos },
        None => now,
    }
}

/// The present moment. It does not lie before 1970, nor in a leap second.
pub fn utc_now() -> (r: Moment)
    ensures
        r.seconds >= 0,
        r.nanos < 1_000_000_000,
{
    let (seconds, nanos) = clock();
    Moment { seconds, nanos }
}

/// Reads a timestamp of the workspace table. One that cannot be read counts as the present, of
/// which no more is claimed than of the clock.
pub fn parse_timestamp(text: &str) -> (r: Moment)
    ensures
        match moment_in_text(text@, timestamp_format()) {
            Some((seconds, nanos)) => r == (Moment { seconds, nanos }),
            None => r.seconds >= 0 && r.nanos < 1_000_000_000,
        },
{
    let read = parse_moment(text, "%Y-%m-%d %H:%M:%S");
    timestamp_or(read, utc_now())
}

/// Whether at least `days` days lie between two moments.
pub open spec fn days_old(now: Moment, then_seconds: i64, then_nanos: u32, days: int) -> bool {
    if in_calendar(now.seconds, now.nanos) && in_calendar(then_seconds, then_nanos) {
        nanos_between(now.seconds, now.nanos, then_seconds, then_nanos) >= days * 86_400_000_000_000
    } else {
        match seconds_between(now.seconds, now.nanos, then_seconds, then_nanos) {
            Some(passed) => passed >= days * 86400,
            None => false,
        }
    }
}

/// Whether a moment lies at least a week back.
pub fn week_old(now: Moment, moment: Moment) -> (r: bool)
    ensures
        r == days_old(now, moment.seconds, moment.nanos, 7),
{
    match elapsed(now.seconds, now.nanos, moment.seconds, moment.nanos) {
        Some(passed) => passed >= 604800,
        None => false,
    }
}

/// Of two moments one comes after the other, or they are the same; a later second goes before all
/// nanoseconds.
pub proof fn lemma_moments_ordered(a: Moment, b: Moment)
    ensures
        a == b || a.spec_after(b) || b.spec_after(a),
        !(a.spec_after(b) && b.spec_after(a)),
        a.spec_after(b) ==> a != b,
        a.seconds > b.seconds ==> a.spec_after(b),
        a.seconds == b.seconds ==> (a.spec_after(b) <==> a.nanos > b.nanos),
{
}

/// A moment is so many days old once so many times 86400 seconds have passed since, and stays so.
pub proof fn lemma_days_old(now: Moment, later: Moment, then: Moment, days: int)
    requires
        in_calendar(now.seconds, now.nanos),
        in_calendar(later.seconds, later.nanos),
        in_calendar(then.seconds, then.nanos),
    ensures
        now.seconds - then.seconds > days * 86400 ==> days_old(now, then.seconds, then.nanos, days),
        now.seconds - then.seconds == days * 86400 ==> (days_old(now, then.seconds, then.nanos, days) <==> now.nanos
            >= then.nanos),
        now.seconds - then.seconds < days * 86400 ==> !days_old(now, then.seconds, then.nanos, days),
        days_old(now, then.seconds, then.nanos, days) && later.spec_after(now) ==> days_old(
            later,
            then.seconds,
            then.nanos,
            days,
        ),
{
}

/// The table writes a moment as year, month and day, a blank, and hours, minutes and seconds.
pub proof fn lemma_timestamp_format()
    ensures
        timestamp_format() == "%Y-%m-%d"@ + " "@ + "%H:%M:%S"@,
{
    reveal_strlit("%Y-%m-%d %H:%M:%S");
    reveal_strlit("%Y-%m-%d");
    reveal_strlit(" ");
    reveal_strlit("%H:%M:%S");
    assert(timestamp_format() =~= "%Y-%m-%d"@ + " "@ + "%H:%M:%S"@);
}

} // verus!
