//! Points in time and spans between them.
use std::time::Duration;

use vstd::prelude::*;
use web_time::SystemTime;

verus! {

/// A reading of the system clock.
#[verifier::external_type_specification]
#[verifier::external_body]
pub struct ExSystemTime(web_time::SystemTime);

/// The length of a span in nanoseconds.
pub uninterp spec fn nanos(span: Duration) -> nat;

/// `Duration::as_nanos` gives the length of the span, which is at most `u64::MAX` seconds
/// and 999,999,999 nanoseconds.
pub assume_specification[ Duration::as_nanos ](span: &Duration) -> (length: u128)
    ensures
        length == nanos(*span),
        length <= 18_446_744_073_709_551_615_999_999_999u128,
;

/// `Duration::from_nanos` makes the span of the given length.
pub assume_specification[ Duration::from_nanos ](length: u64) -> (span: Duration)
    ensures
        nanos(span) == length,
;

/// `Duration::saturating_sub` takes one span off another, and leaves none where it is longer.
pub assume_specification[ Duration::saturating_sub ](span: Duration, less: Duration) -> (rest: Duration)
    ensures
        nanos(rest) == if nanos(span) >= nanos(less) {
            (nanos(span) - nanos(less)) as nat
        } else {
            0
        },
;

/// `web_time::SystemTime::now` reads the system clock, in a browser or a worker as well: nothing is
/// promised of the reading. There, a clock that stands before the epoch cannot be read.
#[verifier::external_body]
fn read_clock() -> (reading: SystemTime)
{
    SystemTime::now()
}

/// `web_time::SystemTime::duration_since` on the UNIX epoch: the span from the epoch to the reading,
/// `None` where the clock stands before it. Nothing is promised of the span.
#[verifier::external_body]
fn since_epoch(reading: &SystemTime) -> (span: Option<Duration>)
{
    reading.duration_since(SystemTime::UNIX_EPOCH).ok()
}

/// A point in time, in nanoseconds since the UNIX epoch.
#[derive(Copy, Clone, Debug, PartialEq, Eq, PartialOrd, Ord, Hash, Structural)]
pub struct Timestamp {
    pub nanos_since_epoch: u64,
}

impl Timestamp {
    /// The point `nanos_since_epoch` nanoseconds after the UNIX epoch.
    pub fn from_nanos_since_epoch(nanos_since_epoch: u64) -> (point: Self)
        ensures
            point.nanos_since_epoch == nanos_since_epoch,
    {
        Timestamp { nanos_since_epoch }
    }

    /// The point that lies `span` after the epoch; the last one, where the span is longer than that.
    pub open spec fn spec_after_epoch(span: Duration) -> Self {
        Timestamp { nanos_since_epoch: if nanos(span) <= u64::MAX { nanos(span) as u64 } else { u64::MAX } }
    }

    /// The point that lies `span` after the epoch; the last one, where the span is longer than that.
    pub fn after_epoch(span: Duration) -> (point: Self)
        ensures
            point == Self::spec_after_epoch(span),
    {
        let length: u128 = span.as_nanos();
        if length <= u64::MAX as u128 {
            Timestamp { nanos_since_epoch: length as u64 }
        } else {
            Timestamp { nanos_since_epoch: u64::MAX }
        }
    }

    /// Whether a reading of the clock gave this point: the epoch, where the clock stands before it.
    pub closed spec fn was_read(self) -> bool {
        exists|reading: SystemTime, span: Option<Duration>| {
            &&& #[trigger] call_ensures(read_clock, (), reading)
            &&& #[trigger] call_ensures(since_epoch, (&reading,), span)
            &&& self == match span {
                Some(span) => Self::spec_after_epoch(span),
                None => (Timestamp { nanos_since_epoch: 0 }),
            }
        }
    }

    /// The current time: the epoch, where the system clock stands before it.
    pub fn now() -> (point: Self)
        ensures
            point.was_read(),
    {
        let reading = read_clock();
        let span = since_epoch(&reading);
        assert(call_ensures(read_clock, (), reading));
        assert(call_ensures(since_epoch, (&reading,), span));
        match span {
            Some(span) => Timestamp::after_epoch(span),
            None => Timestamp { nanos_since_epoch: 0 },
        }
    }

    /// The nanoseconds from `earlier` to `self`, zero where `earlier` is the later one.
    pub open spec fn nanos_since(self, earlier: Self) -> nat {
        if self.nanos_since_epoch >= earlier.nanos_since_epoch {
            (self.nanos_since_epoch - earlier.nanos_since_epoch) as nat
        } else {
            0
        }
    }

    /// The span from `earlier` to `self`, zero where `earlier` is the later one.
    pub fn duration_since(self, earlier: Self) -> (span: Duration)
        ensures
            nanos(span) == self.nanos_since(earlier),
    {
        Duration::from_nanos(self.nanos_since_epoch.saturating_sub(earlier.nanos_since_epoch))
    }

    /// The span from `self` to the current time.
    pub fn elapsed(self) -> (span: Duration)
        ensures
            exists|now: Timestamp| now.was_read() && nanos(span) == #[trigger] now.nanos_since(self),
    {
        let now = Timestamp::now();
        now.duration_since(self)
    }
}

/// A span and its start make up its end; there is none where the start is later.
pub proof fn spans_lead_to_their_end(from: Timestamp, to: Timestamp)
    ensures
        from.nanos_since_epoch <= to.nanos_since_epoch ==> from.nanos_since_epoch + to.nanos_since(from)
            == to.nanos_since_epoch,
        from.nanos_since_epoch >= to.nanos_since_epoch ==> to.nanos_since(from) == 0,
{
}

/// Points keep the distance of their spans from the epoch, up to the last point.
pub proof fn points_stand_after_the_epoch(span: Duration)
    ensures
        nanos(span) <= u64::MAX ==> Timestamp::spec_after_epoch(span).nanos_since_epoch == nanos(span),
        nanos(span) > u64::MAX ==> Timestamp::spec_after_epoch(span).nanos_since_epoch == u64::MAX,
{
}

/// The span between two points leads from the one to the other, and is none the other way round.
pub proof fn spans_lie_between_points(earlier: Timestamp, later: Timestamp, span: Duration, back: Duration)
    requires
        call_ensures(Timestamp::duration_since, (later, earlier), span),
        call_ensures(Timestamp::duration_since, (earlier, later), back),
        earlier.nanos_since_epoch <= later.nanos_since_epoch,
    ensures
        earlier.nanos_since_epoch + nanos(span) == later.nanos_since_epoch,
        nanos(back) == 0,
{
}

} // verus!
