use std::time::Duration;

use fuiz::time::Timestamp;

#[test]
fn now_is_monotonic_within_process() {
    let a = Timestamp::now();
    let b = Timestamp::now();
    assert!(b >= a);
}

#[test]
fn duration_since_is_zero_for_self() {
    let a = Timestamp::now();
    assert_eq!(a.duration_since(a), Duration::ZERO);
}

#[test]
fn duration_since_saturates_when_earlier_is_later() {
    let later = Timestamp::now();
    // sleep is overkill in a unit test; capture an earlier-by-construction
    // pair via two `now()` reads with the second taken first.
    let earlier_after = Timestamp::now();
    // The interesting check: subtracting a later-stamp from an earlier
    // one is saturating, not panicking.
    assert_eq!(later.duration_since(earlier_after), Duration::ZERO);
}
