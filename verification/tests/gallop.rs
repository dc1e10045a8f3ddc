use etch::gallop::{
    to_stamp, Gallop, GallopEvent, GALLOP_SENSETIVITY, GALLOP_TOLERANCE, LANES,
};
use std::time::{Duration, Instant};

const MS: u64 = 1_000_000;

fn wait(duration: Duration) {
    let start = Instant::now();
    while start.elapsed() < duration {}
}

#[test]
fn adjacent_lanes_make_a_positive_step() {
    let mut gallop = Gallop::new();
    gallop.push_at(0, 1_000);
    gallop.push_at(1, 51_000);
    assert_eq!(gallop.event(), Some(GallopEvent::Positive(50_000)));
    assert_eq!(gallop.event(), None);
}

#[test]
fn adjacent_lanes_on_the_clock_make_a_positive_step() {
    let mut gallop = Gallop::new();
    let before = Instant::now();
    gallop.push(0);
    let between = Instant::now();
    wait(Duration::from_millis(5));
    let waited = between.elapsed();
    gallop.push(1);
    let whole = before.elapsed();
    match gallop.event() {
        Some(GallopEvent::Positive(elapsed)) => {
            // The time between the two presses, give or take what the calls
            // themselves took.
            assert!(u128::from(elapsed) >= waited.as_nanos());
            assert!(u128::from(elapsed) <= whole.as_nanos());
        }
        other => panic!("expected a positive step, got {:?}", other),
    }
    assert_eq!(gallop.event(), None);
}

#[test]
fn a_step_down_is_negative() {
    let mut gallop = Gallop::new();
    gallop.push_at(2, 10 * MS);
    gallop.push_at(1, 25 * MS);
    assert_eq!(gallop.event(), Some(GallopEvent::Negative(15 * MS)));
    assert_eq!(gallop.event(), None);
}

#[test]
fn lanes_that_are_not_neighbours_yield_nothing_and_lose_the_older_press() {
    let mut gallop = Gallop::new();
    gallop.push_at(0, 10 * MS);
    gallop.push_at(2, 20 * MS);
    assert_eq!(gallop.event(), None);
    // Lane 0 is gone: what follows is as if it had never been pressed.
    gallop.push_at(1, 30 * MS);
    assert_eq!(gallop.event(), Some(GallopEvent::Negative(10 * MS)));
    assert_eq!(gallop.event(), None);

    let mut fresh = Gallop::new();
    fresh.push_at(2, 20 * MS);
    fresh.push_at(1, 30 * MS);
    assert_eq!(fresh.event(), Some(GallopEvent::Negative(10 * MS)));
    assert_eq!(fresh.event(), None);
}

#[test]
fn last_lane_then_first_lane_wraps_upwards() {
    let mut gallop = Gallop::new();
    gallop.push_at(3, 10 * MS);
    gallop.push_at(0, 40 * MS);
    assert_eq!(gallop.event(), Some(GallopEvent::Positive(30 * MS)));
    assert_eq!(gallop.event(), None);
}

#[test]
fn last_lane_then_first_lane_on_the_clock_wraps_upwards() {
    let mut gallop = Gallop::new();
    gallop.push(3);
    wait(Duration::from_millis(2));
    gallop.push(0);
    assert!(matches!(gallop.event(), Some(GallopEvent::Positive(_))));
    assert_eq!(gallop.event(), None);
}

#[test]
fn first_lane_then_last_lane_does_not_wrap() {
    let mut gallop = Gallop::new();
    gallop.push_at(0, 10 * MS);
    gallop.push_at(3, 40 * MS);
    assert_eq!(gallop.event(), None);
    // The older press, on lane 0, was taken out all the same.
    gallop.push_at(2, 50 * MS);
    assert_eq!(gallop.event(), Some(GallopEvent::Negative(10 * MS)));
}

#[test]
fn fewer_than_two_presses_yield_nothing_and_stay() {
    let mut gallop = Gallop::new();
    assert_eq!(gallop.event(), None);
    gallop.push_at(1, 10 * MS);
    assert_eq!(gallop.event(), None);
    assert_eq!(gallop.event(), None);
    // The single press was not consumed.
    gallop.push_at(2, 12 * MS);
    assert_eq!(gallop.event(), Some(GallopEvent::Positive(2 * MS)));
}

#[test]
fn a_second_press_on_a_lane_replaces_the_first() {
    let mut gallop = Gallop::new();
    gallop.push_at(0, 1 * MS);
    gallop.push_at(0, 5 * MS);
    gallop.push_at(1, 7 * MS);
    assert_eq!(gallop.event(), Some(GallopEvent::Positive(2 * MS)));
    assert_eq!(gallop.event(), None);
}

#[test]
fn presses_of_one_instant_go_by_lane() {
    let mut gallop = Gallop::new();
    gallop.push_at(2, 9 * MS);
    gallop.push_at(1, 9 * MS);
    assert_eq!(gallop.event(), Some(GallopEvent::Positive(0)));
    assert_eq!(gallop.event(), None);
}

#[test]
fn the_oldest_pair_comes_first() {
    let mut gallop = Gallop::new();
    gallop.push_at(3, 30 * MS);
    gallop.push_at(1, 10 * MS);
    gallop.push_at(2, 20 * MS);
    gallop.push_at(0, 5 * MS);
    assert_eq!(gallop.event(), Some(GallopEvent::Positive(5 * MS)));
    assert_eq!(gallop.event(), Some(GallopEvent::Positive(10 * MS)));
    assert_eq!(gallop.event(), Some(GallopEvent::Positive(10 * MS)));
    assert_eq!(gallop.event(), None);
}

#[test]
fn draining_comes_to_an_end() {
    let times: [[u64; 4]; 4] = [[1, 2, 3, 4], [4, 3, 2, 1], [7, 7, 7, 7], [3, 9, 1, 5]];
    for stamps in times {
        let mut gallop = Gallop::new();
        for lane in 0..LANES {
            gallop.push_at(lane, stamps[lane]);
        }
        let mut calls = 0;
        while gallop.event().is_some() {
            calls += 1;
            assert!(calls < LANES);
        }
        // At most one press is left after three more calls, whatever came.
        gallop.event();
        gallop.event();
        gallop.event();
        assert_eq!(gallop.event(), None);
    }
}

#[test]
fn a_new_decoder_is_empty() {
    assert_eq!(Gallop::new().event(), None);
    assert_eq!(Gallop::default().event(), None);
}

#[test]
fn a_clone_drains_on_its_own() {
    let mut gallop = Gallop::new();
    gallop.push_at(1, 10);
    gallop.push_at(2, 30);
    let mut copy = gallop.clone();
    assert_eq!(copy.event(), Some(GallopEvent::Positive(20)));
    assert_eq!(copy.event(), None);
    assert_eq!(gallop.event(), Some(GallopEvent::Positive(20)));
}

#[test]
fn value_is_the_margin_in_units_of_sensitivity() {
    assert_eq!(GALLOP_TOLERANCE, 250 * MS);
    assert_eq!(GALLOP_SENSETIVITY, 25 * MS);
    assert_eq!(GallopEvent::Positive(10 * MS).value(), 9_600);
    assert_eq!(GallopEvent::Negative(10 * MS).value(), -9_600);
    assert_eq!(GallopEvent::Positive(0).value(), 10_000);
    assert_eq!(GallopEvent::Positive(225 * MS).value(), 1_000);
    assert_eq!(GallopEvent::Positive(249 * MS).value(), 40);
}

#[test]
fn value_is_zero_at_tolerance_and_turns_round_beyond() {
    assert_eq!(GallopEvent::Positive(GALLOP_TOLERANCE).value(), 0);
    assert_eq!(GallopEvent::Negative(GALLOP_TOLERANCE).value(), 0);
    assert_eq!(GallopEvent::Positive(300 * MS).value(), -2_000);
    assert_eq!(GallopEvent::Negative(300 * MS).value(), 2_000);
    assert_eq!(GallopEvent::Positive(u64::MAX).value(), -737_869_762_938_382);
}

#[test]
fn value_is_positive_from_one_thousandth_on() {
    // 25 microseconds are worth one thousandth of a pixel.
    assert_eq!(GallopEvent::Positive(GALLOP_TOLERANCE - 25_000).value(), 1);
    assert_eq!(GallopEvent::Positive(GALLOP_TOLERANCE - 24_999).value(), 0);
    assert_eq!(GallopEvent::Positive(GALLOP_TOLERANCE + 24_999).value(), 0);
    assert_eq!(GallopEvent::Positive(GALLOP_TOLERANCE + 25_000).value(), -1);
}

#[test]
fn value_falls_as_the_roll_slows() {
    let mut last = GallopEvent::Positive(0).value();
    let mut elapsed = 0;
    while elapsed <= 2 * GALLOP_TOLERANCE {
        let value = GallopEvent::Positive(elapsed).value();
        assert!(value <= last);
        assert_eq!(GallopEvent::Negative(elapsed).value(), -value);
        last = value;
        elapsed += 7 * MS / 3;
    }
}

#[test]
fn magnitude_takes_any_tolerance_and_sensitivity() {
    let event = GallopEvent::Positive(40);
    assert_eq!(event.magnitude(100, 10), 6_000);
    assert_eq!(event.magnitude(100, 7), 8_571);
    assert_eq!(event.magnitude(40, 7), 0);
    assert_eq!(event.magnitude(0, 7), -5_714);
    assert_eq!(GallopEvent::Negative(40).magnitude(100, 7), -8_571);
    assert_eq!(GallopEvent::Negative(40).magnitude(0, 7), 5_714);
    assert_eq!(event.magnitude(u64::MAX, 1), (u64::MAX as i128 - 40) * 1000);
}

#[test]
fn elapsed_is_what_the_event_carries() {
    assert_eq!(GallopEvent::Positive(12).elapsed(), 12);
    assert_eq!(GallopEvent::Negative(34).elapsed(), 34);
}

#[test]
fn a_stamp_is_the_count_of_nanoseconds_as_far_as_stamps_go() {
    assert_eq!(to_stamp(0), 0);
    assert_eq!(to_stamp(12_345), 12_345);
    assert_eq!(to_stamp(u128::from(u64::MAX) - 1), u64::MAX - 1);
    assert_eq!(to_stamp(u128::from(u64::MAX)), u64::MAX);
    assert_eq!(to_stamp(u128::from(u64::MAX) + 1), u64::MAX);
    assert_eq!(to_stamp(u128::MAX), u64::MAX);
}
