use etch::angle::AngleTracker;
use etch::gallop::{Gallop, GALLOP_SENSETIVITY, GALLOP_TOLERANCE};
use etch::motion::MotionIntegrator;
use etch::vec2::Vec2;

const MS: u64 = 1_000_000;

fn reference() -> MotionIntegrator {
    MotionIntegrator::new(GALLOP_TOLERANCE, GALLOP_SENSETIVITY, 10, 25 * MS, 640, 480).unwrap()
}

fn rolled(start: u64, gap: u64) -> Gallop {
    let mut gallop = Gallop::new();
    for lane in 0..4 {
        gallop.push_at(lane, start + lane as u64 * gap);
    }
    gallop
}

#[test]
fn a_roll_over_four_lanes_moves_the_stylus_right() {
    let integrator = reference();
    let mut stylus = Vec2::new(10_000, 240_000);
    let mut gallop_x = rolled(3 * MS, 10 * MS);
    let mut gallop_y = Gallop::new();
    assert!(integrator.tick(&mut stylus, &mut gallop_x, &mut gallop_y, 0, 0));
    // Three steps of 10 ms each: three times 9.6 pixels.
    assert_eq!(stylus, Vec2::new(38_800, 240_000));
    assert_eq!(stylus.as_u32(), Vec2::new(38, 240));
    // Everything was drained.
    assert!(!integrator.tick(&mut stylus, &mut gallop_x, &mut gallop_y, 0, 0));
    assert_eq!(stylus, Vec2::new(38_800, 240_000));
}

#[test]
fn a_roll_yields_three_steps_of_equal_worth() {
    let mut gallop = rolled(0, 10 * MS);
    let mut sum = 0;
    let mut steps = 0;
    while let Some(event) = gallop.event() {
        assert_eq!(event.elapsed(), 10 * MS);
        assert_eq!(event.value(), 9_600);
        sum += event.value();
        steps += 1;
    }
    assert_eq!(steps, 3);
    assert_eq!(sum, 28_800);
    assert_eq!(reference().drain(&mut rolled(0, 10 * MS)), 28_800);
}

#[test]
fn the_stylus_stays_on_the_canvas() {
    let integrator = reference();
    let mut stylus = Vec2::new(639_000, 479_500);
    let mut gallop_x = rolled(0, 10 * MS);
    let mut gallop_y = rolled(0, MS);
    assert!(integrator.tick(&mut stylus, &mut gallop_x, &mut gallop_y, 0, 0));
    assert_eq!(stylus, Vec2::new(640_000, 480_000));

    // Downwards rolls at the other end.
    let mut stylus = Vec2::new(500, 0);
    let mut gallop_x = Gallop::new();
    for lane in 0..4 {
        gallop_x.push_at(3 - lane, lane as u64 * MS);
    }
    let mut gallop_y = gallop_x.clone();
    assert!(integrator.tick(&mut stylus, &mut gallop_x, &mut gallop_y, 0, 0));
    assert_eq!(stylus, Vec2::new(0, 0));
}

#[test]
fn a_stylus_off_the_canvas_is_brought_back() {
    let integrator = reference();
    let mut stylus = Vec2::new(i64::MAX, i64::MIN);
    let mut gallop_x = rolled(0, MS);
    let mut gallop_y = rolled(0, MS);
    assert!(integrator.tick(&mut stylus, &mut gallop_x, &mut gallop_y, i64::MAX, i64::MIN));
    assert_eq!(stylus, Vec2::new(640_000, 0));
}

#[test]
fn a_turn_of_a_dial_moves_by_its_tenth() {
    let integrator = reference();
    let mut stylus = Vec2::new(100_000, 100_000);
    let mut gallop_x = Gallop::new();
    let mut gallop_y = Gallop::new();
    assert!(integrator.tick(&mut stylus, &mut gallop_x, &mut gallop_y, 20_000, -45_000));
    assert_eq!(stylus, Vec2::new(102_000, 95_500));
    // Fractions of a thousandth are dropped, in either direction.
    assert!(integrator.tick(&mut stylus, &mut gallop_x, &mut gallop_y, 19, -19));
    assert_eq!(stylus, Vec2::new(102_001, 95_499));
    assert!(!integrator.tick(&mut stylus, &mut gallop_x, &mut gallop_y, 9, -9));
    assert_eq!(stylus, Vec2::new(102_001, 95_499));
}

#[test]
fn taps_and_turns_add_up() {
    let integrator = reference();
    let mut stylus = Vec2::new(100_000, 100_000);
    let mut gallop_x = Gallop::new();
    gallop_x.push_at(1, 0);
    gallop_x.push_at(2, 100 * MS);
    let mut gallop_y = Gallop::new();
    gallop_y.push_at(2, 0);
    gallop_y.push_at(1, 200 * MS);
    assert!(integrator.tick(&mut stylus, &mut gallop_x, &mut gallop_y, -10_000, 10_000));
    assert_eq!(stylus, Vec2::new(105_000, 99_000));
}

#[test]
fn a_stale_gesture_is_taken_out_and_counts_for_nothing() {
    let integrator = reference();
    let mut gallop = Gallop::new();
    gallop.push_at(0, 0);
    gallop.push_at(1, 251 * MS);
    gallop.push_at(2, 261 * MS);
    // The first pair is too slow, the second counts.
    assert_eq!(integrator.drain(&mut gallop), 9_600);
    assert_eq!(gallop.event(), None);

    let mut gallop = Gallop::new();
    gallop.push_at(0, 0);
    gallop.push_at(1, 250 * MS);
    assert_eq!(integrator.drain(&mut gallop), 0);
    gallop.push_at(0, 251 * MS);
    assert_eq!(integrator.drain(&mut gallop), -9_960);
}

#[test]
fn draining_stops_at_the_first_pair_that_makes_no_step() {
    let integrator = reference();
    let mut gallop = Gallop::new();
    gallop.push_at(0, 0);
    gallop.push_at(2, 10 * MS);
    gallop.push_at(3, 20 * MS);
    // Lanes 0 and 2 are no neighbours: nothing comes, and lanes 2 and 3 wait
    // for the next tick.
    assert_eq!(integrator.drain(&mut gallop), 0);
    assert_eq!(integrator.drain(&mut gallop), 9_600);
    assert_eq!(integrator.drain(&mut gallop), 0);
}

#[test]
fn axis_moves_one_coordinate() {
    let integrator = reference();
    let mut gallop = rolled(0, 10 * MS);
    assert_eq!(integrator.axis(0, &mut gallop, 1_000, 100), 28_900);
    assert_eq!(integrator.axis(28_900, &mut gallop, -1_000, 100), 28_800);
    assert_eq!(integrator.axis(28_900, &mut rolled(0, 10 * MS), 0, 50), 50_000);
    assert_eq!(integrator.axis(7, &mut gallop, 0, 0), 0);
}

#[test]
fn settings_that_divide_by_zero_are_refused() {
    assert!(MotionIntegrator::new(250, 0, 10, 25, 640, 480).is_none());
    assert!(MotionIntegrator::new(250, 25, 0, 25, 640, 480).is_none());
    assert!(MotionIntegrator::new(250, 0, 0, 25, 640, 480).is_none());
    assert!(MotionIntegrator::new(0, 1, 1, 0, 0, 0).is_some());
}

#[test]
fn settings_come_back_as_given() {
    let integrator = MotionIntegrator::new(1, 2, 3, 4, 5, 6).unwrap();
    assert_eq!(integrator.tolerance(), 1);
    assert_eq!(integrator.sensitivity(), 2);
    assert_eq!(integrator.dial_divisor(), 3);
    assert_eq!(integrator.interval(), 4);
    assert_eq!(integrator.width(), 5);
    assert_eq!(integrator.height(), 6);
}

#[test]
fn a_tick_is_due_after_the_interval() {
    let integrator = reference();
    assert!(!integrator.is_due(0));
    assert!(!integrator.is_due(25 * MS));
    assert!(integrator.is_due(25 * MS + 1));
    assert!(integrator.is_due(u64::MAX));
}

#[test]
fn other_settings_give_other_movements() {
    let integrator = MotionIntegrator::new(100 * MS, 10 * MS, 4, 25 * MS, 64, 48).unwrap();
    let mut stylus = Vec2::new(32_000, 24_000);
    let mut gallop_x = Gallop::new();
    gallop_x.push_at(0, 0);
    gallop_x.push_at(1, 30 * MS);
    let mut gallop_y = Gallop::new();
    assert!(integrator.tick(&mut stylus, &mut gallop_x, &mut gallop_y, 0, -10_000));
    assert_eq!(stylus, Vec2::new(39_000, 21_500));
}

#[test]
fn dials_and_taps_drive_the_stylus_end_to_end() {
    let integrator = reference();
    let mut left = AngleTracker::new(50_000);
    let mut right = AngleTracker::new(50_000);
    let mut gallop_x = rolled(0, 10 * MS);
    let mut gallop_y = Gallop::new();
    let mut stylus = Vec2::new(10_000, 240_000);

    // The left dial points down the negative y axis, the right one rests.
    let turn_x = left.sample(Vec2::new(0, -100_000), 90_000, 0);
    let turn_y = right.sample(Vec2::new(0, 0), 0, 0);
    assert_eq!((turn_x, turn_y), (90_000, 0));
    assert!(integrator.tick(&mut stylus, &mut gallop_x, &mut gallop_y, turn_x, -turn_y));
    assert_eq!(stylus, Vec2::new(47_800, 240_000));

    // The left dial holds still, the right one swings to 45 degrees.
    let turn_x = left.sample(Vec2::new(0, -100_000), 90_000, 0);
    let turn_y = right.sample(Vec2::new(70_000, -70_000), 45_000, 45_000);
    assert_eq!((turn_x, turn_y), (0, 45_000));
    assert!(integrator.tick(&mut stylus, &mut gallop_x, &mut gallop_y, turn_x, -turn_y));
    assert_eq!(stylus, Vec2::new(47_800, 235_500));
    assert_eq!(stylus.as_u32(), Vec2::new(47, 235));
}
