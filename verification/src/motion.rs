//! The motion integrator.
//!
//! Once per tick the integrator drains the tap decoders, adds what the dials
//! have turned, and moves the stylus by the sum, as far as the canvas goes.

use crate::fixed::{clamp, clamped, div_toward_zero, lemma_toward_zero_bounds, toward_zero, STEPS};
use crate::gallop::{
    lemma_pull_by_count, populated, pull_event, pull_lanes, Gallop, GallopEvent, Lanes, LANES,
};
use crate::vec2::Vec2;
use vstd::prelude::*;

verus! {

/// The lanes after draining until nothing comes. The call that yields nothing
/// may still take a press away.
pub open spec fn drained(lanes: Lanes) -> Lanes
    decreases populated(lanes),
    via drained_decreases
{
    if pull_event(lanes) is Some {
        drained(pull_lanes(lanes))
    } else {
        pull_lanes(lanes)
    }
}

#[via_fn]
proof fn drained_decreases(lanes: Lanes) {
    lemma_pull_by_count(lanes);
}

/// What an event adds to the movement of a tick: its magnitude, unless its
/// presses were further apart than `tolerance`.
pub open spec fn counted(event: GallopEvent, tolerance: u64, sensitivity: u64) -> int {
    if event.spec_elapsed() <= tolerance {
        event.magnitude_of(tolerance, sensitivity)
    } else {
        0
    }
}

/// The movement that draining until nothing comes adds up to, in thousandths
/// of a pixel.
pub open spec fn drained_movement(lanes: Lanes, tolerance: u64, sensitivity: u64) -> int
    decreases populated(lanes),
    via drained_movement_decreases
{
    match pull_event(lanes) {
        Some(event) => counted(event, tolerance, sensitivity) + drained_movement(
            pull_lanes(lanes),
            tolerance,
            sensitivity,
        ),
        None => 0,
    }
}

#[via_fn]
proof fn drained_movement_decreases(lanes: Lanes, tolerance: u64, sensitivity: u64) {
    lemma_pull_by_count(lanes);
}

/// Where a coordinate stands after a tick: moved by what the decoder yields
/// and by the `divisor`-th part of what the dial has turned, and held to the
/// canvas, which is `limit` pixels long.
pub open spec fn moved_to(position: int, movement: int, turn: int, divisor: int, limit: int) -> int {
    clamped(position + movement + toward_zero(turn, divisor), 0, limit * STEPS)
}

/// An event that counts moves the stylus in its own direction, by no more
/// than its tolerance is worth.
pub proof fn lemma_counted_bounds(event: GallopEvent, tolerance: u64, sensitivity: u64)
    requires
        sensitivity > 0,
    ensures
        event is Positive ==> 0 <= counted(event, tolerance, sensitivity) <= tolerance * STEPS,
        event is Negative ==> -(tolerance * STEPS) <= counted(event, tolerance, sensitivity) <= 0,
{
    if event.spec_elapsed() <= tolerance {
        let margin = (tolerance - event.spec_elapsed()) * STEPS;
        lemma_toward_zero_bounds(margin, sensitivity as int);
        assert(0 <= margin <= tolerance * STEPS) by (nonlinear_arith)
            requires
                margin == (tolerance - event.spec_elapsed()) * STEPS,
                0 <= event.spec_elapsed() <= tolerance,
                STEPS > 0,
        ;
    } else {
        assert(0 <= tolerance * STEPS) by (nonlinear_arith)
            requires
                STEPS > 0,
        ;
    }
}

/// The settings of a session: when two presses still make a gesture, what a
/// gesture and a turn of a dial are worth, how often the inputs are looked
/// at, and how large the canvas is.
#[derive(Clone, Copy, Debug)]
pub struct MotionIntegrator {
    tolerance: u64,
    sensitivity: u64,
    dial_divisor: u32,
    interval: u64,
    width: u32,
    height: u32,
}

impl MotionIntegrator {
    /// The time between two presses, in nanoseconds, from which on they no
    /// longer count.
    pub closed spec fn spec_tolerance(&self) -> u64 {
        self.tolerance
    }

    /// The time between two presses, in nanoseconds, that is worth one pixel
    /// less of movement.
    pub closed spec fn spec_sensitivity(&self) -> u64 {
        self.sensitivity
    }

    /// The degrees that a dial turns for one pixel of movement.
    pub closed spec fn spec_dial_divisor(&self) -> u32 {
        self.dial_divisor
    }

    /// The time between two ticks, in nanoseconds.
    pub closed spec fn spec_interval(&self) -> u64 {
        self.interval
    }

    /// The width of the canvas in pixels.
    pub closed spec fn spec_width(&self) -> u32 {
        self.width
    }

    /// The height of the canvas in pixels.
    pub closed spec fn spec_height(&self) -> u32 {
        self.height
    }

    /// Nothing is divided by zero.
    #[verifier::type_invariant]
    pub closed spec fn divides(&self) -> bool {
        self.sensitivity > 0 && self.dial_divisor > 0
    }

    /// The settings as given, where neither `sensitivity` nor `dial_divisor`
    /// is zero.
    pub fn new(
        tolerance: u64,
        sensitivity: u64,
        dial_divisor: u32,
        interval: u64,
        width: u32,
        height: u32,
    ) -> (made: Option<Self>)
        ensures
            made is Some <==> sensitivity > 0 && dial_divisor > 0,
            made is Some ==> {
                &&& made->0.spec_tolerance() == tolerance
                &&& made->0.spec_sensitivity() == sensitivity
                &&& made->0.spec_dial_divisor() == dial_divisor
                &&& made->0.spec_interval() == interval
                &&& made->0.spec_width() == width
                &&& made->0.spec_height() == height
            },
    {
        if sensitivity == 0 || dial_divisor == 0 {
            None
        } else {
            Some(MotionIntegrator { tolerance, sensitivity, dial_divisor, interval, width, height })
        }
    }

    /// The time between two presses, in nanoseconds, from which on they no
    /// longer count.
    #[verifier::when_used_as_spec(spec_tolerance)]
    pub fn tolerance(&self) -> (value: u64)
        ensures
            value == self.spec_tolerance(),
    {
        self.tolerance
    }

    /// The time between two presses, in nanoseconds, that is worth one pixel
    /// less of movement.
    #[verifier::when_used_as_spec(spec_sensitivity)]
    pub fn sensitivity(&self) -> (value: u64)
        ensures
            value == self.spec_sensitivity(),
    {
        self.sensitivity
    }

    /// The degrees that a dial turns for one pixel of movement.
    #[verifier::when_used_as_spec(spec_dial_divisor)]
    pub fn dial_divisor(&self) -> (value: u32)
        ensures
            value == self.spec_dial_divisor(),
    {
        self.dial_divisor
    }

    /// The time between two ticks, in nanoseconds.
    #[verifier::when_used_as_spec(spec_interval)]
    pub fn interval(&self) -> (value: u64)
        ensures
            value == self.spec_interval(),
    {
        self.interval
    }

    /// The width of the canvas in pixels.
    #[verifier::when_used_as_spec(spec_width)]
    pub fn width(&self) -> (value: u32)
        ensures
            value == self.spec_width(),
    {
        self.width
    }

    /// The height of the canvas in pixels.
    #[verifier::when_used_as_spec(spec_height)]
    pub fn height(&self) -> (value: u32)
        ensures
            value == self.spec_height(),
    {
        self.height
    }

    /// Whether a tick is due, `waited` nanoseconds after the last one.
    pub fn is_due(&self, waited: u64) -> (due: bool)
        ensures
            due == (waited > self.spec_interval()),
    {
        waited > self.interval
    }

    /// Drains `gallop` and says what its events add up to, in thousandths of
    /// a pixel. Events whose presses were further apart than the tolerance
    /// are taken out and add nothing.
    pub fn drain(&self, gallop: &mut Gallop) -> (movement: i128)
        ensures
            final(gallop)@ == drained(old(gallop)@),
            movement == drained_movement(old(gallop)@, self.spec_tolerance(), self.spec_sensitivity()),
            -(LANES * self.spec_tolerance() * STEPS) <= movement <= LANES * self.spec_tolerance() * STEPS,
    {
        proof {
            use_type_invariant(self);
            gallop.lemma_lane_count();
            crate::gallop::lemma_populated_bounds(gallop@);
        }
        let ghost span: int = self.tolerance * STEPS;
        assert(0 <= span <= u64::MAX * 1000) by (nonlinear_arith)
            requires
                span == self.tolerance * STEPS,
                STEPS == 1000,
                0 <= self.tolerance <= u64::MAX,
        ;
        let mut movement: i128 = 0;
        loop
            invariant_except_break
                self.divides(),
                span == self.tolerance * STEPS,
                0 <= span <= u64::MAX * 1000,
                populated(gallop@) <= LANES,
                drained(gallop@) == drained(old(gallop)@),
                movement + drained_movement(gallop@, self.tolerance, self.sensitivity)
                    == drained_movement(old(gallop)@, self.tolerance, self.sensitivity),
                -((LANES - populated(gallop@)) * span) <= movement <= (LANES - populated(gallop@))
                    * span,
            ensures
                span == self.tolerance * STEPS,
                gallop@ == drained(old(gallop)@),
                movement == drained_movement(old(gallop)@, self.tolerance, self.sensitivity),
                -(LANES * span) <= movement <= LANES * span,
            decreases populated(gallop@),
        {
            let ghost before = gallop@;
            proof {
                lemma_pull_by_count(before);
            }
            let ghost room: int = LANES - populated(before);
            assert(0 <= room * span <= LANES * span && (room + 1) * span == room * span + span)
                by (nonlinear_arith)
                requires
                    0 <= room <= LANES,
                    0 <= span,
            ;
            match gallop.event() {
                Some(event) => {
                    proof {
                        lemma_counted_bounds(event, self.tolerance, self.sensitivity);
                    }
                    if event.elapsed() <= self.tolerance {
                        movement = movement + event.magnitude(self.tolerance, self.sensitivity);
                    }
                },
                None => {
                    break ;
                },
            }
        }
        assert(LANES * span == LANES * self.tolerance * STEPS) by (nonlinear_arith)
            requires
                span == self.tolerance * STEPS,
        ;
        movement
    }

    /// Moves one coordinate of the stylus for one tick: by what `gallop`
    /// yields when drained and by what the dial has turned, `turn`, in
    /// thousandths of a degree; and no further than the canvas goes, which is
    /// `limit` pixels long.
    pub fn axis(&self, position: i64, gallop: &mut Gallop, turn: i64, limit: u32) -> (moved: i64)
        ensures
            final(gallop)@ == drained(old(gallop)@),
            moved == moved_to(
                position as int,
                drained_movement(old(gallop)@, self.spec_tolerance(), self.spec_sensitivity()),
                turn as int,
                self.spec_dial_divisor() as int,
                limit as int,
            ),
            0 <= moved <= limit * STEPS,
    {
        proof {
            use_type_invariant(self);
        }
        let movement = self.drain(gallop);
        let turned = div_toward_zero(turn as i128, self.dial_divisor as u64);
        proof {
            lemma_toward_zero_bounds(turn as int, self.dial_divisor as int);
            assert(LANES * self.tolerance * STEPS <= 4 * u64::MAX * 1000) by (nonlinear_arith)
                requires
                    LANES == 4,
                    STEPS == 1000,
                    0 <= self.tolerance <= u64::MAX,
            ;
        }
        clamp(position as i128 + movement + turned, 0, limit as i64 * STEPS as i64)
    }

    /// Moves the stylus for one tick and says whether it has moved. `turn_x`
    /// and `turn_y` are what the two dials have turned, in thousandths of a
    /// degree, counted in the direction in which the coordinate grows.
    pub fn tick(
        &self,
        stylus: &mut Vec2<i64>,
        gallop_x: &mut Gallop,
        gallop_y: &mut Gallop,
        turn_x: i64,
        turn_y: i64,
    ) -> (moved: bool)
        ensures
            final(gallop_x)@ == drained(old(gallop_x)@),
            final(gallop_y)@ == drained(old(gallop_y)@),
            final(stylus).x == moved_to(
                old(stylus).x as int,
                drained_movement(old(gallop_x)@, self.spec_tolerance(), self.spec_sensitivity()),
                turn_x as int,
                self.spec_dial_divisor() as int,
                self.spec_width() as int,
            ),
            final(stylus).y == moved_to(
                old(stylus).y as int,
                drained_movement(old(gallop_y)@, self.spec_tolerance(), self.spec_sensitivity()),
                turn_y as int,
                self.spec_dial_divisor() as int,
                self.spec_height() as int,
            ),
            0 <= final(stylus).x <= self.spec_width() * STEPS,
            0 <= final(stylus).y <= self.spec_height() * STEPS,
            moved == (final(stylus).x != old(stylus).x || final(stylus).y != old(stylus).y),
    {
        let x = self.axis(stylus.x, gallop_x, turn_x, self.width);
        let y = self.axis(stylus.y, gallop_y, turn_y, self.height);
        let moved = x != stylus.x || y != stylus.y;
        stylus.x = x;
        stylus.y = y;
        moved
    }
}

} // verus!
