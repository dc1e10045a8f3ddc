//! Angles of a dial, and how far it has turned.
//!
//! A dial is an analog stick read as a vector. Its angle is measured in
//! thousandths of a degree along the compass that the stylus uses: a vector
//! that points down the negative y axis stands at 90 degrees, one down the
//! negative x axis at 180, one up the positive y axis at 270, and the
//! positive x axis is where the count wraps.
//!
//! The arctangent is not computed here. The host computes it, for both
//! ratios of the two legs, and hands it over rounded to thousandths of a
//! degree; what is decided here is which of the two counts, and from where.

use crate::vec2::Vec2;
use vstd::prelude::*;

verus! {

/// A quarter turn, in thousandths of a degree.
pub const QUARTER_TURN: u32 = 90_000;

/// A full turn, in thousandths of a degree.
pub const FULL_TURN: u32 = 360_000;

/// An old angle from here on, followed by a new one below [`WRAP_LOW`], is
/// read as a turn through the wrap in the direction of growing angles.
pub const WRAP_HIGH: u32 = 225_000;

/// An old angle below this, followed by a new one above [`WRAP_HIGH`], is read
/// as a turn through the wrap in the direction of falling angles.
pub const WRAP_LOW: u32 = 135_000;

/// The angle of the vector `(x, y)`, where `arc_yx` is the arctangent of
/// `|y| / |x|` and `arc_xy` that of `|x| / |y|`. The vector `(0, 0)` has no
/// angle.
pub open spec fn compass_angle(x: int, y: int, arc_yx: int, arc_xy: int) -> Option<int> {
    if x == 0 && y == 0 {
        None
    } else if x >= 0 && y >= 0 {
        Some(arc_xy + 3 * QUARTER_TURN)
    } else if x >= 0 {
        Some(arc_yx)
    } else if y < 0 {
        Some(arc_xy + QUARTER_TURN)
    } else {
        Some(arc_yx + 2 * QUARTER_TURN)
    }
}

/// How far a dial has turned from the angle `old` to the angle `new`. A jump
/// from the upper part of the scale to the lower, or back, is read as a turn
/// through the wrap and not as a turn the long way round.
pub open spec fn turned(new: int, old: int) -> int {
    if old >= WRAP_HIGH && new < WRAP_LOW {
        (new + FULL_TURN) - old
    } else if old < WRAP_LOW && new > WRAP_HIGH {
        new - (old + FULL_TURN)
    } else {
        new - old
    }
}

/// The vector `(x, y)` is longer than `threshold`.
pub open spec fn exceeds(x: int, y: int, threshold: int) -> bool {
    x * x + y * y > threshold * threshold
}

/// An angle lies within one turn. It reaches the full turn only on the
/// positive x axis, where `y` is zero and the arc of `|x| / |y|` is a quarter
/// turn; everywhere else it stays below.
pub proof fn lemma_angle_within_turn(x: int, y: int, arc_yx: int, arc_xy: int)
    requires
        0 <= arc_yx <= QUARTER_TURN,
        0 <= arc_xy <= QUARTER_TURN,
        x != 0 || y != 0,
    ensures
        compass_angle(x, y, arc_yx, arc_xy) is Some,
        0 <= compass_angle(x, y, arc_yx, arc_xy)->0 <= FULL_TURN,
        compass_angle(x, y, arc_yx, arc_xy)->0 == FULL_TURN <==> x >= 0 && y >= 0 && arc_xy
            == QUARTER_TURN,
{
}

/// Between two vectors of one quadrant the angle differs as the arc does that
/// counts there: the arc of `|y| / |x|` where exactly one of `x` and `y` is
/// negative, the arc of `|x| / |y|` elsewhere.
pub proof fn lemma_angle_follows_arc(
    x: int,
    y: int,
    arc_yx: int,
    arc_xy: int,
    x2: int,
    y2: int,
    arc_yx2: int,
    arc_xy2: int,
)
    requires
        x != 0 || y != 0,
        x2 != 0 || y2 != 0,
        (x < 0) == (x2 < 0),
        (y < 0) == (y2 < 0),
    ensures
        compass_angle(x2, y2, arc_yx2, arc_xy2)->0 - compass_angle(x, y, arc_yx, arc_xy)->0 == if (x
            < 0) != (y < 0) {
            arc_yx2 - arc_yx
        } else {
            arc_xy2 - arc_xy
        },
{
}

/// Where two quadrants meet, their angles meet: with the arcs that a vector
/// on an axis has, a quarter turn and nothing, the angle is the same on the
/// axis and beside it. Only across the positive x axis it jumps, from nothing
/// below the axis to the full turn on it.
pub proof fn lemma_angle_across_axes(x: int, y: int)
    requires
        x < 0,
        y < 0,
    ensures
        compass_angle(0, y, QUARTER_TURN as int, 0) == compass_angle(x, y, QUARTER_TURN as int, 0),
        compass_angle(x, 0, 0, QUARTER_TURN as int) == compass_angle(x, y, 0, QUARTER_TURN as int),
        compass_angle(0, -y, QUARTER_TURN as int, 0) == compass_angle(x, -y, QUARTER_TURN as int, 0),
        compass_angle(-x, 0, 0, QUARTER_TURN as int)->0 == compass_angle(
            -x,
            y,
            0,
            QUARTER_TURN as int,
        )->0 + FULL_TURN,
{
}

/// A dial that has not moved has not turned.
pub proof fn lemma_turned_none(angle: int)
    ensures
        turned(angle, angle) == 0,
{
}

/// Turning back undoes turning, but for an angle exactly at [`WRAP_HIGH`],
/// where only one of the two directions reads as a turn through the wrap.
pub proof fn lemma_turned_back(new: int, old: int)
    requires
        new != WRAP_HIGH,
        old != WRAP_HIGH,
    ensures
        turned(old, new) == -turned(new, old),
{
}

/// What a dial has turned differs from the difference of the two angles by
/// nothing or by one full turn.
pub proof fn lemma_turned_whole_turns(new: int, old: int)
    ensures
        turned(new, old) == new - old || turned(new, old) == new - old + FULL_TURN || turned(
            new,
            old,
        ) == new - old - FULL_TURN,
{
}

/// The angle of the vector `v`, where `arc_yx` is the arctangent of
/// `|y| / |x|` and `arc_xy` that of `|x| / |y|`, both in thousandths of a
/// degree. The vector `(0, 0)` has no angle.
pub fn angle_of(v: Vec2<i32>, arc_yx: u32, arc_xy: u32) -> (angle: Option<u32>)
    requires
        arc_yx <= QUARTER_TURN,
        arc_xy <= QUARTER_TURN,
    ensures
        angle is Some <==> v.x != 0 || v.y != 0,
        angle is Some ==> compass_angle(v.x as int, v.y as int, arc_yx as int, arc_xy as int)
            == Some(angle->0 as int),
        angle is Some ==> angle->0 <= FULL_TURN,
{
    if v.x == 0 && v.y == 0 {
        None
    } else if v.x >= 0 && v.y >= 0 {
        Some(arc_xy + 3 * QUARTER_TURN)
    } else if v.x >= 0 {
        Some(arc_yx)
    } else if v.y < 0 {
        Some(arc_xy + QUARTER_TURN)
    } else {
        Some(arc_yx + 2 * QUARTER_TURN)
    }
}

/// How far a dial has turned from the angle `rhs` to the angle `lhs`, in
/// thousandths of a degree.
pub fn angle_delta(lhs: u32, rhs: u32) -> (delta: i64)
    ensures
        delta == turned(lhs as int, rhs as int),
{
    if rhs >= WRAP_HIGH && lhs < WRAP_LOW {
        (lhs as i64 + FULL_TURN as i64) - rhs as i64
    } else if rhs < WRAP_LOW && lhs > WRAP_HIGH {
        lhs as i64 - (rhs as i64 + FULL_TURN as i64)
    } else {
        lhs as i64 - rhs as i64
    }
}

/// Whether the vector `v` is longer than `threshold`.
pub fn is_large(v: Vec2<i32>, threshold: u32) -> (large: bool)
    ensures
        large == exceeds(v.x as int, v.y as int, threshold as int),
{
    let x = v.x as i128;
    let y = v.y as i128;
    let t = threshold as i128;
    assert(0 <= x * x <= 0x4000_0000_0000_0000) by (nonlinear_arith)
        requires
            -0x8000_0000 <= x <= 0x8000_0000,
    ;
    assert(0 <= y * y <= 0x4000_0000_0000_0000) by (nonlinear_arith)
        requires
            -0x8000_0000 <= y <= 0x8000_0000,
    ;
    assert(0 <= t * t <= 0x1_0000_0000_0000_0000) by (nonlinear_arith)
        requires
            0 <= t <= 0x1_0000_0000,
    ;
    x * x + y * y > t * t
}

/// The last angle at which a dial was seen far enough from its centre for
/// the angle to mean something.
#[derive(Clone, Copy, Debug)]
pub struct AngleTracker {
    last_angle: u32,
    dead_zone: u32,
}

impl AngleTracker {
    /// The angle that is tracked, in thousandths of a degree.
    pub closed spec fn spec_last_angle(&self) -> u32 {
        self.last_angle
    }

    /// The length that a vector has to exceed for its angle to count.
    pub closed spec fn spec_dead_zone(&self) -> u32 {
        self.dead_zone
    }

    /// The tracked angle lies within one turn.
    #[verifier::type_invariant]
    pub closed spec fn within_turn(&self) -> bool {
        self.last_angle <= FULL_TURN
    }

    /// A tracker that starts at the angle zero.
    pub fn new(dead_zone: u32) -> (tracker: Self)
        ensures
            tracker.spec_last_angle() == 0,
            tracker.spec_dead_zone() == dead_zone,
    {
        AngleTracker { last_angle: 0, dead_zone }
    }

    /// The angle that is tracked, in thousandths of a degree.
    #[verifier::when_used_as_spec(spec_last_angle)]
    pub fn last_angle(&self) -> (angle: u32)
        ensures
            angle == self.spec_last_angle(),
            angle <= FULL_TURN,
    {
        proof {
            use_type_invariant(self);
        }
        self.last_angle
    }

    /// The length that a vector has to exceed for its angle to count.
    #[verifier::when_used_as_spec(spec_dead_zone)]
    pub fn dead_zone(&self) -> (threshold: u32)
        ensures
            threshold == self.spec_dead_zone(),
    {
        self.dead_zone
    }

    /// Takes one sample of the dial, with its two arcs as for [`angle_of`],
    /// and says how far the dial has turned since the last sample that
    /// counted. A sample counts when its vector is longer than the dead zone;
    /// then its angle is tracked from now on. A sample that does not count
    /// turns nothing and leaves the tracked angle as it was.
    pub fn sample(&mut self, v: Vec2<i32>, arc_yx: u32, arc_xy: u32) -> (delta: i64)
        requires
            arc_yx <= QUARTER_TURN,
            arc_xy <= QUARTER_TURN,
        ensures
            final(self).spec_dead_zone() == old(self).spec_dead_zone(),
            exceeds(v.x as int, v.y as int, old(self).spec_dead_zone() as int) ==> {
                &&& compass_angle(v.x as int, v.y as int, arc_yx as int, arc_xy as int) == Some(
                    final(self).spec_last_angle() as int,
                )
                &&& delta == turned(
                    final(self).spec_last_angle() as int,
                    old(self).spec_last_angle() as int,
                )
            },
            !exceeds(v.x as int, v.y as int, old(self).spec_dead_zone() as int) ==> {
                &&& delta == 0
                &&& final(self).spec_last_angle() == old(self).spec_last_angle()
            },
    {
        if !is_large(v, self.dead_zone) {
            return 0;
        }
        match angle_of(v, arc_yx, arc_xy) {
            Some(angle) => {
                let delta = angle_delta(angle, self.last_angle);
                self.last_angle = angle;
                delta
            },
            None => 0,
        }
    }
}

} // verus!
