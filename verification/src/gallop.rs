//! The tap-gesture decoder.
//!
//! Four lanes stand for four adjacent keys. Each lane remembers the time of
//! its latest press. Two presses on neighbouring lanes, one after the other,
//! make one step of a roll: upwards when the later press is on the higher
//! lane, downwards otherwise. The decoder hands such steps out oldest first
//! and forgets the older press of each pair it has looked at.

use crate::fixed::{
    div_toward_zero, lemma_toward_zero_bounds, lemma_toward_zero_monotone, toward_zero, STEPS,
};
use std::time::Duration;
use std::time::Instant;
use vstd::prelude::*;

verus! {

/// The number of lanes of a decoder.
pub const LANES: usize = 4;

/// The time between two presses, in nanoseconds, that is worth one pixel
/// less of movement.
pub const GALLOP_SENSETIVITY: u64 = 25_000_000;

/// The time between two presses, in nanoseconds, from which on they no longer
/// count as one gesture.
pub const GALLOP_TOLERANCE: u64 = 250_000_000;

/// What the lanes of a decoder hold: for each lane the time of its pending
/// press in nanoseconds, if it has one.
pub type Lanes = Seq<Option<u64>>;

/// `std::time::Instant`, a point on the monotonic clock. It is carried
/// through as it is; nothing is known of what it holds.
#[verifier::external_type_specification]
#[verifier::external_body]
pub struct ExInstant(std::time::Instant);

/// `Instant::now` reads the monotonic clock. Nothing is claimed of the
/// instant it returns.
pub assume_specification[ Instant::now ]() -> (now: Instant)
;

/// `Instant::elapsed` measures the time since an instant. Nothing is claimed
/// of the duration it returns.
pub assume_specification[ Instant::elapsed ](since: &Instant) -> (elapsed: Duration)
;

/// `Duration::as_nanos` counts the whole nanoseconds of a duration. Nothing
/// is claimed of the count.
pub assume_specification[ Duration::as_nanos ](duration: &Duration) -> (nanos: u128)
;

/// One step of a roll, with the time that lay between its two presses in
/// nanoseconds.
#[derive(Clone, Copy, Debug, PartialEq, Eq, Structural)]
pub enum GallopEvent {
    /// The later press was on the next lane up.
    Positive(u64),
    /// The later press was on the next lane down.
    Negative(u64),
}

impl GallopEvent {
    /// The time between the two presses, in nanoseconds.
    pub open spec fn spec_elapsed(&self) -> u64 {
        match self {
            GallopEvent::Positive(elapsed) => *elapsed,
            GallopEvent::Negative(elapsed) => *elapsed,
        }
    }

    /// The movement that the step is worth, in thousandths of a pixel: the
    /// time by which the presses beat `tolerance`, in units of `sensitivity`,
    /// rounded toward zero, upwards for a positive step and downwards for a
    /// negative one. Past `tolerance` the movement goes the other way.
    pub open spec fn magnitude_of(&self, tolerance: u64, sensitivity: u64) -> int {
        let size = toward_zero((tolerance - self.spec_elapsed()) * STEPS, sensitivity as int);
        match self {
            GallopEvent::Positive(_) => size,
            GallopEvent::Negative(_) => -size,
        }
    }

    /// The time between the two presses, in nanoseconds.
    #[verifier::when_used_as_spec(spec_elapsed)]
    pub fn elapsed(&self) -> (elapsed: u64)
        ensures
            elapsed == self.spec_elapsed(),
    {
        match self {
            GallopEvent::Positive(elapsed) => *elapsed,
            GallopEvent::Negative(elapsed) => *elapsed,
        }
    }

    /// The movement that the step is worth under a given tolerance and
    /// sensitivity, in thousandths of a pixel.
    pub fn magnitude(&self, tolerance: u64, sensitivity: u64) -> (movement: i128)
        requires
            sensitivity > 0,
        ensures
            movement == self.magnitude_of(tolerance, sensitivity),
    {
        let spare: i128 = tolerance as i128 - self.elapsed() as i128;
        assert(-u64::MAX * STEPS <= spare * STEPS <= u64::MAX * STEPS) by (nonlinear_arith)
            requires
                -u64::MAX <= spare <= u64::MAX,
                STEPS == 1000,
        ;
        let margin: i128 = spare * (STEPS as i128);
        let units = div_toward_zero(margin, sensitivity);
        proof {
            lemma_toward_zero_bounds(margin as int, sensitivity as int);
        }
        match self {
            GallopEvent::Positive(_) => units,
            GallopEvent::Negative(_) => -units,
        }
    }

    /// The movement that the step is worth under [`GALLOP_TOLERANCE`] and
    /// [`GALLOP_SENSETIVITY`], in thousandths of a pixel.
    pub fn value(&self) -> (movement: i128)
        ensures
            movement == self.magnitude_of(GALLOP_TOLERANCE, GALLOP_SENSETIVITY),
    {
        self.magnitude(GALLOP_TOLERANCE, GALLOP_SENSETIVITY)
    }
}

/// The slower the roll, the smaller the movement of a positive step, and the
/// larger (the less negative) that of a negative one.
pub proof fn lemma_magnitude_decreasing(quick: u64, slow: u64, tolerance: u64, sensitivity: u64)
    requires
        sensitivity > 0,
        quick <= slow,
    ensures
        GallopEvent::Positive(quick).magnitude_of(tolerance, sensitivity) >= GallopEvent::Positive(
            slow,
        ).magnitude_of(tolerance, sensitivity),
        GallopEvent::Negative(quick).magnitude_of(tolerance, sensitivity) <= GallopEvent::Negative(
            slow,
        ).magnitude_of(tolerance, sensitivity),
{
    lemma_toward_zero_monotone(
        (tolerance - slow) * STEPS,
        (tolerance - quick) * STEPS,
        sensitivity as int,
    );
}

/// Presses that are exactly `tolerance` apart are worth no movement.
pub proof fn lemma_magnitude_at_tolerance(tolerance: u64, sensitivity: u64)
    requires
        sensitivity > 0,
    ensures
        GallopEvent::Positive(tolerance).magnitude_of(tolerance, sensitivity) == 0,
        GallopEvent::Negative(tolerance).magnitude_of(tolerance, sensitivity) == 0,
{
    lemma_toward_zero_bounds(0, sensitivity as int);
}

/// A positive step moves upwards exactly when its presses beat `tolerance`
/// by a margin that is worth at least one thousandth of a pixel, and
/// downwards exactly when they miss it by such a margin. Before `tolerance`
/// it never moves downwards.
pub proof fn lemma_magnitude_sign(elapsed: u64, tolerance: u64, sensitivity: u64)
    requires
        sensitivity > 0,
    ensures
        GallopEvent::Positive(elapsed).magnitude_of(tolerance, sensitivity) > 0 <==> (tolerance
            - elapsed) * STEPS >= sensitivity,
        GallopEvent::Positive(elapsed).magnitude_of(tolerance, sensitivity) < 0 <==> (elapsed
            - tolerance) * STEPS >= sensitivity,
        elapsed <= tolerance ==> GallopEvent::Positive(elapsed).magnitude_of(tolerance, sensitivity)
            >= 0,
        GallopEvent::Negative(elapsed).magnitude_of(tolerance, sensitivity)
            == -GallopEvent::Positive(elapsed).magnitude_of(tolerance, sensitivity),
{
    lemma_toward_zero_bounds((tolerance - elapsed) * STEPS, sensitivity as int);
}

/// Lane `i` is drained before lane `j`: it has a press, and lane `j` has
/// none, or a later one, or one of the same time and the higher index.
pub open spec fn precedes(lanes: Lanes, i: int, j: int) -> bool {
    &&& lanes[i] is Some
    &&& lanes[j] is Some ==> {
        ||| lanes[i]->0 < lanes[j]->0
        ||| lanes[i]->0 == lanes[j]->0 && i < j
    }
}

/// Lane `i` holds the oldest pending press.
pub open spec fn is_oldest(lanes: Lanes, i: int) -> bool {
    &&& 0 <= i < lanes.len()
    &&& lanes[i] is Some
    &&& forall|j: int| 0 <= j < lanes.len() && j != i ==> precedes(lanes, i, j)
}

/// The lane with the oldest pending press, if any lane has one.
pub open spec fn oldest(lanes: Lanes) -> Option<int> {
    if exists|i: int| is_oldest(lanes, i) {
        Some(choose|i: int| is_oldest(lanes, i))
    } else {
        None
    }
}

/// The number of lanes with a pending press.
pub open spec fn populated(lanes: Lanes) -> nat
    decreases lanes.len(),
{
    if lanes.len() == 0 {
        0
    } else {
        populated(lanes.drop_last()) + if lanes.last() is Some {
            1nat
        } else {
            0nat
        }
    }
}

/// Lanes without any press.
pub open spec fn empty_lanes() -> Lanes {
    Seq::new(LANES as nat, |i: int| None)
}

/// The lanes without the press of lane `i`.
pub open spec fn without(lanes: Lanes, i: int) -> Lanes {
    lanes.update(i, None)
}

/// What a pair of presses means: `older` is the lane of the first press,
/// `newer` that of the second, `elapsed` the time between them.
///
/// A step from the last lane to the first counts as a step up. A step from
/// the first lane to the last is no step at all: it is as far apart as two
/// lanes can be.
pub open spec fn decode(newer: int, older: int, elapsed: u64) -> Option<GallopEvent> {
    if newer == 0 && older == LANES - 1 {
        Some(GallopEvent::Positive(elapsed))
    } else if newer == older + 1 {
        Some(GallopEvent::Positive(elapsed))
    } else if newer + 1 == older {
        Some(GallopEvent::Negative(elapsed))
    } else {
        None
    }
}

/// The event that draining once yields.
pub open spec fn pull_event(lanes: Lanes) -> Option<GallopEvent> {
    match oldest(lanes) {
        Some(older) => match oldest(without(lanes, older)) {
            Some(newer) => decode(newer, older, (lanes[newer]->0 - lanes[older]->0) as u64),
            None => None,
        },
        None => None,
    }
}

/// The lanes after draining once: with fewer than two presses nothing
/// changes, otherwise the oldest press is gone.
pub open spec fn pull_lanes(lanes: Lanes) -> Lanes {
    match oldest(lanes) {
        Some(older) => match oldest(without(lanes, older)) {
            Some(_) => without(lanes, older),
            None => lanes,
        },
        None => lanes,
    }
}

/// At most one lane holds the oldest press.
pub proof fn lemma_oldest_unique(lanes: Lanes, i: int, j: int)
    requires
        is_oldest(lanes, i),
        is_oldest(lanes, j),
    ensures
        i == j,
{
    if i != j {
        assert(precedes(lanes, i, j));
        assert(precedes(lanes, j, i));
    }
}

/// `oldest` is the lane that `is_oldest` holds of.
pub proof fn lemma_oldest_is(lanes: Lanes, i: int)
    requires
        is_oldest(lanes, i),
    ensures
        oldest(lanes) == Some(i),
{
    lemma_oldest_unique(lanes, i, choose|k: int| is_oldest(lanes, k));
}

/// The lane that `oldest` names holds the oldest press.
pub proof fn lemma_oldest_holds(lanes: Lanes, i: int)
    requires
        oldest(lanes) == Some(i),
    ensures
        is_oldest(lanes, i),
{
}

/// Without a press there is no oldest lane.
pub proof fn lemma_oldest_none(lanes: Lanes)
    requires
        forall|j: int| 0 <= j < lanes.len() ==> lanes[j] is None,
    ensures
        oldest(lanes) is None,
{
}

/// The oldest press among the first `n` lanes, or -1 where they hold none.
spec fn oldest_among(lanes: Lanes, n: int) -> int
    decreases n,
{
    if n <= 0 {
        -1
    } else {
        let before = oldest_among(lanes, n - 1);
        if lanes[n - 1] is Some && (before < 0 || lanes[n - 1]->0 < lanes[before]->0) {
            n - 1
        } else {
            before
        }
    }
}

proof fn lemma_oldest_among(lanes: Lanes, n: int)
    requires
        0 <= n <= lanes.len(),
    ensures
        -1 <= oldest_among(lanes, n) < n,
        oldest_among(lanes, n) < 0 ==> forall|j: int| 0 <= j < n ==> lanes[j] is None,
        oldest_among(lanes, n) >= 0 ==> lanes[oldest_among(lanes, n)] is Some,
        oldest_among(lanes, n) >= 0 ==> forall|j: int|
            0 <= j < n && j != oldest_among(lanes, n) ==> precedes(
                lanes,
                oldest_among(lanes, n),
                j,
            ),
    decreases n,
{
    if n > 0 {
        lemma_oldest_among(lanes, n - 1);
        let before = oldest_among(lanes, n - 1);
        let now = oldest_among(lanes, n);
        if now >= 0 {
            assert forall|j: int| 0 <= j < n && j != now implies precedes(lanes, now, j) by {
                if before >= 0 && j != before && j < n - 1 {
                    assert(precedes(lanes, before, j));
                }
            }
        }
    }
}

/// No more lanes are populated than there are, and none is exactly where no
/// lane holds a press.
pub proof fn lemma_populated_bounds(lanes: Lanes)
    ensures
        populated(lanes) <= lanes.len(),
        populated(lanes) == 0 <==> forall|j: int| 0 <= j < lanes.len() ==> lanes[j] is None,
    decreases lanes.len(),
{
    if lanes.len() > 0 {
        let front = lanes.drop_last();
        lemma_populated_bounds(front);
        if populated(lanes) == 0 {
            assert forall|j: int| 0 <= j < lanes.len() implies lanes[j] is None by {
                if j < front.len() {
                    assert(front[j] is None);
                }
            }
        } else if populated(front) == 0 {
            assert(lanes.last() is Some);
        } else {
            let j = choose|j: int| 0 <= j < front.len() && !(front[j] is None);
            assert(lanes[j] is Some);
        }
    }
}

/// Taking the press of a lane away leaves one lane fewer populated.
pub proof fn lemma_populated_without(lanes: Lanes, i: int)
    requires
        0 <= i < lanes.len(),
        lanes[i] is Some,
    ensures
        populated(without(lanes, i)) + 1 == populated(lanes),
    decreases lanes.len(),
{
    if i == lanes.len() - 1 {
        assert(without(lanes, i).drop_last() =~= lanes.drop_last());
    } else {
        assert(without(lanes, i).drop_last() =~= without(lanes.drop_last(), i));
        lemma_populated_without(lanes.drop_last(), i);
    }
}

/// There is an oldest press as soon as there is a press.
pub proof fn lemma_oldest_exists(lanes: Lanes)
    ensures
        oldest(lanes) is Some <==> populated(lanes) > 0,
{
    lemma_populated_bounds(lanes);
    lemma_oldest_among(lanes, lanes.len() as int);
    let found = oldest_among(lanes, lanes.len() as int);
    if found >= 0 {
        assert(is_oldest(lanes, found));
    } else {
        lemma_oldest_none(lanes);
    }
}

/// Draining by the count: with fewer than two presses it yields nothing and
/// changes nothing; with two or more it takes the oldest press away, whether
/// or not the pair makes a step.
pub proof fn lemma_pull_by_count(lanes: Lanes)
    ensures
        populated(lanes) < 2 ==> pull_event(lanes) is None && pull_lanes(lanes) == lanes,
        populated(lanes) >= 2 ==> oldest(lanes) is Some && pull_lanes(lanes) == without(
            lanes,
            oldest(lanes)->0,
        ) && populated(pull_lanes(lanes)) + 1 == populated(lanes),
{
    lemma_oldest_exists(lanes);
    if let Some(older) = oldest(lanes) {
        lemma_oldest_holds(lanes, older);
        lemma_populated_without(lanes, older);
        lemma_oldest_exists(without(lanes, older));
    }
}

/// Two presses on different lanes, the second later than the first, or at
/// the same time and on the higher lane: draining yields what the step from
/// the first lane to the second means, takes the first press away whether or
/// not that is a step, and then yields nothing and changes nothing.
pub proof fn lemma_two_presses(first: int, second: int, at: u64, then: u64)
    requires
        0 <= first < LANES,
        0 <= second < LANES,
        first != second,
        at < then || (at == then && first < second),
    ensures
        ({
            let lanes = empty_lanes().update(first, Some(at)).update(second, Some(then));
            let left = empty_lanes().update(second, Some(then));
            &&& pull_event(lanes) == decode(second, first, (then - at) as u64)
            &&& pull_lanes(lanes) == left
            &&& pull_event(left) is None
            &&& pull_lanes(left) == left
        }),
{
    let lanes = empty_lanes().update(first, Some(at)).update(second, Some(then));
    let left = empty_lanes().update(second, Some(then));
    assert(is_oldest(lanes, first));
    lemma_oldest_is(lanes, first);
    assert(without(lanes, first) =~= left);
    assert(is_oldest(left, second));
    lemma_oldest_is(left, second);
    lemma_oldest_none(without(left, second));
}

/// Draining comes to an end: after one call for each lane but one, nothing is
/// left to decode.
pub proof fn lemma_pull_runs_dry(lanes: Lanes)
    requires
        lanes.len() == LANES,
    ensures
        pull_event(pull_lanes(pull_lanes(pull_lanes(lanes)))) is None,
{
    let once = pull_lanes(lanes);
    let twice = pull_lanes(once);
    let thrice = pull_lanes(twice);
    lemma_populated_bounds(lanes);
    lemma_pull_by_count(lanes);
    lemma_pull_by_count(once);
    lemma_pull_by_count(twice);
    lemma_pull_by_count(thrice);
}

/// The lane of the oldest press among `keys`.
fn oldest_lane(keys: &[Option<u64>; 4]) -> (found: Option<usize>)
    ensures
        match found {
            Some(i) => oldest(keys@) == Some(i as int),
            None => oldest(keys@) is None,
        },
{
    let mut best: Option<(usize, u64)> = None;
    let mut i: usize = 0;
    while i < LANES
        invariant
            i <= LANES,
            keys@.len() == LANES,
            match best {
                Some((b, t)) => {
                    &&& b < i
                    &&& keys@[b as int] == Some(t)
                    &&& forall|j: int| 0 <= j < i && j != b ==> precedes(keys@, b as int, j)
                },
                None => forall|j: int| 0 <= j < i ==> keys@[j] is None,
            },
        decreases LANES - i,
    {
        if let Some(pressed) = keys[i] {
            match best {
                Some((b, t)) => {
                    if pressed < t {
                        assert forall|j: int| 0 <= j < i implies precedes(keys@, i as int, j) by {
                            if j != b {
                                assert(precedes(keys@, b as int, j));
                            }
                        }
                        best = Some((i, pressed));
                    }
                },
                None => {
                    best = Some((i, pressed));
                },
            }
        }
        i += 1;
    }
    match best {
        Some((b, _)) => {
            proof {
                lemma_oldest_is(keys@, b as int);
            }
            Some(b)
        },
        None => {
            proof {
                lemma_oldest_none(keys@);
            }
            None
        },
    }
}

/// Exec form of [`decode`].
fn decode_pair(newer: usize, older: usize, elapsed: u64) -> (ev: Option<GallopEvent>)
    requires
        newer < LANES,
        older < LANES,
    ensures
        ev == decode(newer as int, older as int, elapsed),
{
    if newer == 0 && older == LANES - 1 {
        Some(GallopEvent::Positive(elapsed))
    } else if newer == older + 1 {
        Some(GallopEvent::Positive(elapsed))
    } else if newer + 1 == older {
        Some(GallopEvent::Negative(elapsed))
    } else {
        None
    }
}

/// The decoder: four lanes and the clock that stamps their presses.
#[derive(Debug)]
pub struct Gallop {
    epoch: Instant,
    keys: [Option<u64>; 4],
}

impl View for Gallop {
    type V = Lanes;

    closed spec fn view(&self) -> Lanes {
        self.keys@
    }
}

impl Clone for Gallop {
    fn clone(&self) -> (copy: Self)
        ensures
            copy@ == self@,
    {
        Gallop { epoch: self.epoch, keys: self.keys }
    }
}

impl Default for Gallop {
    fn default() -> (gallop: Self)
        ensures
            gallop@ == empty_lanes(),
    {
        Gallop::new()
    }
}

impl Gallop {
    /// A decoder has exactly [`LANES`] lanes.
    pub proof fn lemma_lane_count(&self)
        ensures
            self@.len() == LANES,
    {
    }

    /// A decoder without presses. Its clock starts now.
    pub fn new() -> (gallop: Self)
        ensures
            gallop@ == empty_lanes(),
    {
        let gallop = Gallop { epoch: Instant::now(), keys: [None, None, None, None] };
        assert(gallop@ =~= empty_lanes());
        gallop
    }

    /// The time on the decoder's clock, in nanoseconds; from about 584 years
    /// on, the largest number there is.
    fn clock(&self) -> u64 {
        to_stamp(self.epoch.elapsed().as_nanos())
    }

    /// Records a press on lane `idx` at the present time, in place of the
    /// press that the lane held.
    pub fn push(&mut self, idx: usize)
        requires
            idx < LANES,
        ensures
            exists|now: u64| final(self)@ == old(self)@.update(idx as int, Some(now)),
    {
        let now = self.clock();
        self.push_at(idx, now);
    }

    /// Records a press on lane `idx` at time `now`, in place of the press
    /// that the lane held.
    pub fn push_at(&mut self, idx: usize, now: u64)
        requires
            idx < LANES,
        ensures
            final(self)@ == old(self)@.update(idx as int, Some(now)),
    {
        self.keys[idx] = Some(now);
    }

    /// Takes the oldest press out, if there are two presses, and says what it
    /// and the next oldest mean together.
    pub fn event(&mut self) -> (ev: Option<GallopEvent>)
        ensures
            ev == pull_event(old(self)@),
            final(self)@ == pull_lanes(old(self)@),
    {
        let Some(older) = oldest_lane(&self.keys) else {
            return None;
        };
        let mut rest = self.keys;
        rest[older] = None;
        let Some(newer) = oldest_lane(&rest) else {
            return None;
        };
        proof {
            lemma_oldest_holds(self.keys@, older as int);
            lemma_oldest_holds(rest@, newer as int);
            assert(precedes(self.keys@, older as int, newer as int));
        }
        let first = self.keys[older].unwrap();
        let second = self.keys[newer].unwrap();
        self.keys[older] = None;
        decode_pair(newer, older, second - first)
    }
}

/// A count of nanoseconds as a time stamp: the count itself, or the largest
/// stamp there is where the count is beyond it.
pub open spec fn stamp_of(nanos: u128) -> u64 {
    if nanos > u64::MAX {
        u64::MAX
    } else {
        nanos as u64
    }
}

/// A count of nanoseconds as a time stamp. A clock gets beyond the largest
/// stamp after about 584 years, and stands still from then on.
pub fn to_stamp(nanos: u128) -> (stamp: u64)
    ensures
        stamp == stamp_of(nanos),
{
    if nanos > u64::MAX as u128 {
        u64::MAX
    } else {
        nanos as u64
    }
}

} // verus!
