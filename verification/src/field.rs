//! The swarm of drifting points that drives the field.

use crate::geometry::Position;
use crate::random::sample_below;
use vstd::prelude::*;

verus! {

/// Speeds are counted in this many parts of a pixel per tick.
pub const SPEED_DENOMINATOR: u32 = 80;

/// A freshly seeded point has a speed below this many parts per tick on
/// each axis, that is below 1.25 pixels per tick.
pub const SPEED_LIMIT: u32 = 100;

/// Whole pixels that a point of the given speed covers in one tick. The
/// position is a whole number of pixels, so the fraction of a pixel that is
/// cut off in one tick is lost: it is not carried into the next.
pub open spec fn pixels_per_tick(speed: u32) -> nat {
    (speed / SPEED_DENOMINATOR) as nat
}

/// A coordinate one tick later. A coordinate that leaves the range of `u32`
/// wraps around.
pub open spec fn moved(coordinate: u32, speed: u32) -> u32 {
    let sum = coordinate + pixels_per_tick(speed);
    if sum > u32::MAX {
        (sum - 0x1_0000_0000) as u32
    } else {
        sum as u32
    }
}

/// A moving point source: where it is, in whole pixels, and how fast it
/// drifts along each axis, in eightieths of a pixel per tick.
#[derive(Clone, Copy, Debug, PartialEq, Eq, Structural)]
pub struct Point {
    pub x: u32,
    pub y: u32,
    pub speed_x: u32,
    pub speed_y: u32,
}

impl Point {
    /// The point one tick later.
    pub open spec fn stepped(self) -> Point {
        Point {
            x: moved(self.x, self.speed_x),
            y: moved(self.y, self.speed_y),
            speed_x: self.speed_x,
            speed_y: self.speed_y,
        }
    }

    /// The point after `ticks` ticks, each applied to the result of the one
    /// before.
    pub open spec fn after(self, ticks: nat) -> Point
        decreases ticks,
    {
        if ticks == 0 {
            self
        } else {
            self.stepped().after((ticks - 1) as nat)
        }
    }

    /// What holds of every point of a fresh population seeded for a canvas
    /// of the given width: both coordinates lie below the width, both speeds
    /// below `SPEED_LIMIT`.
    pub open spec fn seeded_for(self, canvas_width: u32) -> bool {
        &&& self.x < canvas_width
        &&& self.y < canvas_width
        &&& self.speed_x < SPEED_LIMIT
        &&& self.speed_y < SPEED_LIMIT
    }

    /// A point at `(x, y)` with the given speeds in eightieths of a pixel per
    /// tick.
    pub fn new(x: u32, y: u32, speed_x: u32, speed_y: u32) -> (point: Point)
        ensures
            point == (Point { x, y, speed_x, speed_y }),
    {
        Point { x, y, speed_x, speed_y }
    }

    /// Where the point is.
    pub fn position(&self) -> (at: Position)
        ensures
            at == (self.x, self.y),
    {
        (self.x, self.y)
    }

    /// Moves the point by one tick.
    pub fn advance(&mut self)
        ensures
            *final(self) == old(self).stepped(),
    {
        self.x = self.x.wrapping_add(self.speed_x / SPEED_DENOMINATOR);
        self.y = self.y.wrapping_add(self.speed_y / SPEED_DENOMINATOR);
    }
}

/// The positions of a sequence of points, in order.
pub open spec fn positions_of(points: Seq<Point>) -> Seq<Position> {
    Seq::new(points.len(), |i: int| (points[i].x, points[i].y))
}

/// A sequence of points one tick later.
pub open spec fn stepped_all(points: Seq<Point>) -> Seq<Point> {
    Seq::new(points.len(), |i: int| points[i].stepped())
}

/// A sequence of points after `ticks` ticks.
pub open spec fn after_all(points: Seq<Point>, ticks: nat) -> Seq<Point>
    decreases ticks,
{
    if ticks == 0 {
        points
    } else {
        after_all(stepped_all(points), (ticks - 1) as nat)
    }
}

/// The population of points. Points are never added or removed once the
/// field exists; `advance` moves all of them.
pub struct PointField {
    points: Vec<Point>,
}

impl View for PointField {
    type V = Seq<Point>;

    closed spec fn view(&self) -> Seq<Point> {
        self.points@
    }
}

impl PointField {
    /// A field of `count` points seeded at random: each coordinate is drawn
    /// from `0..canvas_width`, the row as well as the column, and each speed
    /// from `0..SPEED_LIMIT`. The height of the canvas plays no part.
    #[allow(unused_variables)]
    pub fn initialize(count: usize, canvas_width: u32, canvas_height: u32) -> (field: PointField)
        requires
            count > 0 ==> canvas_width > 0,
        ensures
            field@.len() == count,
            forall|i: int| 0 <= i < count ==> (#[trigger] field@[i]).seeded_for(canvas_width),
    {
        let mut rng = rand::thread_rng();
        let mut points: Vec<Point> = Vec::new();
        while points.len() < count
            invariant
                points.len() <= count,
                count > 0 ==> canvas_width > 0,
                forall|i: int| 0 <= i < points.len() ==> (#[trigger] points@[i]).seeded_for(canvas_width),
            decreases count - points.len(),
        {
            let x: u32 = sample_below(&mut rng, canvas_width);
            let y: u32 = sample_below(&mut rng, canvas_width);
            let speed_x: u32 = sample_below(&mut rng, SPEED_LIMIT);
            let speed_y: u32 = sample_below(&mut rng, SPEED_LIMIT);
            points.push(Point::new(x, y, speed_x, speed_y));
        }
        PointField { points }
    }

    /// A field made of the given points, in the given order.
    pub fn from_points(points: Vec<Point>) -> (field: PointField)
        ensures
            field@ == points@,
    {
        PointField { points }
    }

    /// How many points the field holds.
    pub fn len(&self) -> (count: usize)
        ensures
            count == self@.len(),
    {
        self.points.len()
    }

    /// The points, in order.
    pub fn points(&self) -> (points: &[Point])
        ensures
            points@ == self@,
    {
        self.points.as_slice()
    }

    /// Moves every point by one tick.
    pub fn advance(&mut self)
        ensures
            final(self)@ == stepped_all(old(self)@),
    {
        let count: usize = self.points.len();
        let mut i: usize = 0;
        while i < count
            invariant
                i <= count,
                self.points.len() == count,
                old(self).points.len() == count,
                forall|j: int| 0 <= j < i ==> self.points@[j] == old(self).points@[j].stepped(),
                forall|j: int| i <= j < count ==> self.points@[j] == old(self).points@[j],
            decreases count - i,
        {
            let mut point: Point = self.points[i];
            point.advance();
            self.points[i] = point;
            i += 1;
        }
    }
}

/// A coordinate one tick later is the sum of the coordinate and its whole
/// step, taken modulo 2^32.
pub proof fn lemma_moved_is_modular(coordinate: u32, speed: u32)
    ensures
        moved(coordinate, speed) == (coordinate + pixels_per_tick(speed)) % 0x1_0000_0000,
{
}

/// Motion is determined tick by tick. After `ticks` ticks a coordinate has
/// grown by `ticks` times its whole step (modulo 2^32), and the speeds are
/// what they were. The part of a pixel that a tick cuts off is lost in that
/// tick, so this is in general less than `ticks` times the speed, rounded
/// down once.
pub proof fn lemma_after_ticks(point: Point, ticks: nat)
    ensures
        point.after(ticks).x == (point.x + ticks * pixels_per_tick(point.speed_x)) % 0x1_0000_0000,
        point.after(ticks).y == (point.y + ticks * pixels_per_tick(point.speed_y)) % 0x1_0000_0000,
        point.after(ticks).speed_x == point.speed_x,
        point.after(ticks).speed_y == point.speed_y,
    decreases ticks,
{
    if ticks > 0 {
        let next = point.stepped();
        let rest = (ticks - 1) as nat;
        lemma_after_ticks(next, rest);
        let step_x = pixels_per_tick(point.speed_x);
        let step_y = pixels_per_tick(point.speed_y);
        assert(ticks * step_x == step_x + rest * step_x) by (nonlinear_arith)
            requires
                ticks == rest + 1,
        ;
        assert(ticks * step_y == step_y + rest * step_y) by (nonlinear_arith)
            requires
                ticks == rest + 1,
        ;
    } else {
        assert(0 * pixels_per_tick(point.speed_x) == 0) by (nonlinear_arith);
        assert(0 * pixels_per_tick(point.speed_y) == 0) by (nonlinear_arith);
    }
}

/// The whole steps of `ticks` ticks never add up to more than the distance
/// that the speed covers in that time, rounded down; a point slower than one
/// pixel per tick does not move at all.
pub proof fn lemma_fractions_are_lost(speed: u32, ticks: nat)
    ensures
        ticks * pixels_per_tick(speed) <= (ticks * speed) / (SPEED_DENOMINATOR as int),
        speed < SPEED_DENOMINATOR ==> ticks * pixels_per_tick(speed) == 0,
{
    let step = pixels_per_tick(speed);
    let product = ticks * speed;
    assert(ticks * step * 80 <= product) by (nonlinear_arith)
        requires
            step * 80 <= speed,
            product == ticks * speed,
    ;
    if speed < SPEED_DENOMINATOR {
        assert(ticks * step == 0) by (nonlinear_arith)
            requires
                step == 0,
        ;
    }
}

/// A field after `ticks` ticks holds each of its points after `ticks` ticks,
/// in the same order.
pub proof fn lemma_after_all_is_pointwise(points: Seq<Point>, ticks: nat)
    ensures
        after_all(points, ticks).len() == points.len(),
        forall|i: int|
            0 <= i < points.len() ==> (#[trigger] after_all(points, ticks)[i]) == points[i].after(
                ticks,
            ),
    decreases ticks,
{
    if ticks > 0 {
        lemma_after_all_is_pointwise(stepped_all(points), (ticks - 1) as nat);
    }
}

} // verus!
