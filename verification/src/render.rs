//! Shading: from the positions of the points to the bytes of a frame.

use crate::canvas::{index_of, position_of, Canvas, Frame};
use crate::field::{positions_of, Point};
use crate::geometry::{
    floor_distance, floor_sqrt, integer_sqrt, lemma_floor_sqrt_monotone, lemma_floor_sqrt_unique,
    squared_dist, squared_distance, Position,
};
use vstd::prelude::*;

verus! {

/// The brightness ramp runs over distances from zero to this many pixels.
pub const RAMP_INPUT_MAX: u32 = 50;

/// The value that the far end of the ramp is mapped to.
pub const RAMP_OUTPUT_MAX: u32 = 255;

/// The red, green and blue channel of every pixel.
pub const WHITE: u8 = 255;

/// The eight low bits of a number: what is left of it in a byte. Numbers
/// above 255 are not clamped.
pub open spec fn low_byte(n: nat) -> u8 {
    (n % 256) as u8
}

/// The ramp: the line through `(0, 0)` and `(RAMP_INPUT_MAX,
/// RAMP_OUTPUT_MAX)`, rounded down. Past the far end it keeps rising.
pub open spec fn ramp(value: u8) -> nat {
    (value as nat * RAMP_OUTPUT_MAX as nat) / RAMP_INPUT_MAX as nat
}

/// The alpha byte for a distance byte: the ramp, cut to its low byte.
pub open spec fn alpha_of(value: u8) -> u8 {
    low_byte(ramp(value))
}

/// The distances from `at` to each of the points, in whole pixels and in
/// the order of the points.
pub open spec fn distances(points: Seq<Position>, at: Position) -> Seq<int> {
    Seq::new(points.len(), |i: int| floor_distance(points[i], at) as int)
}

/// The distance from `at` to the nearest of the points: the least entry of
/// `distances`.
pub open spec fn nearest(points: Seq<Position>, at: Position) -> int {
    distances(points, at).min()
}

/// The four bytes of the pixel at `at`: white, with the alpha byte given by
/// the distance to the nearest point.
pub open spec fn shade(points: Seq<Position>, at: Position) -> Seq<u8> {
    seq![WHITE, WHITE, WHITE, alpha_of(low_byte(nearest(points, at) as nat))]
}

/// Byte `k` of a frame of the given width.
pub open spec fn frame_byte(points: Seq<Position>, width: nat, k: int) -> u8 {
    shade(points, position_of(k / 4, width))[k % 4]
}

/// The frame that painting leaves: the size of the frame before, and every
/// byte determined by the points alone.
pub open spec fn painted(points: Seq<Position>, frame: Frame) -> Frame {
    Frame {
        width: frame.width,
        height: frame.height,
        bytes: Seq::new(frame.pixel_count() * 4, |k: int| frame_byte(points, frame.width, k)),
    }
}

/// The alpha byte for a distance byte.
pub fn map_range(value: u8) -> (alpha: u8)
    ensures
        alpha == alpha_of(value),
{
    let mapped: u32 = value as u32 * RAMP_OUTPUT_MAX / RAMP_INPUT_MAX;
    (mapped % 256) as u8
}

/// The positions of the points, in order.
pub fn snapshot(points: &[Point]) -> (positions: Vec<Position>)
    ensures
        positions@ == positions_of(points@),
{
    let mut positions: Vec<Position> = Vec::with_capacity(points.len());
    let mut i: usize = 0;
    while i < points.len()
        invariant
            i <= points@.len(),
            positions@.len() == i,
            forall|j: int| 0 <= j < i ==> positions@[j] == (points@[j].x, points@[j].y),
        decreases points@.len() - i,
    {
        positions.push(points[i].position());
        i += 1;
    }
    assert(positions@ =~= positions_of(points@));
    positions
}

/// The root of the least squared distance is the least distance.
proof fn lemma_root_of_least_square(points: Seq<Position>, at: Position, least: nat)
    requires
        exists|j: int| 0 <= j < points.len() && least == #[trigger] squared_distance(points[j], at),
        forall|j: int|
            0 <= j < points.len() ==> least <= #[trigger] squared_distance(points[j], at),
    ensures
        floor_sqrt(least) == nearest(points, at),
{
    let list = distances(points, at);
    list.min_ensures();
    let k = choose|k: int| 0 <= k < list.len() && list[k] == list.min();
    lemma_floor_sqrt_monotone(least, squared_distance(points[k], at));
    let j = choose|j: int|
        0 <= j < points.len() && least == #[trigger] squared_distance(points[j], at);
    assert(list[j] == floor_sqrt(least));
}

/// The distance from `at` to the nearest of the positions, in whole pixels.
/// The least squared distance is found first and its root is taken once: a
/// root never falls as its argument grows, so this is the least of the
/// roots.
pub fn nearest_distance(positions: &[Position], at: &Position) -> (dist: u64)
    requires
        positions@.len() > 0,
    ensures
        dist == nearest(positions@, *at),
{
    let mut least: u128 = squared_dist(&positions[0], at);
    let mut i: usize = 1;
    while i < positions.len()
        invariant
            1 <= i <= positions@.len(),
            exists|j: int|
                0 <= j < i && least == #[trigger] squared_distance(positions@[j], *at),
            forall|j: int|
                0 <= j < i ==> least <= #[trigger] squared_distance(positions@[j], *at),
        decreases positions@.len() - i,
    {
        let square: u128 = squared_dist(&positions[i], at);
        if square < least {
            least = square;
        }
        i += 1;
    }
    proof {
        lemma_root_of_least_square(positions@, *at, least as nat);
    }
    integer_sqrt(least)
}

/// The four bytes of the pixel at `at`.
pub fn shade_pixel(positions: &[Position], at: &Position) -> (pixel: [u8; 4])
    requires
        positions@.len() > 0,
    ensures
        pixel@ == shade(positions@, *at),
{
    let dist: u64 = nearest_distance(positions, at);
    let value: u8 = (dist % 256) as u8;
    let pixel: [u8; 4] = [WHITE, WHITE, WHITE, map_range(value)];
    assert(pixel@ =~= shade(positions@, *at));
    pixel
}

/// Paints the whole canvas from the points: every pixel is overwritten, and
/// nothing of what the canvas held before is read.
pub fn render(points: &[Point], canvas: &mut Canvas)
    requires
        points@.len() > 0,
    ensures
        final(canvas)@ == painted(positions_of(points@), old(canvas)@),
{
    let positions: Vec<Position> = snapshot(points);
    let count: usize = canvas.pixel_count();
    let width: usize = canvas.width() as usize;
    let ghost height: nat = canvas@.height;
    let mut index: usize = 0;
    while index < count
        invariant
            index <= count,
            positions@ == positions_of(points@),
            positions@.len() > 0,
            canvas@.width == old(canvas)@.width == width,
            canvas@.height == old(canvas)@.height == height,
            count == width * height,
            canvas@.bytes.len() == 4 * count,
            forall|k: int|
                0 <= k < 4 * index ==> canvas@.bytes[k] == frame_byte(positions@, width as nat, k),
        decreases count - index,
    {
        proof {
            assert(width > 0 && index / width < height) by (nonlinear_arith)
                requires
                    0 <= index < width * height,
                    0 <= width,
            ;
        }
        let at: Position = ((index % width) as u32, (index / width) as u32);
        let pixel: [u8; 4] = shade_pixel(positions.as_slice(), &at);
        canvas.put(index, pixel);
        index += 1;
    }
    assert(canvas@.bytes =~= painted(positions_of(points@), old(canvas)@).bytes);
}

/// The distance that shades a pixel is the least of its distances to all the
/// points: none of them is smaller, and one of them equals it. This fixes
/// the value however it is found, by a scan or by sorting the list.
pub proof fn lemma_nearest_is_least(points: Seq<Position>, at: Position)
    requires
        points.len() > 0,
    ensures
        forall|i: int|
            0 <= i < points.len() ==> nearest(points, at) <= #[trigger] floor_distance(
                points[i],
                at,
            ),
        exists|i: int|
            0 <= i < points.len() && nearest(points, at) == #[trigger] floor_distance(
                points[i],
                at,
            ),
{
    let list = distances(points, at);
    list.min_ensures();
    let k = choose|k: int| 0 <= k < list.len() && list[k] == list.min();
    assert(nearest(points, at) == floor_distance(points[k], at));
    assert forall|i: int| 0 <= i < points.len() implies nearest(points, at) <= #[trigger] floor_distance(
        points[i],
        at,
    ) by {
        assert(list[i] == floor_distance(points[i], at));
    }
}

/// Whoever sorts the list of distances and takes its head gets the distance
/// to the nearest point.
pub proof fn lemma_sorted_head_is_nearest(points: Seq<Position>, at: Position, sorted: Seq<int>)
    requires
        points.len() > 0,
        sorted.to_multiset() == distances(points, at).to_multiset(),
        forall|i: int, j: int| 0 <= i <= j < sorted.len() ==> sorted[i] <= sorted[j],
    ensures
        sorted.len() == points.len(),
        sorted[0] == nearest(points, at),
{
    let list = distances(points, at);
    list.to_multiset_ensures();
    sorted.to_multiset_ensures();
    list.min_ensures();
    assert(sorted.contains(sorted[0]));
    assert(list.to_multiset().count(sorted[0]) > 0);
    assert(list.contains(sorted[0]));
    assert(sorted.to_multiset().count(list.min()) > 0);
    assert(sorted.contains(list.min()));
    let k = choose|k: int| 0 <= k < sorted.len() && sorted[k] == list.min();
    assert(sorted[0] <= sorted[k]);
}

/// The distance to the nearest point depends on which points there are, not
/// on their order: where two points are equally near, either gives the same
/// value.
pub proof fn lemma_nearest_ignores_order(a: Seq<Position>, b: Seq<Position>, at: Position)
    requires
        a.len() > 0,
        a.to_multiset() == b.to_multiset(),
    ensures
        nearest(a, at) == nearest(b, at),
{
    a.to_multiset_ensures();
    b.to_multiset_ensures();
    lemma_nearest_is_least(a, at);
    lemma_nearest_is_least(b, at);
    let i = choose|i: int|
        0 <= i < a.len() && nearest(a, at) == #[trigger] floor_distance(a[i], at);
    assert(a.contains(a[i]));
    assert(b.to_multiset().count(a[i]) > 0);
    assert(b.contains(a[i]));
    let i2 = choose|i2: int| 0 <= i2 < b.len() && b[i2] == a[i];
    assert(nearest(b, at) <= floor_distance(b[i2], at));
    let j = choose|j: int|
        0 <= j < b.len() && nearest(b, at) == #[trigger] floor_distance(b[j], at);
    assert(b.contains(b[j]));
    assert(a.to_multiset().count(b[j]) > 0);
    assert(a.contains(b[j]));
    let j2 = choose|j2: int| 0 <= j2 < a.len() && a[j2] == b[j];
    assert(nearest(a, at) <= floor_distance(a[j2], at));
}

/// A pixel that a point sits on is at distance zero.
pub proof fn lemma_nearest_at_a_point(points: Seq<Position>, i: int)
    requires
        0 <= i < points.len(),
    ensures
        nearest(points, points[i]) == 0,
{
    let at = points[i];
    assert(squared_distance(at, at) == 0) by (nonlinear_arith)
        requires
            squared_distance(at, at) == ((at.0 - at.0) * (at.0 - at.0) + (at.1 - at.1) * (at.1
                - at.1)) as nat,
    ;
    assert(crate::geometry::is_floor_sqrt(0, 0)) by (nonlinear_arith);
    lemma_floor_sqrt_unique(0, 0);
    lemma_nearest_is_least(points, at);
    assert(nearest(points, at) <= floor_distance(points[i], at));
    assert(0 <= nearest(points, at)) by {
        let k = choose|k: int|
            0 <= k < points.len() && nearest(points, at) == #[trigger] floor_distance(
                points[k],
                at,
            );
    }
}

/// On the ramp, from distance zero to `RAMP_INPUT_MAX`, nothing is cut off:
/// the alpha byte is the value of the line, rounded down. It is 0 at
/// distance zero and `RAMP_OUTPUT_MAX` at `RAMP_INPUT_MAX`.
pub proof fn lemma_ramp_on_domain(value: u8)
    requires
        value <= RAMP_INPUT_MAX,
    ensures
        alpha_of(value) == value * 255 / 50,
        value == 0 ==> alpha_of(value) == 0,
        value == RAMP_INPUT_MAX ==> alpha_of(value) == RAMP_OUTPUT_MAX,
{
}

/// On the ramp a greater distance never gives a smaller alpha byte.
pub proof fn lemma_ramp_rises(near: u8, far: u8)
    requires
        near <= far <= RAMP_INPUT_MAX,
    ensures
        alpha_of(near) <= alpha_of(far),
{
}

/// Painting puts `shade(points, at)` at every position of the frame.
pub proof fn lemma_painted_pixel(points: Seq<Position>, frame: Frame, at: Position)
    requires
        frame.contains(at),
    ensures
        painted(points, frame).well_formed(),
        painted(points, frame).pixel(index_of(at, frame.width)) == shade(points, at),
{
    crate::canvas::lemma_index_round_trip(at, frame.width, frame.height);
    let index = index_of(at, frame.width);
    let after = painted(points, frame);
    assert(after.pixel(index) =~= shade(points, at)) by {
        assert forall|c: int| 0 <= c < 4 implies after.pixel(index)[c] == shade(points, at)[c] by {
            assert(after.pixel(index)[c] == after.bytes[4 * index + c]);
            assert((4 * index + c) / 4 == index);
            assert((4 * index + c) % 4 == c);
        }
    }
}

/// In a painted frame, a pixel whose nearest point is at distance zero has
/// the alpha byte 0, and one whose nearest point is at distance
/// `RAMP_INPUT_MAX` has the alpha byte `RAMP_OUTPUT_MAX`; a pixel that a
/// point sits on is of the first kind.
pub proof fn lemma_alpha_at_ramp_ends(points: Seq<Position>, frame: Frame, at: Position)
    requires
        points.len() > 0,
        frame.contains(at),
    ensures
        nearest(points, at) == 0 ==> painted(points, frame).pixel(index_of(at, frame.width))
            == seq![WHITE, WHITE, WHITE, 0u8],
        nearest(points, at) == RAMP_INPUT_MAX ==> painted(points, frame).pixel(
            index_of(at, frame.width),
        ) == seq![WHITE, WHITE, WHITE, 255u8],
        points.contains(at) ==> nearest(points, at) == 0,
{
    lemma_painted_pixel(points, frame, at);
    if points.contains(at) {
        let i = choose|i: int| 0 <= i < points.len() && points[i] == at;
        lemma_nearest_at_a_point(points, i);
    }
    if nearest(points, at) == 0 {
        assert(shade(points, at) =~= seq![WHITE, WHITE, WHITE, 0u8]);
    }
    if nearest(points, at) == RAMP_INPUT_MAX {
        assert(shade(points, at) =~= seq![WHITE, WHITE, WHITE, 255u8]);
    }
}

/// Painting twice from the same points leaves what painting once leaves.
pub proof fn lemma_painting_is_idempotent(points: Seq<Position>, frame: Frame)
    ensures
        painted(points, painted(points, frame)) == painted(points, frame),
{
    assert(painted(points, painted(points, frame)).bytes =~= painted(points, frame).bytes);
}

/// What a canvas held before it is painted leaves no trace: two frames of
/// one size are the same frame after painting from the same points.
pub proof fn lemma_painting_forgets(points: Seq<Position>, a: Frame, b: Frame)
    requires
        a.width == b.width,
        a.height == b.height,
    ensures
        painted(points, a) == painted(points, b),
{
    assert(painted(points, a).bytes =~= painted(points, b).bytes);
}

} // verus!
