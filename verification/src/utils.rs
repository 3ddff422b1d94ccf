//! Ray casting against wall segments.

use vstd::prelude::*;
use crate::arith::{lemma_product_bound, magnitude, UNIT};
use crate::float2::{Float2, Point};
use crate::line::{Line, Segment};

verus! {

/// The reading of a ray that meets no wall: twenty metres.
pub const NO_HIT: i64 = 20_000_000;

/// The cross product of the ray's direction with the wall's direction. It is
/// zero exactly when the two are parallel, or one of them has no length.
pub open spec fn ray_denominator(dir: Point, wall: Segment) -> int {
    dir.x * (wall.b.y - wall.a.y) - dir.y * (wall.b.x - wall.a.x)
}

/// Over [`ray_denominator`], how far along the ray its line meets the wall's
/// line, in lengths of `dir`.
pub open spec fn ray_numerator(origin: Point, wall: Segment) -> int {
    (wall.a.x - origin.x) * (wall.b.y - wall.a.y) - (wall.a.y - origin.y) * (wall.b.x
        - wall.a.x)
}

/// Over [`ray_denominator`], how far along the wall the two lines meet, as a
/// fraction of the wall: 0 at `a`, 1 at `b`.
pub open spec fn wall_numerator(origin: Point, dir: Point, wall: Segment) -> int {
    (wall.a.x - origin.x) * dir.y - (wall.a.y - origin.y) * dir.x
}

/// The ray from `origin` along `dir` meets the wall: the two are not parallel,
/// the meeting point is not behind the origin, and it lies between the wall's
/// ends (the ends included).
pub open spec fn ray_hits(origin: Point, dir: Point, wall: Segment) -> bool {
    let denom = ray_denominator(dir, wall);
    let t = ray_numerator(origin, wall);
    let s = wall_numerator(origin, dir, wall);
    ||| denom > 0 && t >= 0 && 0 <= s <= denom
    ||| denom < 0 && t <= 0 && denom <= s <= 0
}

/// The distance from `origin` to the wall along the unit vector `dir`, rounded
/// down to a whole micrometre; [`NO_HIT`] where the ray does not meet the wall.
pub open spec fn ray_distance(origin: Point, dir: Point, wall: Segment) -> int {
    if ray_hits(origin, dir, wall) {
        (UNIT * magnitude(ray_numerator(origin, wall))) / magnitude(ray_denominator(dir, wall))
    } else {
        NO_HIT as int
    }
}

/// A ray that runs parallel to a wall never hits it, wherever the two lie: its
/// reading is [`NO_HIT`]. So is that of a ray without direction, and that of
/// any ray against a wall whose two ends are one point.
pub proof fn lemma_parallel_ray_misses(origin: Point, dir: Point, wall: Segment)
    ensures
        ray_denominator(dir, wall) == 0 ==> !ray_hits(origin, dir, wall) && ray_distance(
            origin,
            dir,
            wall,
        ) == NO_HIT,
        dir.x == 0 && dir.y == 0 ==> ray_denominator(dir, wall) == 0,
        wall.a == wall.b ==> ray_denominator(dir, wall) == 0,
{
    assert(dir.x == 0 && dir.y == 0 ==> ray_denominator(dir, wall) == 0) by (nonlinear_arith)
        requires
            ray_denominator(dir, wall) == dir.x * (wall.b.y - wall.a.y) - dir.y * (wall.b.x
                - wall.a.x),
    ;
    assert(wall.a == wall.b ==> ray_denominator(dir, wall) == 0) by (nonlinear_arith)
        requires
            ray_denominator(dir, wall) == dir.x * (wall.b.y - wall.a.y) - dir.y * (wall.b.x
                - wall.a.x),
            wall.a == wall.b ==> wall.b.y - wall.a.y == 0 && wall.b.x - wall.a.x == 0,
    ;
}

/// The largest coordinate, either way, of an origin that [`cast_ray`] takes.
pub const ORIGIN_LIMIT: i64 = 0x100_0000_0000;

/// Where the wall's line crosses the ray's line, seen from the origin, is a
/// weighted mean of the wall's two ends: the weights are `denom - s` and `s`.
proof fn lemma_crossing_point(rx: int, ry: int, dx: int, dy: int, vx: int, vy: int)
    ensures
        (rx * dy - ry * dx) * vx == rx * ((vx * dy - vy * dx) - (rx * vy - ry * vx)) + (rx + dx)
            * (rx * vy - ry * vx),
        (rx * dy - ry * dx) * vy == ry * ((vx * dy - vy * dx) - (rx * vy - ry * vx)) + (ry + dy)
            * (rx * vy - ry * vx),
{
    let a = rx * dy;
    let b = ry * dx;
    let c = vx * dy;
    let d = vy * dx;
    let e = rx * vy;
    let f = ry * vx;
    assert((a - b) * vx == a * vx - b * vx) by (nonlinear_arith);
    assert((a - b) * vy == a * vy - b * vy) by (nonlinear_arith);
    assert(rx * ((c - d) - (e - f)) == rx * c - rx * d - rx * e + rx * f) by (nonlinear_arith);
    assert(ry * ((c - d) - (e - f)) == ry * c - ry * d - ry * e + ry * f) by (nonlinear_arith);
    assert((rx + dx) * (e - f) == rx * e - rx * f + dx * e - dx * f) by (nonlinear_arith);
    assert((ry + dy) * (e - f) == ry * e - ry * f + dy * e - dy * f) by (nonlinear_arith);
    assert((rx * dy) * vx == rx * (vx * dy)) by (nonlinear_arith);
    assert((ry * dx) * vx == dx * (ry * vx)) by (nonlinear_arith);
    assert(rx * (vy * dx) == dx * (rx * vy)) by (nonlinear_arith);
    assert((ry * dx) * vy == ry * (vy * dx)) by (nonlinear_arith);
    assert((rx * dy) * vy == dy * (rx * vy)) by (nonlinear_arith);
    assert(ry * (vx * dy) == dy * (ry * vx)) by (nonlinear_arith);
}

/// The ray's line and the wall's line meet in one point: `t / denom` lengths of
/// `dir` from the origin is the same place as the fraction `s / denom` of the
/// way from the wall's first end to its second. Both sides are given here
/// times `denom`.
pub proof fn lemma_lines_meet(origin: Point, dir: Point, wall: Segment)
    ensures
        origin.x * ray_denominator(dir, wall) + ray_numerator(origin, wall) * dir.x == wall.a.x
            * ray_denominator(dir, wall) + wall_numerator(origin, dir, wall) * (wall.b.x
            - wall.a.x),
        origin.y * ray_denominator(dir, wall) + ray_numerator(origin, wall) * dir.y == wall.a.y
            * ray_denominator(dir, wall) + wall_numerator(origin, dir, wall) * (wall.b.y
            - wall.a.y),
{
    let rx = wall.a.x - origin.x;
    let ry = wall.a.y - origin.y;
    let dx = wall.b.x - wall.a.x;
    let dy = wall.b.y - wall.a.y;
    let denom = ray_denominator(dir, wall);
    let s = wall_numerator(origin, dir, wall);
    lemma_crossing_point(rx, ry, dx, dy, dir.x, dir.y);
    assert(rx * (denom - s) + (rx + dx) * s == rx * denom + s * dx) by (nonlinear_arith);
    assert(ry * (denom - s) + (ry + dy) * s == ry * denom + s * dy) by (nonlinear_arith);
    assert((wall.a.x - origin.x) * denom == wall.a.x * denom - origin.x * denom)
        by (nonlinear_arith);
    assert((wall.a.y - origin.y) * denom == wall.a.y * denom - origin.y * denom)
        by (nonlinear_arith);
}

/// A weighted mean of two bounded numbers, with weights that are not negative,
/// is bounded by the bound times the sum of the weights.
proof fn lemma_mean_bound(p: int, q: int, w1: int, w2: int, w: int, m: int)
    by (nonlinear_arith)
    requires
        -m <= p <= m,
        -m <= q <= m,
        w1 >= 0,
        w2 >= 0,
        w == w1 + w2,
    ensures
        -(m * w) <= p * w1 + q * w2 <= m * w,
{
}

/// A number is at most, without sign, its product with a factor that is not zero.
proof fn lemma_factor_grows(t: int, v: int)
    by (nonlinear_arith)
    requires
        v != 0,
    ensures
        magnitude(t) <= magnitude(t * v),
{
}

/// Where a ray hits a wall whose ends lie within `m` of the origin, in each
/// coordinate, the hit is at most `m` lengths of the direction away.
pub proof fn lemma_hit_is_near(origin: Point, dir: Point, wall: Segment, m: int)
    requires
        ray_hits(origin, dir, wall),
        magnitude(wall.a.x - origin.x) <= m,
        magnitude(wall.a.y - origin.y) <= m,
        magnitude(wall.b.x - origin.x) <= m,
        magnitude(wall.b.y - origin.y) <= m,
    ensures
        magnitude(ray_numerator(origin, wall)) <= m * magnitude(ray_denominator(dir, wall)),
{
    let rx = wall.a.x - origin.x;
    let ry = wall.a.y - origin.y;
    let dx = wall.b.x - wall.a.x;
    let dy = wall.b.y - wall.a.y;
    let denom = ray_denominator(dir, wall);
    let t = ray_numerator(origin, wall);
    let s = wall_numerator(origin, dir, wall);
    lemma_crossing_point(rx, ry, dx, dy, dir.x, dir.y);
    assert(t * dir.x == rx * (denom - s) + (rx + dx) * s);
    assert(t * dir.y == ry * (denom - s) + (ry + dy) * s);
    if dir.x == 0 {
        assert(dir.y != 0) by (nonlinear_arith)
            requires
                dir.x == 0,
                dir.x * dy - dir.y * dx != 0,
        ;
    }
    if denom > 0 {
        lemma_mean_bound(rx, rx + dx, denom - s, s, denom, m);
        lemma_mean_bound(ry, ry + dy, denom - s, s, denom, m);
    } else {
        lemma_mean_bound(rx, rx + dx, s - denom, -s, -denom, m);
        lemma_mean_bound(ry, ry + dy, s - denom, -s, -denom, m);
        assert(rx * (s - denom) + (rx + dx) * (-s) == -(rx * (denom - s) + (rx + dx) * s))
            by (nonlinear_arith);
        assert(ry * (s - denom) + (ry + dy) * (-s) == -(ry * (denom - s) + (ry + dy) * s))
            by (nonlinear_arith);
    }
    assert(magnitude(t * dir.x) <= m * magnitude(denom));
    assert(magnitude(t * dir.y) <= m * magnitude(denom));
    if dir.x != 0 {
        lemma_factor_grows(t, dir.x);
    } else {
        lemma_factor_grows(t, dir.y);
    }
}

/// A distance is never negative.
pub proof fn lemma_ray_distance_not_negative(origin: Point, dir: Point, wall: Segment)
    ensures
        0 <= ray_distance(origin, dir, wall),
{
    if ray_hits(origin, dir, wall) {
        let n = UNIT * magnitude(ray_numerator(origin, wall));
        let d = magnitude(ray_denominator(dir, wall));
        assert(n / d >= 0) by (nonlinear_arith)
            requires
                n >= 0,
                d > 0,
        ;
    }
}

/// A quotient is at most `k` where the dividend is at most `k` divisors.
proof fn lemma_quotient_bound(n: int, d: int, k: int)
    by (nonlinear_arith)
    requires
        0 <= n <= k * d,
        d > 0,
    ensures
        0 <= n / d <= k,
{
}

/// The furthest that a wall is met from an origin within [`ORIGIN_LIMIT`],
/// in lengths of the ray's direction.
pub const MAX_DISTANCE: i64 = 2_199_023_255_552_000_000;

/// From an origin within [`ORIGIN_LIMIT`], no distance to a wall is negative
/// or more than [`MAX_DISTANCE`], whatever the direction of the ray.
pub proof fn lemma_distance_is_bounded(origin: Point, vector: Float2, line: Line)
    requires
        -ORIGIN_LIMIT <= origin.x <= ORIGIN_LIMIT,
        -ORIGIN_LIMIT <= origin.y <= ORIGIN_LIMIT,
    ensures
        0 <= ray_distance(origin, vector@, line@) <= MAX_DISTANCE,
{
    line.lemma_ends_fit();
    if ray_hits(origin, vector@, line@) {
        let t = magnitude(ray_numerator(origin, line@));
        let denom = magnitude(ray_denominator(vector@, line@));
        lemma_hit_is_near(origin, vector@, line@, 0x200_0000_0000);
        assert(0 <= UNIT * t <= (UNIT * 0x200_0000_0000) * denom) by (nonlinear_arith)
            requires
                0 <= t <= 0x200_0000_0000 * denom,
                UNIT == 1_000_000,
        ;
        lemma_quotient_bound(UNIT * t, denom, UNIT * 0x200_0000_0000);
    }
}

/// [`intersection_distance`] for an origin that need not be a [`Float2`]: each
/// of its coordinates lies within [`ORIGIN_LIMIT`] of zero.
pub fn cast_ray(origin_x: i64, origin_y: i64, vector: Float2, line: Line) -> (distance: i64)
    requires
        -ORIGIN_LIMIT <= origin_x <= ORIGIN_LIMIT,
        -ORIGIN_LIMIT <= origin_y <= ORIGIN_LIMIT,
    ensures
        distance == ray_distance(
            Point { x: origin_x as int, y: origin_y as int },
            vector@,
            line@,
        ),
        0 <= distance,
{
    let vector_x = vector.get_x() as i128;
    let vector_y = vector.get_y() as i128;
    let point1_x = line.get_a().get_x() as i128;
    let point1_y = line.get_a().get_y() as i128;
    let point2_x = line.get_b().get_x() as i128;
    let point2_y = line.get_b().get_y() as i128;

    // the wall's direction
    let dx = point2_x - point1_x;
    let dy = point2_y - point1_y;
    // the wall's first end, seen from the origin
    let rx = point1_x - origin_x as i128;
    let ry = point1_y - origin_y as i128;

    proof {
        let c: int = 0x1_0000_0000;
        let r: int = 0x200_0000_0000;
        lemma_product_bound(vector_x as int, dy as int, c, c);
        lemma_product_bound(vector_y as int, dx as int, c, c);
        lemma_product_bound(rx as int, dy as int, r, c);
        lemma_product_bound(ry as int, dx as int, r, c);
        lemma_product_bound(rx as int, vector_y as int, r, c);
        lemma_product_bound(ry as int, vector_x as int, r, c);
    }
    let denom = vector_x * dy - vector_y * dx;
    let t = rx * dy - ry * dx;
    let s = rx * vector_y - ry * vector_x;

    let ghost origin = Point { x: origin_x as int, y: origin_y as int };
    assert(denom == ray_denominator(vector@, line@));
    assert(t == ray_numerator(origin, line@));
    assert(s == wall_numerator(origin, vector@, line@));

    // no wall within twenty metres
    let mut distance = NO_HIT;
    if denom > 0 && t >= 0 && 0 <= s && s <= denom {
        proof {
            lemma_hit_is_near(origin, vector@, line@, 0x200_0000_0000);
            lemma_product_bound(UNIT as int, t as int, UNIT as int, 0x400_0000_0000_0000_0000_0000);
            assert(UNIT * t <= (UNIT * 0x200_0000_0000) * denom) by (nonlinear_arith)
                requires
                    0 <= t <= 0x200_0000_0000 * denom,
            ;
            lemma_quotient_bound(UNIT * t, denom as int, UNIT * 0x200_0000_0000);
        }
        distance = ((UNIT as i128 * t) / denom) as i64;
    } else if denom < 0 && t <= 0 && denom <= s && s <= 0 {
        proof {
            lemma_hit_is_near(origin, vector@, line@, 0x200_0000_0000);
            lemma_product_bound(UNIT as int, -t as int, UNIT as int, 0x400_0000_0000_0000_0000_0000);
            assert(UNIT * (-t) <= (UNIT * 0x200_0000_0000) * (-denom)) by (nonlinear_arith)
                requires
                    0 <= -t <= 0x200_0000_0000 * (-denom),
            ;
            lemma_quotient_bound(UNIT * (-t), -denom as int, UNIT * 0x200_0000_0000);
        }
        distance = ((UNIT as i128 * (-t)) / (-denom)) as i64;
    }
    distance
}

/// The distance from `origin` along the unit vector `vector` to the wall
/// `line`, in whole micrometres, or [`NO_HIT`] where the ray misses the wall,
/// starts beyond it, or runs parallel to it.
pub fn intersection_distance(origin: Float2, vector: Float2, line: Line) -> (distance: i64)
    ensures
        distance == ray_distance(origin@, vector@, line@),
        0 <= distance,
{
    cast_ray(origin.get_x() as i64, origin.get_y() as i64, vector, line)
}

} // verus!
