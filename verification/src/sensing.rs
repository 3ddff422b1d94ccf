//! What the robot's sensors read in a room of walls.

use vstd::prelude::*;
use crate::arith::{lemma_product_bound, magnitude};
use crate::float2::{Float2, Point};
use crate::line::{Line, Segment};
use crate::utils::{
    cast_ray, lemma_distance_is_bounded, lemma_ray_distance_not_negative, ray_distance,
    MAX_DISTANCE, NO_HIT, ORIGIN_LIMIT,
};

verus! {

/// The number of readings in one sweep of the rangefinder: one for each whole
/// degree.
pub const SAMPLES: usize = 360;

/// The reading of a ray that sees the nearest of `walls`: the least of the
/// distances to them, and no more than `range`.
pub open spec fn nearest_hit(origin: Point, dir: Point, walls: Seq<Line>, range: int) -> int
    decreases walls.len(),
{
    if walls.len() == 0 {
        range
    } else {
        let before = nearest_hit(origin, dir, walls.drop_last(), range);
        let distance = ray_distance(origin, dir, walls.last()@);
        if distance < before {
            distance
        } else {
            before
        }
    }
}

/// [`nearest_hit`] is the least of `range` and the distances to the walls: it
/// is no more than `range`, no more than the distance to any wall, and it is
/// `range` or the distance to one of the walls.
pub proof fn lemma_nearest_hit_is_least(origin: Point, dir: Point, walls: Seq<Line>, range: int)
    ensures
        nearest_hit(origin, dir, walls, range) <= range,
        forall|i: int|
            0 <= i < walls.len() ==> nearest_hit(origin, dir, walls, range) <= #[trigger] ray_distance(
                origin,
                dir,
                walls[i]@,
            ),
        nearest_hit(origin, dir, walls, range) == range || exists|i: int|
            0 <= i < walls.len() && nearest_hit(origin, dir, walls, range) == #[trigger] ray_distance(
                origin,
                dir,
                walls[i]@,
            ),
    decreases walls.len(),
{
    if walls.len() > 0 {
        let shorter = walls.drop_last();
        lemma_nearest_hit_is_least(origin, dir, shorter, range);
        let before = nearest_hit(origin, dir, shorter, range);
        let distance = ray_distance(origin, dir, walls.last()@);
        assert forall|i: int| 0 <= i < walls.len() implies nearest_hit(origin, dir, walls, range)
            <= #[trigger] ray_distance(origin, dir, walls[i]@) by {
            if i < shorter.len() {
                assert(shorter[i] == walls[i]);
            }
        }
        if distance < before {
            assert(walls[walls.len() - 1] == walls.last());
        } else if before != range {
            let k = choose|k: int|
                0 <= k < shorter.len() && before == #[trigger] ray_distance(origin, dir, shorter[k]@);
            assert(shorter[k] == walls[k]);
        }
    }
}

/// A reading is not negative where the range is not.
pub proof fn lemma_nearest_hit_not_negative(origin: Point, dir: Point, walls: Seq<Line>, range: int)
    requires
        0 <= range,
    ensures
        0 <= nearest_hit(origin, dir, walls, range),
    decreases walls.len(),
{
    if walls.len() > 0 {
        lemma_nearest_hit_not_negative(origin, dir, walls.drop_last(), range);
        lemma_ray_distance_not_negative(origin, dir, walls.last()@);
    }
}

/// The least of `range` and the distances from the origin to each wall of
/// `room` along `vector`.
pub fn nearest_wall(
    origin_x: i64,
    origin_y: i64,
    vector: Float2,
    room: &Vec<Line>,
    range: i64,
) -> (closest: i64)
    requires
        -ORIGIN_LIMIT <= origin_x <= ORIGIN_LIMIT,
        -ORIGIN_LIMIT <= origin_y <= ORIGIN_LIMIT,
    ensures
        closest == nearest_hit(
            Point { x: origin_x as int, y: origin_y as int },
            vector@,
            room@,
            range as int,
        ),
{
    let ghost origin = Point { x: origin_x as int, y: origin_y as int };
    let mut closest = range;
    let mut i: usize = 0;
    while i < room.len()
        invariant
            i <= room.len(),
            -ORIGIN_LIMIT <= origin_x <= ORIGIN_LIMIT,
            -ORIGIN_LIMIT <= origin_y <= ORIGIN_LIMIT,
            origin == (Point { x: origin_x as int, y: origin_y as int }),
            closest == nearest_hit(origin, vector@, room@.take(i as int), range as int),
        decreases room.len() - i,
    {
        let distance = cast_ray(origin_x, origin_y, vector, room[i]);
        proof {
            let seen = room@.take(i + 1);
            assert(seen.drop_last() =~= room@.take(i as int));
            assert(seen.last() == room@[i as int]);
        }
        if distance < closest {
            closest = distance;
        }
        i += 1;
    }
    assert(room@.take(room.len() as int) =~= room@);
    closest
}

/// The least of the distances from `origin` to each of `walls` along `dir`;
/// [`NO_HIT`] where there is no wall.
pub open spec fn least_distance(origin: Point, dir: Point, walls: Seq<Line>) -> int
    decreases walls.len(),
{
    if walls.len() == 0 {
        NO_HIT as int
    } else if walls.len() == 1 {
        ray_distance(origin, dir, walls.last()@)
    } else {
        let before = least_distance(origin, dir, walls.drop_last());
        let distance = ray_distance(origin, dir, walls.last()@);
        if distance < before {
            distance
        } else {
            before
        }
    }
}

/// In a room with walls, [`least_distance`] is the distance to one of them,
/// and no more than the distance to any.
pub proof fn lemma_least_distance_is_least(origin: Point, dir: Point, walls: Seq<Line>)
    requires
        walls.len() > 0,
    ensures
        forall|i: int|
            0 <= i < walls.len() ==> least_distance(origin, dir, walls) <= #[trigger] ray_distance(
                origin,
                dir,
                walls[i]@,
            ),
        exists|i: int|
            0 <= i < walls.len() && least_distance(origin, dir, walls) == #[trigger] ray_distance(
                origin,
                dir,
                walls[i]@,
            ),
    decreases walls.len(),
{
    let least = least_distance(origin, dir, walls);
    if walls.len() == 1 {
        assert(walls[0] == walls.last());
        assert(least == ray_distance(origin, dir, walls[0]@));
    } else {
        let shorter = walls.drop_last();
        lemma_least_distance_is_least(origin, dir, shorter);
        let before = least_distance(origin, dir, shorter);
        let distance = ray_distance(origin, dir, walls.last()@);
        assert forall|i: int| 0 <= i < walls.len() implies least <= #[trigger] ray_distance(
            origin,
            dir,
            walls[i]@,
        ) by {
            if i < shorter.len() {
                assert(shorter[i] == walls[i]);
            }
        }
        if distance < before {
            let last = walls.len() - 1;
            assert(walls[last] == walls.last());
            assert(least == ray_distance(origin, dir, walls[last]@));
        } else {
            let k = choose|k: int|
                0 <= k < shorter.len() && before == #[trigger] ray_distance(origin, dir, shorter[k]@);
            assert(shorter[k] == walls[k]);
            assert(least == ray_distance(origin, dir, walls[k]@));
        }
    }
}

/// From an origin within [`ORIGIN_LIMIT`], the least distance is not negative
/// and no more than [`MAX_DISTANCE`].
pub proof fn lemma_least_distance_is_bounded(origin: Point, vector: Float2, walls: Seq<Line>)
    requires
        -ORIGIN_LIMIT <= origin.x <= ORIGIN_LIMIT,
        -ORIGIN_LIMIT <= origin.y <= ORIGIN_LIMIT,
    ensures
        0 <= least_distance(origin, vector@, walls) <= MAX_DISTANCE,
    decreases walls.len(),
{
    if walls.len() > 0 {
        lemma_distance_is_bounded(origin, vector, walls.last());
        if walls.len() > 1 {
            lemma_least_distance_is_bounded(origin, vector, walls.drop_last());
        }
    }
}

/// The least of the distances from the origin to each wall of `room` along
/// `vector`; [`NO_HIT`] in a room without walls.
pub fn least_wall_distance(
    origin_x: i64,
    origin_y: i64,
    vector: Float2,
    room: &Vec<Line>,
) -> (closest: i64)
    requires
        -ORIGIN_LIMIT <= origin_x <= ORIGIN_LIMIT,
        -ORIGIN_LIMIT <= origin_y <= ORIGIN_LIMIT,
    ensures
        closest == least_distance(Point { x: origin_x as int, y: origin_y as int }, vector@, room@),
        0 <= closest,
{
    if room.len() == 0 {
        return NO_HIT;
    }
    let ghost origin = Point { x: origin_x as int, y: origin_y as int };
    let mut closest = cast_ray(origin_x, origin_y, vector, room[0]);
    let mut i: usize = 1;
    assert(room@.take(1).last() == room@[0]);
    while i < room.len()
        invariant
            1 <= i <= room.len(),
            -ORIGIN_LIMIT <= origin_x <= ORIGIN_LIMIT,
            -ORIGIN_LIMIT <= origin_y <= ORIGIN_LIMIT,
            origin == (Point { x: origin_x as int, y: origin_y as int }),
            closest == least_distance(origin, vector@, room@.take(i as int)),
            0 <= closest,
        decreases room.len() - i,
    {
        let distance = cast_ray(origin_x, origin_y, vector, room[i]);
        proof {
            let seen = room@.take(i + 1);
            assert(seen.drop_last() =~= room@.take(i as int));
            assert(seen.last() == room@[i as int]);
        }
        if distance < closest {
            closest = distance;
        }
        i += 1;
    }
    assert(room@.take(room.len() as int) =~= room@);
    closest
}

/// The readings of one sweep from `origin`, one for each ray: the least of
/// the distances to the walls along that ray.
pub open spec fn sweep(origin: Point, rays: Seq<Float2>, walls: Seq<Line>) -> Seq<i64> {
    Seq::new(rays.len(), |i: int| least_distance(origin, rays[i]@, walls) as i64)
}

/// Each reading of a sweep from a place that a [`Float2`] holds is the least
/// distance itself, and none is negative.
pub proof fn lemma_sweep_reads_least_distances(
    origin: Point,
    rays: Seq<Float2>,
    walls: Seq<Line>,
)
    requires
        -ORIGIN_LIMIT <= origin.x <= ORIGIN_LIMIT,
        -ORIGIN_LIMIT <= origin.y <= ORIGIN_LIMIT,
    ensures
        sweep(origin, rays, walls).len() == rays.len(),
        forall|i: int|
            0 <= i < rays.len() ==> #[trigger] sweep(origin, rays, walls)[i] == least_distance(
                origin,
                rays[i]@,
                walls,
            ) && 0 <= sweep(origin, rays, walls)[i],
{
    assert forall|i: int| 0 <= i < rays.len() implies #[trigger] sweep(origin, rays, walls)[i]
        == least_distance(origin, rays[i]@, walls) && 0 <= sweep(origin, rays, walls)[i] by {
        lemma_least_distance_is_bounded(origin, rays[i], walls);
    }
}

/// Writes one sweep from `origin` over the readings in `lidar`: every
/// reading is written anew.
pub fn sweep_into(lidar: &mut Vec<i64>, origin: Float2, rays: &Vec<Float2>, room: &Vec<Line>)
    requires
        old(lidar).len() == rays.len(),
    ensures
        final(lidar)@ == sweep(origin@, rays@, room@),
        forall|i: int|
            0 <= i < rays.len() ==> #[trigger] final(lidar)@[i] == least_distance(
                origin@,
                rays@[i]@,
                room@,
            ),
{
    let origin_x = origin.get_x() as i64;
    let origin_y = origin.get_y() as i64;
    let mut num: usize = 0;
    while num < rays.len()
        invariant
            num <= rays.len(),
            lidar.len() == rays.len(),
            origin_x == origin@.x,
            origin_y == origin@.y,
            -ORIGIN_LIMIT <= origin_x <= ORIGIN_LIMIT,
            -ORIGIN_LIMIT <= origin_y <= ORIGIN_LIMIT,
            forall|j: int|
                0 <= j < num ==> #[trigger] lidar@[j] == least_distance(origin@, rays@[j]@, room@),
        decreases rays.len() - num,
    {
        let closest = least_wall_distance(origin_x, origin_y, rays[num], room);
        lidar[num] = closest;
        num += 1;
    }
    proof {
        lemma_sweep_reads_least_distances(origin@, rays@, room@);
        assert(lidar@ =~= sweep(origin@, rays@, room@));
    }
}

/// `i` is the first place at which `readings` is least.
pub open spec fn first_minimum(readings: Seq<i64>, i: int) -> bool {
    &&& 0 <= i < readings.len()
    &&& forall|j: int| 0 <= j < readings.len() ==> readings[i] <= #[trigger] readings[j]
    &&& forall|j: int| 0 <= j < i ==> readings[i] < #[trigger] readings[j]
}

/// The first place at which `readings` is least; 0 where there are none.
pub open spec fn nearest_index(readings: Seq<i64>) -> int
    decreases readings.len(),
{
    if readings.len() <= 1 {
        0
    } else {
        let before = nearest_index(readings.drop_last());
        if readings.last() < readings[before] {
            readings.len() - 1
        } else {
            before
        }
    }
}

/// [`nearest_index`] is the first place at which the readings are least, and
/// no other place is.
pub proof fn lemma_nearest_index(readings: Seq<i64>)
    requires
        readings.len() > 0,
    ensures
        first_minimum(readings, nearest_index(readings)),
        forall|i: int| first_minimum(readings, i) ==> i == nearest_index(readings),
    decreases readings.len(),
{
    if readings.len() > 1 {
        let shorter = readings.drop_last();
        lemma_nearest_index(shorter);
        let before = nearest_index(shorter);
        assert(forall|j: int| 0 <= j < shorter.len() ==> shorter[j] == readings[j]);
        let k = nearest_index(readings);
        assert(first_minimum(readings, k)) by {
            assert forall|j: int| 0 <= j < readings.len() implies readings[k] <= #[trigger] readings[j] by {
                if j < shorter.len() {
                    assert(shorter[before] <= shorter[j]);
                }
            }
            assert forall|j: int| 0 <= j < k implies readings[k] < #[trigger] readings[j] by {
                if k == before {
                    assert(shorter[before] < shorter[j]);
                } else {
                    assert(shorter[before] <= shorter[j]);
                }
            }
        }
    }
    let k = nearest_index(readings);
    assert forall|i: int| first_minimum(readings, i) implies i == k by {
        if i < k {
            assert(readings[k] < readings[i]);
            assert(readings[i] <= readings[k]);
        } else if k < i {
            assert(readings[i] < readings[k]);
            assert(readings[k] <= readings[i]);
        }
    }
}

/// The place of the nearest reading: the first at which `lidar` is least.
pub fn nearest(lidar: &Vec<i64>) -> (index: usize)
    requires
        lidar.len() > 0,
    ensures
        index == nearest_index(lidar@),
        first_minimum(lidar@, index as int),
{
    let mut index: usize = 0;
    let mut num: usize = 1;
    assert(lidar@.take(1).len() == 1);
    while num < lidar.len()
        invariant
            1 <= num <= lidar.len(),
            index < num,
            index == nearest_index(lidar@.take(num as int)),
        decreases lidar.len() - num,
    {
        proof {
            let seen = lidar@.take(num + 1);
            assert(seen.drop_last() =~= lidar@.take(num as int));
            assert(seen.last() == lidar@[num as int]);
            assert(seen[index as int] == lidar@[index as int]);
        }
        if lidar[num] < lidar[index] {
            index = num;
        }
        num += 1;
    }
    proof {
        assert(lidar@.take(lidar.len() as int) =~= lidar@);
        lemma_nearest_index(lidar@);
    }
    index
}

/// Twice the area of the triangle of the wall and `center`: how far `center`
/// lies off the wall's line, times the wall's length.
pub open spec fn line_offset(center: Point, wall: Segment) -> int {
    (wall.b.y - wall.a.y) * (center.x - wall.a.x) - (wall.b.x - wall.a.x) * (center.y
        - wall.a.y)
}

/// The square of the wall's length.
pub open spec fn length_squared(wall: Segment) -> int {
    (wall.b.x - wall.a.x) * (wall.b.x - wall.a.x) + (wall.b.y - wall.a.y) * (wall.b.y
        - wall.a.y)
}

/// The circle about `center` meets the line through the wall. The wall counts
/// as the whole line through its two ends, not as the segment between them: a
/// robot beside the wall's extension touches it too. For a wall straight up
/// the page this asks that `center` is no more than `radius` to the side of
/// it; for any other wall, that the equation of the circle and the line has a
/// solution, which is that `center` lies no further off the line than the
/// length of `radius`.
pub open spec fn touches(center: Point, radius: int, wall: Segment) -> bool {
    if wall.a.x == wall.b.x {
        magnitude(center.x - wall.a.x) <= radius
    } else {
        line_offset(center, wall) * line_offset(center, wall) <= (radius * radius)
            * length_squared(wall)
    }
}

/// For a wall that is not straight up the page, the line through it is
/// `y = slope * x + intercept`, and the circle about `center` meets it where
/// `a * x * x + b * x + c == 0` has a solution, with `a = 1 + slope * slope`,
/// `b = 2 * slope * (intercept - center.y) - 2 * center.x` and
/// `c = center.x * center.x + (intercept - center.y) * (intercept - center.y)
/// - radius * radius`: where `b * b - 4 * a * c` is not negative. The slope
/// is a fraction over the wall's width. This is `b * b - 4 * a * c` times the
/// fourth power of that width, which is a whole number of the same sign.
pub open spec fn discriminant(center: Point, radius: int, wall: Segment) -> int {
    let dx = wall.b.x - wall.a.x;
    let dy = wall.b.y - wall.a.y;
    // the intercept less center.y, times dx
    let k = (wall.a.y - center.y) * dx - dy * wall.a.x;
    // a, b and c, each times dx * dx
    let a = dx * dx + dy * dy;
    let b = 2 * (dy * k) - 2 * (center.x * (dx * dx));
    let c = center.x * center.x * (dx * dx) + k * k - radius * radius * (dx * dx);
    b * b - 4 * (a * c)
}

/// The discriminant written out: four times `x`, times the gap between the
/// reach of the circle and the offset of its centre.
proof fn lemma_discriminant_identity(x: int, y: int, dy: int, k: int, p: int, r2: int)
    requires
        y == dy * dy,
    ensures
        (2 * (dy * k) - 2 * (p * x)) * (2 * (dy * k) - 2 * (p * x)) - 4 * ((x + y) * (p * p * x + k
            * k - r2 * x)) == 4 * (x * (r2 * (x + y) - (dy * p + k) * (dy * p + k))),
{
    let u = dy * k;
    let v = p * x;
    let pp = p * p;
    let kk = k * k;
    assert((2 * u - 2 * v) * (2 * u - 2 * v) == 4 * (u * u) - 8 * (u * v) + 4 * (v * v))
        by (nonlinear_arith);
    assert(u * u == y * kk) by (nonlinear_arith)
        requires
            u == dy * k,
            y == dy * dy,
            kk == k * k,
    ;
    assert(v * v == x * (pp * x)) by (nonlinear_arith)
        requires
            v == p * x,
            pp == p * p,
    ;
    assert(u * v == x * (dy * k * p)) by (nonlinear_arith)
        requires
            u == dy * k,
            v == p * x,
    ;
    let c = pp * x + kk - r2 * x;
    assert((x + y) * c == x * (pp * x) + x * kk - x * (r2 * x) + y * (pp * x) + y * kk - y * (r2
        * x)) by (nonlinear_arith)
        requires
            c == pp * x + kk - r2 * x,
    ;
    let o = dy * p + k;
    assert(o * o == y * pp + 2 * (dy * k * p) + kk) by (nonlinear_arith)
        requires
            o == dy * p + k,
            y == dy * dy,
            pp == p * p,
            kk == k * k,
    ;
    assert(x * (r2 * (x + y) - o * o) == x * (r2 * x) + y * (r2 * x) - x * (o * o))
        by (nonlinear_arith);
    assert(x * (o * o) == y * (pp * x) + 2 * (x * (dy * k * p)) + x * kk) by (nonlinear_arith)
        requires
            o * o == y * pp + 2 * (dy * k * p) + kk,
    ;
}

/// For a wall that is not straight up the page, the circle touches the wall's
/// line exactly where the discriminant of the circle and the line is not
/// negative.
pub proof fn lemma_touch_is_discriminant(center: Point, radius: int, wall: Segment)
    requires
        wall.a.x != wall.b.x,
    ensures
        touches(center, radius, wall) <==> discriminant(center, radius, wall) >= 0,
{
    let dx = wall.b.x - wall.a.x;
    let dy = wall.b.y - wall.a.y;
    let k = (wall.a.y - center.y) * dx - dy * wall.a.x;
    let x = dx * dx;
    let y = dy * dy;
    let r2 = radius * radius;
    lemma_discriminant_identity(x, y, dy, k, center.x, r2);
    let offset = line_offset(center, wall);
    assert(offset == dy * center.x + k) by (nonlinear_arith)
        requires
            offset == dy * (center.x - wall.a.x) - dx * (center.y - wall.a.y),
            k == (wall.a.y - center.y) * dx - dy * wall.a.x,
    ;
    let gap = r2 * (x + y) - offset * offset;
    assert(x > 0) by (nonlinear_arith)
        requires
            x == dx * dx,
            dx != 0,
    ;
    assert(gap >= 0 <==> 4 * (x * gap) >= 0) by (nonlinear_arith)
        requires
            x > 0,
    ;
}

/// The circle about `center` meets the line of one of the walls.
pub open spec fn collides(center: Point, radius: int, walls: Seq<Line>) -> bool {
    exists|i: int| 0 <= i < walls.len() && touches(center, radius, #[trigger] walls[i]@)
}

/// The square of a number without sign.
proof fn lemma_square_of_magnitude(a: int)
    by (nonlinear_arith)
    ensures
        magnitude(a) * magnitude(a) == a * a,
        a * a >= 0,
{
}

/// A square is at least the square of any smaller number that is not negative.
proof fn lemma_square_grows(a: int, b: int)
    by (nonlinear_arith)
    requires
        0 <= a <= b,
    ensures
        a * a <= b * b,
{
}

/// Whether the circle of `radius` about `center` meets the line through `wall`.
pub fn touches_wall(center: Float2, radius: i32, wall: Line) -> (touching: bool)
    ensures
        touching == touches(center@, radius as int, wall@),
{
    let pos_x = center.get_x() as i128;
    let pos_y = center.get_y() as i128;
    let x1 = wall.get_a().get_x() as i128;
    let x2 = wall.get_b().get_x() as i128;
    let y1 = wall.get_a().get_y() as i128;
    let y2 = wall.get_b().get_y() as i128;

    // a wall straight up the page has no slope
    if x1 == x2 {
        let distance = if pos_x >= x1 {
            pos_x - x1
        } else {
            x1 - pos_x
        };
        return distance <= radius as i128;
    }
    let dx = x2 - x1;
    let dy = y2 - y1;
    let c: Ghost<int> = Ghost(0x1_0000_0000);
    proof {
        lemma_product_bound(dy as int, (pos_x - x1) as int, c@, c@);
        lemma_product_bound(dx as int, (pos_y - y1) as int, c@, c@);
        lemma_product_bound(dx as int, dx as int, c@, c@);
        lemma_product_bound(dy as int, dy as int, c@, c@);
        lemma_product_bound(radius as int, radius as int, 0x8000_0000, 0x8000_0000);
        lemma_square_of_magnitude(dx as int);
        lemma_square_of_magnitude(dy as int);
        lemma_square_of_magnitude(radius as int);
    }
    let offset = dy * (pos_x - x1) - dx * (pos_y - y1);
    let length2 = dx * dx + dy * dy;
    let radius2 = radius as i128 * radius as i128;
    proof {
        lemma_product_bound(radius2 as int, length2 as int, 0x4000_0000_0000_0000, 0x2_0000_0000_0000_0000);
        assert(radius2 * length2 >= 0) by (nonlinear_arith)
            requires
                radius2 >= 0,
                length2 >= 0,
        ;
        assert(offset == line_offset(center@, wall@));
        assert(length2 == length_squared(wall@));
        lemma_square_of_magnitude(offset as int);
    }
    let reach = radius2 as u128 * length2 as u128;
    let off = if offset >= 0 {
        offset as u128
    } else {
        (-offset) as u128
    };
    if off >= 0x1_0000_0000_0000_0000 {
        proof {
            lemma_square_grows(0x1_0000_0000_0000_0000, off as int);
        }
        return false;
    }
    proof {
        lemma_product_bound(off as int, off as int, 0xffff_ffff_ffff_ffff, 0xffff_ffff_ffff_ffff);
    }
    off * off <= reach
}

/// Whether the circle of `radius` about `center` meets the line through any
/// wall of `room`.
pub fn touches_any(center: Float2, radius: i32, room: &Vec<Line>) -> (touching: bool)
    ensures
        touching == collides(center@, radius as int, room@),
{
    let mut i: usize = 0;
    while i < room.len()
        invariant
            i <= room.len(),
            forall|j: int| 0 <= j < i ==> !touches(center@, radius as int, #[trigger] room@[j]@),
        decreases room.len() - i,
    {
        if touches_wall(center, radius, room[i]) {
            return true;
        }
        i += 1;
    }
    false
}

} // verus!
