//! The robot: its state, its sensors, its motion, and the controller that
//! brings it to the nearest wall and along it.

use vstd::prelude::*;
use crate::arith::{
    lemma_product_bound, lemma_quotient_order, lemma_square_between, lemma_trunc_div_below,
    lemma_trunc_div_bounds, lemma_trunc_div_magnitude, lemma_trunc_div_within, magnitude,
    trunc_div, UNIT,
};
use crate::float2::{is_unit_length, norm_squared, Float2, Point};
use crate::line::Line;
use crate::sensing::{
    collides, least_distance, lemma_nearest_hit_is_least, lemma_nearest_hit_not_negative,
    lemma_sweep_reads_least_distances, nearest, nearest_hit, nearest_index, nearest_wall, sweep,
    sweep_into, touches_any, SAMPLES,
};
use crate::utils::{NO_HIT, ORIGIN_LIMIT};

verus! {

/// The robot's radius: 175 mm.
pub const RADIUS: i32 = 175_000;

/// The robot's speed along its heading: 400 mm in a second.
pub const SPEED: i32 = 400_000;

/// The fastest the robot turns: 60 degrees in a second.
pub const ROTATION_SPEED: i64 = 60_000_000;

/// The time between two ticks of the controller: 10 ms.
pub const INTERVAL: u64 = 10_000;

/// The furthest the wall sensor sees: 50 mm.
pub const WALL_SENSOR_RANGE: i64 = 50_000;

/// How far inside the robot's rim the wall sensor sits: 10 mm.
pub const WALL_SENSOR_INSET: i64 = 10_000;

/// The ray of the sweep that points to the side on which the wall sensor sits.
pub const WALL_SENSOR_SIDE: usize = 270;

/// The ray of the sweep along which the wall sensor looks: 20 degrees ahead of
/// its side.
pub const WALL_SENSOR_RAY: usize = 290;

/// The gap to the rim at which the robot stops its approach: 10 mm.
pub const CLEARANCE: i64 = 10_000;

/// The place in the sweep of the nearest wall once the robot stands along it.
pub const ALIGNED: usize = 270;

/// The last place in the sweep that counts as lying to the left.
pub const LEFT_HALF: usize = 180;

/// The reading of the wall sensor that the robot holds while it follows a
/// wall: 21.5 mm.
pub const TARGET: i64 = 21_500;

/// Degrees in a second asked for each metre of error: half a degree for each
/// millimetre.
pub const GAIN_P: i64 = 500;

/// Degrees in a second asked for each metre of summed error: a thousandth of
/// a degree for each millimetre.
pub const GAIN_I: i64 = 1;

/// Degrees in a second asked for each metre by which the error grew since the
/// last tick: 20 degrees for each millimetre.
pub const GAIN_D: i64 = 20_000;

/// The largest target, either way: with it an error, its growth since the last
/// tick, and their products with any gain are numbers that the robot can hold.
pub const MAX_TARGET: i64 = 0x1000_0000_0000_0000;

/// The largest radius of a robot: 500 m.
pub const MAX_RADIUS: i32 = 500_000_000;

/// The largest limit on the rate of turning.
pub const MAX_ROTATION_SPEED: i64 = 0x100_0000_0000;

/// The largest sum of errors that the controller keeps.
pub const INTEGRAL_LIMIT: i64 = 0x4000_0000_0000_0000;

/// Which way the robot is to move along its heading.
#[derive(Debug, Clone, Copy, PartialEq, Eq, Structural)]
pub enum Direction {
    Forward,
    Backward,
    Idle,
}

/// Which way the robot is to turn. Left is the way in which headings grow.
#[derive(Debug, Clone, Copy, PartialEq, Eq, Structural)]
pub enum Rotation {
    Left,
    Right,
    Idle,
}

/// What the controller is doing.
#[derive(Debug, Clone, Copy, PartialEq, Eq, Structural)]
pub enum Phase {
    /// Turning until the nearest wall is straight ahead.
    Seek,
    /// Driving up to that wall.
    Approach,
    /// Turning until the wall is at the robot's side.
    Align,
    /// Driving along the wall.
    Follow,
    /// At rest after touching a wall while following one.
    Stopped,
}

/// The thresholds and gains of the controller.
#[derive(Debug, Clone, Copy, PartialEq, Eq, Structural)]
pub struct Settings {
    /// The gap to the rim at which the robot stops its approach.
    pub clearance: i64,
    /// The place in the sweep of the nearest wall once the robot stands
    /// along it.
    pub aligned: usize,
    /// The reading of the wall sensor that the robot holds while it follows
    /// a wall.
    pub target: i64,
    /// Degrees in a second asked for each metre of error.
    pub gain_p: i64,
    /// Degrees in a second asked for each metre of summed error.
    pub gain_i: i64,
    /// Degrees in a second asked for each metre by which the error grew
    /// since the last tick.
    pub gain_d: i64,
}

/// What is true of the robot at one instant.
#[derive(Debug, Clone)]
pub struct RobotState {
    /// The heading in millionths of a degree, never wrapped: 0 looks along x,
    /// and headings grow toward y.
    pub direction: i64,
    /// The last sweep: the distance to the nearest wall at each whole degree
    /// from the heading on, the first straight ahead.
    pub lidar: Vec<i64>,
    /// The centre.
    pub position: Float2,
    /// The radius.
    pub radius: i32,
}

/// The robot with its controller.
#[derive(Debug)]
pub struct Robot {
    state: RobotState,
    speed: i32,
    rotation_speed: i64,
    sensor_collision: bool,
    sensor_wall: i64,
    interval: u64,
    phase: Phase,
    last_error: i64,
    integral: i64,
    settings: Settings,
}

/// What a [`Robot`] stands for in contracts.
pub struct RobotModel {
    pub heading: int,
    pub lidar: Seq<i64>,
    pub position: Point,
    pub radius: int,
    pub speed: int,
    pub rotation_speed: int,
    pub collision: bool,
    pub wall: int,
    pub interval: int,
    pub phase: Phase,
    pub last_error: int,
    pub integral: int,
    pub settings: Settings,
}

/// `value`, or the nearer of the two limits where it lies outside them.
pub open spec fn clamp(value: int, low: int, high: int) -> int {
    if value < low {
        low
    } else if value > high {
        high
    } else {
        value
    }
}

/// The change of heading that `rate` asks for over `elapsed` microseconds: the
/// rate is first held to `limit` either way.
pub open spec fn turn_angle(rate: int, limit: int, elapsed: int) -> int {
    trunc_div(clamp(rate, -limit, limit) * elapsed, UNIT as int)
}

/// The largest change of heading, either way, in `elapsed` microseconds.
pub open spec fn max_turn(limit: int, elapsed: int) -> int {
    (limit * elapsed) / (UNIT as int)
}

/// How far a robot of `speed` gets along the unit vector `heading` in
/// `elapsed` microseconds.
pub open spec fn stride(heading: Point, speed: int, elapsed: int) -> Point {
    Point {
        x: trunc_div(heading.x * speed * elapsed, UNIT * UNIT),
        y: trunc_div(heading.y * speed * elapsed, UNIT * UNIT),
    }
}

/// Where the wall sensor sits: `WALL_SENSOR_INSET` inside the rim, on the side
/// to which the unit vector `side` points.
pub open spec fn wall_sensor_origin(position: Point, radius: int, side: Point) -> Point {
    Point {
        x: position.x + trunc_div(side.x * (radius - WALL_SENSOR_INSET), UNIT as int),
        y: position.y + trunc_div(side.y * (radius - WALL_SENSOR_INSET), UNIT as int),
    }
}

/// `step` is as long as `way`: no longer by more than a hundred-thousandth of
/// the way, and a step one micrometre longer in each coordinate would be
/// longer than the way less a hundred-thousandth of it. The lengths are
/// compared by their squares, times the fourth power of a million.
pub open spec fn as_long_as(step: Point, way: int) -> bool {
    let one = UNIT * UNIT;
    let beyond = Point { x: magnitude(step.x) + 1, y: magnitude(step.y) + 1 };
    &&& norm_squared(step) * (one * one) <= ((UNIT + 10) * (UNIT + 10)) * (way * way)
    &&& norm_squared(beyond) * (one * one) > ((UNIT - 10) * (UNIT - 10)) * (way * way)
}

/// The phase that follows `phase`; a robot at rest stays at rest.
pub open spec fn next_phase(phase: Phase) -> Phase {
    match phase {
        Phase::Seek => Phase::Approach,
        Phase::Approach => Phase::Align,
        Phase::Align => Phase::Follow,
        Phase::Follow => Phase::Stopped,
        Phase::Stopped => Phase::Stopped,
    }
}

/// What the controller asks of the motors in a tick that began in `before` and
/// ended in `after`: forward while it approaches or follows, nothing while it
/// turns on the spot and in the tick that ends a phase.
pub open spec fn intent(before: Phase, after: Phase) -> Direction {
    if before == after && (before == Phase::Approach || before == Phase::Follow) {
        Direction::Forward
    } else {
        Direction::Idle
    }
}

/// A robot at rest at (`x`, `y`): it looks along x, has swept nothing yet, and
/// is about to seek the nearest wall. Its settings are the standard ones.
pub open spec fn initial(x: int, y: int) -> RobotModel {
    RobotModel {
        heading: 0,
        lidar: Seq::new(SAMPLES as nat, |i: int| 0i64),
        position: Point { x, y },
        radius: RADIUS as int,
        speed: SPEED as int,
        rotation_speed: ROTATION_SPEED as int,
        collision: false,
        wall: 0,
        interval: INTERVAL as int,
        phase: Phase::Seek,
        last_error: 0,
        integral: 0,
        settings: standard_settings(),
    }
}

/// The settings of a robot that stops its approach 10 mm from the wall and
/// follows it with the wall at its side, the sensor reading 21.5 mm.
pub open spec fn standard_settings() -> Settings {
    Settings {
        clearance: CLEARANCE,
        aligned: ALIGNED,
        target: TARGET,
        gain_p: GAIN_P,
        gain_i: GAIN_I,
        gain_d: GAIN_D,
    }
}

impl Settings {
    /// The target is within its limit. Every clearance, place of alignment
    /// and gain can be set.
    pub open spec fn wf(self) -> bool {
        -MAX_TARGET <= self.target <= MAX_TARGET
    }

    /// Whether a robot can be made with these settings.
    pub fn is_valid(&self) -> (valid: bool)
        ensures
            valid == self.wf(),
    {
        -MAX_TARGET <= self.target && self.target <= MAX_TARGET
    }
}

impl Default for Settings {
    fn default() -> (settings: Self)
        ensures
            settings == standard_settings(),
            settings.wf(),
    {
        Settings {
            clearance: CLEARANCE,
            aligned: ALIGNED,
            target: TARGET,
            gain_p: GAIN_P,
            gain_i: GAIN_I,
            gain_d: GAIN_D,
        }
    }
}

impl RobotModel {
    /// The sweep is complete and every number is within its limits.
    pub open spec fn wf(self) -> bool {
        &&& self.settings.wf()
        &&& self.lidar.len() == SAMPLES
        &&& 0 <= self.radius <= MAX_RADIUS
        &&& 0 <= self.rotation_speed <= MAX_ROTATION_SPEED
        &&& 0 <= self.wall <= WALL_SENSOR_RANGE
        &&& magnitude(self.last_error) <= WALL_SENSOR_RANGE + magnitude(self.settings.target as int)
        &&& magnitude(self.integral) <= INTEGRAL_LIMIT
    }

    /// Whatever turn is asked for over `elapsed` microseconds, the heading
    /// stays a number that the robot can hold.
    pub open spec fn can_turn(self, elapsed: int) -> bool {
        &&& i64::MIN <= self.heading - max_turn(self.rotation_speed, elapsed)
        &&& self.heading + max_turn(self.rotation_speed, elapsed) <= i64::MAX
    }

    /// The sum of errors stays a number that the robot can hold after one
    /// more error, whatever the wall sensor reads.
    pub open spec fn can_sum(self) -> bool {
        magnitude(self.integral) + WALL_SENSOR_RANGE + magnitude(self.settings.target as int)
            <= INTEGRAL_LIMIT
    }

    /// The robot can hold what a tick of `elapsed` microseconds leaves: the
    /// heading after any turn, and the sum of errors after one more error.
    pub open spec fn can_tick(self, elapsed: int) -> bool {
        &&& self.can_turn(elapsed)
        &&& self.can_sum()
    }

    /// The robot after turning at `rotation` millionths of a degree in a
    /// second, held to its limit, for `elapsed` microseconds.
    pub open spec fn rotate(self, rotation: int, elapsed: int) -> RobotModel {
        RobotModel {
            heading: self.heading + turn_angle(rotation, self.rotation_speed, elapsed),
            ..self
        }
    }

    /// The robot after turning the given way at its limit.
    pub open spec fn turn(self, rotation: Rotation, elapsed: int) -> RobotModel {
        match rotation {
            Rotation::Left => self.rotate(self.rotation_speed, elapsed),
            Rotation::Right => self.rotate(-self.rotation_speed, elapsed),
            Rotation::Idle => self,
        }
    }

    /// Where the robot is after moving for `elapsed` microseconds along the
    /// unit vector `heading`, or against it.
    pub open spec fn destination(self, direction: Direction, elapsed: int, heading: Point) -> Point {
        let step = stride(heading, self.speed, elapsed);
        match direction {
            Direction::Forward => Point {
                x: self.position.x + step.x,
                y: self.position.y + step.y,
            },
            Direction::Backward => Point {
                x: self.position.x - step.x,
                y: self.position.y - step.y,
            },
            Direction::Idle => self.position,
        }
    }

    /// The place to which the move leads has coordinates that a [`Float2`]
    /// holds.
    pub open spec fn can_move(self, direction: Direction, elapsed: int, heading: Point) -> bool {
        let to = self.destination(direction, elapsed, heading);
        &&& i32::MIN <= to.x <= i32::MAX
        &&& i32::MIN <= to.y <= i32::MAX
    }

    /// The robot after that move.
    pub open spec fn moving(self, direction: Direction, elapsed: int, heading: Point) -> RobotModel {
        RobotModel { position: self.destination(direction, elapsed, heading), ..self }
    }

    /// The robot after a sweep of the room along `rays`.
    pub open spec fn scan_lidar(self, room: Seq<Line>, rays: Seq<Float2>) -> RobotModel {
        RobotModel { lidar: sweep(self.position, rays, room), ..self }
    }

    /// The robot after testing whether it touches a wall.
    pub open spec fn check_collision(self, room: Seq<Line>) -> RobotModel {
        RobotModel { collision: collides(self.position, self.radius, room), ..self }
    }

    /// The robot after reading its wall sensor. `rays` are those of the sweep.
    pub open spec fn check_wall(self, room: Seq<Line>, rays: Seq<Float2>) -> RobotModel {
        RobotModel {
            wall: nearest_hit(
                wall_sensor_origin(self.position, self.radius, rays[WALL_SENSOR_SIDE as int]@),
                rays[WALL_SENSOR_RAY as int]@,
                room,
                WALL_SENSOR_RANGE as int,
            ),
            ..self
        }
    }

    /// The least reading of the sweep.
    pub open spec fn nearest_reading(self) -> int {
        self.lidar[nearest_index(self.lidar)] as int
    }

    /// One tick of seeking, after the sweep: done where the nearest wall is
    /// straight ahead, else a turn toward it.
    pub open spec fn seek(self, elapsed: int) -> RobotModel {
        let index = nearest_index(self.lidar);
        if index == 0 {
            RobotModel { phase: Phase::Approach, ..self }
        } else if index <= LEFT_HALF {
            self.turn(Rotation::Left, elapsed)
        } else {
            self.turn(Rotation::Right, elapsed)
        }
    }

    /// One tick of the approach, after the sweep and the test for a
    /// collision: done where the robot touches a wall or the nearest one is
    /// within the clearance of its rim.
    pub open spec fn approach(self) -> RobotModel {
        if self.collision || self.nearest_reading() <= self.radius + self.settings.clearance {
            RobotModel { phase: Phase::Align, ..self }
        } else {
            self
        }
    }

    /// One tick of aligning, after the sweep: done where the nearest wall is
    /// at the robot's side, else a turn to the left.
    pub open spec fn align(self, elapsed: int) -> RobotModel {
        if nearest_index(self.lidar) == self.settings.aligned {
            RobotModel { phase: Phase::Follow, ..self }
        } else {
            self.turn(Rotation::Left, elapsed)
        }
    }

    /// The turn that holds the wall sensor's reading at the target: in
    /// proportion to the error, to the sum of all errors with this one, and
    /// to its growth since the last tick.
    pub open spec fn correction(self) -> int {
        let error = self.wall - self.settings.target;
        self.settings.gain_p * error + self.settings.gain_i * (self.integral + error)
            + self.settings.gain_d * (error - self.last_error)
    }

    /// One tick of following, after the sweep, the test for a collision and
    /// the reading of the wall sensor: at rest where the robot touches a
    /// wall, else a turn against the correction.
    pub open spec fn follow(self, elapsed: int) -> RobotModel {
        if self.collision {
            RobotModel { phase: Phase::Stopped, ..self }
        } else {
            let error = self.wall - self.settings.target;
            RobotModel {
                last_error: error,
                integral: self.integral + error,
                ..self
            }.rotate(-self.correction(), elapsed)
        }
    }

    /// The robot after one tick of the controller.
    pub open spec fn tick(self, room: Seq<Line>, rays: Seq<Float2>, elapsed: int) -> RobotModel {
        match self.phase {
            Phase::Seek => self.scan_lidar(room, rays).seek(elapsed),
            Phase::Approach => self.scan_lidar(room, rays).check_collision(room).approach(),
            Phase::Align => self.scan_lidar(room, rays).align(elapsed),
            Phase::Follow => self.scan_lidar(room, rays).check_collision(room).check_wall(
                room,
                rays,
            ).follow(elapsed),
            Phase::Stopped => self,
        }
    }
}

/// However fast a turn is asked for, the heading changes by no more than the
/// robot's limit allows in the time that has passed.
pub proof fn lemma_turn_is_limited(rate: int, limit: int, elapsed: int)
    requires
        0 <= limit,
        0 <= elapsed,
    ensures
        -max_turn(limit, elapsed) <= turn_angle(rate, limit, elapsed) <= max_turn(limit, elapsed),
        rate >= 0 ==> turn_angle(rate, limit, elapsed) >= 0,
        rate <= 0 ==> turn_angle(rate, limit, elapsed) <= 0,
{
    let held = clamp(rate, -limit, limit);
    lemma_product_bound(held, elapsed, limit, elapsed);
    lemma_trunc_div_below(held * elapsed, limit * elapsed, UNIT as int);
    assert(rate >= 0 ==> held * elapsed >= 0) by (nonlinear_arith)
        requires
            rate >= 0 ==> held >= 0,
            elapsed >= 0,
    ;
    assert(rate <= 0 ==> held * elapsed <= 0) by (nonlinear_arith)
        requires
            rate <= 0 ==> held <= 0,
            elapsed >= 0,
    ;
    lemma_trunc_div_bounds(held * elapsed, UNIT as int);
}

/// A longer tick turns the robot no less, and no tick turns it by more than
/// the robot's limit allows in the time that has passed.
pub proof fn lemma_longer_tick_turns_no_less(rate: int, limit: int, shorter: int, longer: int)
    requires
        0 <= limit,
        0 <= shorter <= longer,
    ensures
        magnitude(turn_angle(rate, limit, shorter)) <= magnitude(turn_angle(rate, limit, longer)),
        magnitude(turn_angle(rate, limit, longer)) <= max_turn(limit, longer),
{
    let held = clamp(rate, -limit, limit);
    lemma_turn_is_limited(rate, limit, longer);
    assert(0 <= magnitude(held * shorter) <= magnitude(held * longer)) by (nonlinear_arith)
        requires
            0 <= shorter <= longer,
    ;
    lemma_trunc_div_magnitude(held * shorter, UNIT as int);
    lemma_trunc_div_magnitude(held * longer, UNIT as int);
    lemma_quotient_order(magnitude(held * shorter), magnitude(held * longer), UNIT as int);
}

/// Along a heading of length one, within a hundred-thousandth, the move is as
/// long as the way that the robot's speed covers in the time that has passed.
pub proof fn lemma_stride_has_the_length_of_the_way(heading: Point, speed: int, elapsed: int)
    requires
        is_unit_length(heading),
    ensures
        as_long_as(stride(heading, speed, elapsed), speed * elapsed),
        as_long_as(
            Point {
                x: -stride(heading, speed, elapsed).x,
                y: -stride(heading, speed, elapsed).y,
            },
            speed * elapsed,
        ),
{
    let way = speed * elapsed;
    let step = stride(heading, speed, elapsed);
    let one = UNIT * UNIT;
    let a = magnitude(step.x);
    let b = magnitude(step.y);
    let x = magnitude(heading.x * way);
    let y = magnitude(heading.y * way);
    assert(heading.x * speed * elapsed == heading.x * way && heading.y * speed * elapsed
        == heading.y * way) by (nonlinear_arith)
        requires
            way == speed * elapsed,
    ;
    assert(one > 0) by (nonlinear_arith)
        requires
            one == UNIT * UNIT,
            UNIT == 1_000_000,
    ;
    lemma_trunc_div_bounds(heading.x * way, one);
    lemma_trunc_div_bounds(heading.y * way, one);
    lemma_square_between(a, one, x);
    lemma_square_between(b, one, y);
    let n = norm_squared(heading);
    assert(x * x + y * y == n * (way * way)) by (nonlinear_arith)
        requires
            x == magnitude(heading.x * way),
            y == magnitude(heading.y * way),
            n == heading.x * heading.x + heading.y * heading.y,
    ;
    assert(a * a == step.x * step.x && b * b == step.y * step.y) by (nonlinear_arith)
        requires
            a == magnitude(step.x),
            b == magnitude(step.y),
    ;
    let least = (UNIT - 10) * (UNIT - 10);
    let most = (UNIT + 10) * (UNIT + 10);
    assert(least * (way * way) <= n * (way * way) <= most * (way * way)) by (nonlinear_arith)
        requires
            least <= n <= most,
    ;
    assert((a * a + b * b) * (one * one) == (a * a) * (one * one) + (b * b) * (one * one))
        by (nonlinear_arith);
    assert(((a + 1) * (a + 1) + (b + 1) * (b + 1)) * (one * one) == ((a + 1) * (a + 1)) * (one
        * one) + ((b + 1) * (b + 1)) * (one * one)) by (nonlinear_arith);
    assert((-step.x) * (-step.x) == step.x * step.x && (-step.y) * (-step.y) == step.y * step.y)
        by (nonlinear_arith);
}

/// Along a heading whose components are at most one, the robot gets no
/// further in either coordinate than its speed allows in the time that has
/// passed; and along x itself it gets exactly that far.
pub proof fn lemma_stride_is_limited(heading: Point, speed: int, elapsed: int)
    requires
        -UNIT <= heading.x <= UNIT,
        -UNIT <= heading.y <= UNIT,
        0 <= speed,
        0 <= elapsed,
    ensures
        magnitude(stride(heading, speed, elapsed).x) <= (speed * elapsed) / (UNIT as int),
        magnitude(stride(heading, speed, elapsed).y) <= (speed * elapsed) / (UNIT as int),
        heading == (Point { x: UNIT as int, y: 0 }) ==> stride(heading, speed, elapsed) == (Point {
            x: (speed * elapsed) / (UNIT as int),
            y: 0,
        }),
{
    let way = speed * elapsed;
    assert(way >= 0) by (nonlinear_arith)
        requires
            way == speed * elapsed,
            speed >= 0,
            elapsed >= 0,
    ;
    assert(heading.x * speed * elapsed == heading.x * way) by (nonlinear_arith)
        requires
            way == speed * elapsed,
    ;
    assert(heading.y * speed * elapsed == heading.y * way) by (nonlinear_arith)
        requires
            way == speed * elapsed,
    ;
    lemma_product_bound(heading.x, way, UNIT as int, way);
    lemma_product_bound(heading.y, way, UNIT as int, way);
    lemma_trunc_div_below(heading.x * way, UNIT * way, UNIT * UNIT);
    lemma_trunc_div_below(heading.y * way, UNIT * way, UNIT * UNIT);
    assert((UNIT * way) / (UNIT * UNIT) == way / (UNIT as int)) by (nonlinear_arith)
        requires
            UNIT == 1_000_000,
            way >= 0,
    ;
    assert(0 * way == 0) by (nonlinear_arith);
}

/// What one tick of the controller does and leaves alone, whatever the room
/// and the rays. It never moves the robot, nor changes its radius, its speed,
/// its limit of turning or its interval. It turns the robot by no more than
/// that limit allows. A robot at rest stays as it is. The phases follow one
/// another in one order and none is skipped: a tick leaves the phase as it
/// was, or goes on to the next.
pub proof fn lemma_tick_keeps_the_robot(
    robot: RobotModel,
    room: Seq<Line>,
    rays: Seq<Float2>,
    elapsed: int,
)
    requires
        robot.wf(),
        0 <= elapsed,
    ensures
        ({
            let after = robot.tick(room, rays, elapsed);
            &&& after.position == robot.position
            &&& after.radius == robot.radius
            &&& after.speed == robot.speed
            &&& after.rotation_speed == robot.rotation_speed
            &&& after.interval == robot.interval
            &&& magnitude(after.heading - robot.heading) <= max_turn(robot.rotation_speed, elapsed)
            &&& robot.phase == Phase::Stopped ==> after == robot
            &&& after.phase == robot.phase || after.phase == next_phase(robot.phase)
            &&& after.phase != robot.phase ==> after.heading == robot.heading
        }),
{
    let swept = robot.scan_lidar(room, rays);
    let sensed = swept.check_collision(room).check_wall(room, rays);
    lemma_turn_is_limited(robot.rotation_speed, robot.rotation_speed, elapsed);
    lemma_turn_is_limited(-robot.rotation_speed, robot.rotation_speed, elapsed);
    lemma_turn_is_limited(-sensed.correction(), robot.rotation_speed, elapsed);
}

/// Seeking ends in the tick in which the sweep finds the nearest wall
/// straight ahead, and in no other; until then every tick turns the robot
/// toward the side on which the nearest wall lies, as far as its limit allows.
pub proof fn lemma_seek_ends_facing_the_wall(
    robot: RobotModel,
    room: Seq<Line>,
    rays: Seq<Float2>,
    elapsed: int,
)
    requires
        robot.wf(),
        robot.phase == Phase::Seek,
        0 <= elapsed,
    ensures
        ({
            let after = robot.tick(room, rays, elapsed);
            let index = nearest_index(sweep(robot.position, rays, room));
            &&& after.phase == Phase::Approach <==> index == 0
            &&& index == 0 ==> after.heading == robot.heading
            &&& index != 0 ==> after.phase == Phase::Seek
            &&& after.position == robot.position
            &&& 0 < index <= LEFT_HALF ==> after.heading == robot.heading + max_turn(
                robot.rotation_speed,
                elapsed,
            )
            &&& index > LEFT_HALF ==> after.heading == robot.heading - max_turn(
                robot.rotation_speed,
                elapsed,
            )
        }),
{
    let limit = robot.rotation_speed;
    assert(limit * elapsed >= 0) by (nonlinear_arith)
        requires
            limit >= 0,
            elapsed >= 0,
    ;
    assert((-limit) * elapsed == -(limit * elapsed)) by (nonlinear_arith);
}

/// What one tick of a run is given: the rays of its sweep, and the time that
/// has passed since the tick before.
pub struct Tick {
    pub rays: Seq<Float2>,
    pub elapsed: int,
}

/// The robot after the ticks of `run`, one after the other, in one room,
/// where no tick asks for a move.
pub open spec fn after_run(robot: RobotModel, room: Seq<Line>, run: Seq<Tick>) -> RobotModel
    decreases run.len(),
{
    if run.len() == 0 {
        robot
    } else {
        after_run(robot, room, run.drop_last()).tick(room, run.last().rays, run.last().elapsed)
    }
}

/// The whole of the turns that a robot makes in the ticks of `run` where it
/// turns at its limit in each of them.
pub open spec fn whole_turn(limit: int, run: Seq<Tick>) -> int
    decreases run.len(),
{
    if run.len() == 0 {
        0
    } else {
        whole_turn(limit, run.drop_last()) + max_turn(limit, run.last().elapsed)
    }
}

/// Every tick of `run` has a full set of rays and a time that is not
/// negative, and its sweep from `position` finds the nearest wall to the
/// left of straight ahead, or every one finds it to the right.
pub open spec fn wall_stays_aside(
    position: Point,
    room: Seq<Line>,
    run: Seq<Tick>,
    left: bool,
) -> bool {
    forall|k: int|
        0 <= k < run.len() ==> {
            let index = nearest_index(sweep(position, (#[trigger] run[k]).rays, room));
            &&& run[k].rays.len() == SAMPLES
            &&& 0 <= run[k].elapsed
            &&& left ==> 0 < index <= LEFT_HALF
            &&& !left ==> index > LEFT_HALF
        }
}

/// While the sweeps of a seeking robot find the nearest wall to its left, the
/// robot stays where it is and goes on seeking, and its heading never falls:
/// each tick raises it by what the limit allows, and by no more. While they
/// find the wall to its right, the heading never rises likewise.
pub proof fn lemma_seek_turns_one_way(
    robot: RobotModel,
    room: Seq<Line>,
    run: Seq<Tick>,
    left: bool,
)
    requires
        robot.wf(),
        robot.phase == Phase::Seek,
        wall_stays_aside(robot.position, room, run, left),
    ensures
        ({
            let after = after_run(robot, room, run);
            let turn = whole_turn(robot.rotation_speed, run);
            &&& after.wf()
            &&& after.phase == Phase::Seek
            &&& after.position == robot.position
            &&& after.rotation_speed == robot.rotation_speed
            &&& 0 <= turn
            &&& left ==> after.heading == robot.heading + turn
            &&& !left ==> after.heading == robot.heading - turn
            &&& run.len() > 0 && left ==> after_run(robot, room, run.drop_last()).heading
                <= after.heading
            &&& run.len() > 0 && !left ==> after_run(robot, room, run.drop_last()).heading
                >= after.heading
        }),
    decreases run.len(),
{
    if run.len() > 0 {
        let shorter = run.drop_last();
        let last = run.last();
        assert(forall|k: int| 0 <= k < shorter.len() ==> shorter[k] == run[k]);
        assert(run[run.len() - 1] == last);
        lemma_seek_turns_one_way(robot, room, shorter, left);
        let before = after_run(robot, room, shorter);
        let limit = robot.rotation_speed;
        assert(limit * last.elapsed >= 0) by (nonlinear_arith)
            requires
                limit >= 0,
                last.elapsed >= 0,
        ;
        lemma_seek_ends_facing_the_wall(before, room, last.rays, last.elapsed);
        lemma_tick_keeps_the_robot(before, room, last.rays, last.elapsed);
    }
}

/// A tick of the controller leaves a robot whose numbers are within their
/// limits, given one, a full set of rays, and room for the sum of errors to
/// grow.
pub proof fn lemma_tick_keeps_limits(
    robot: RobotModel,
    room: Seq<Line>,
    rays: Seq<Float2>,
    elapsed: int,
)
    requires
        robot.wf(),
        rays.len() == SAMPLES,
        robot.can_sum(),
    ensures
        robot.tick(room, rays, elapsed).wf(),
{
    let origin = wall_sensor_origin(robot.position, robot.radius, rays[WALL_SENSOR_SIDE as int]@);
    lemma_nearest_hit_is_least(
        origin,
        rays[WALL_SENSOR_RAY as int]@,
        room,
        WALL_SENSOR_RANGE as int,
    );
    lemma_nearest_hit_not_negative(
        origin,
        rays[WALL_SENSOR_RAY as int]@,
        room,
        WALL_SENSOR_RANGE as int,
    );
}

/// Every tick of a robot that is not at rest writes the whole sweep anew:
/// each reading is the least of the distances to the walls along its ray,
/// and the reading of no wall in a room without walls.
pub proof fn lemma_tick_sweeps_the_room(
    robot: RobotModel,
    room: Seq<Line>,
    rays: Seq<Float2>,
    elapsed: int,
)
    requires
        robot.phase != Phase::Stopped,
        -ORIGIN_LIMIT <= robot.position.x <= ORIGIN_LIMIT,
        -ORIGIN_LIMIT <= robot.position.y <= ORIGIN_LIMIT,
    ensures
        robot.tick(room, rays, elapsed).lidar.len() == rays.len(),
        forall|i: int|
            0 <= i < rays.len() ==> #[trigger] robot.tick(room, rays, elapsed).lidar[i]
                == least_distance(robot.position, rays[i]@, room),
        forall|i: int|
            0 <= i < rays.len() && room.len() == 0 ==> #[trigger] robot.tick(
                room,
                rays,
                elapsed,
            ).lidar[i] == NO_HIT,
{
    lemma_sweep_reads_least_distances(robot.position, rays, room);
    assert(robot.tick(room, rays, elapsed).lidar == sweep(robot.position, rays, room));
}

impl View for Robot {
    type V = RobotModel;

    closed spec fn view(&self) -> RobotModel {
        RobotModel {
            heading: self.state.direction as int,
            lidar: self.state.lidar@,
            position: self.state.position@,
            radius: self.state.radius as int,
            speed: self.speed as int,
            rotation_speed: self.rotation_speed as int,
            collision: self.sensor_collision,
            wall: self.sensor_wall as int,
            interval: self.interval as int,
            phase: self.phase,
            last_error: self.last_error as int,
            integral: self.integral as int,
            settings: self.settings,
        }
    }
}

impl Robot {
    /// A robot at rest at (`x`, `y`), looking along x, about to seek the
    /// nearest wall, with the standard settings.
    pub fn new(x: i32, y: i32) -> (robot: Self)
        ensures
            robot@ == initial(x as int, y as int),
            robot@.wf(),
    {
        Self::with_settings(x, y, Settings::default())
    }

    /// A robot at rest at (`x`, `y`), looking along x, about to seek the
    /// nearest wall, with the given thresholds and gains.
    pub fn with_settings(x: i32, y: i32, settings: Settings) -> (robot: Self)
        requires
            settings.wf(),
        ensures
            robot@ == (RobotModel { settings, ..initial(x as int, y as int) }),
            robot@.wf(),
    {
        let state = RobotState {
            direction: 0,
            lidar: vec![0; SAMPLES],
            position: Float2::new(x, y),
            radius: RADIUS,
        };
        assert(state.lidar@ =~= Seq::new(SAMPLES as nat, |i: int| 0i64));
        Self {
            state,
            speed: SPEED,
            rotation_speed: ROTATION_SPEED,
            sensor_collision: false,
            sensor_wall: 0,
            interval: INTERVAL,
            phase: Phase::Seek,
            last_error: 0,
            integral: 0,
            settings,
        }
    }

    /// The thresholds and gains of the controller.
    pub fn settings(&self) -> (settings: Settings)
        ensures
            settings == self@.settings,
    {
        self.settings
    }

    /// What is true of the robot now.
    pub fn get_state(&self) -> (state: &RobotState)
        ensures
            state.direction == self@.heading,
            state.lidar@ == self@.lidar,
            state.position@ == self@.position,
            state.radius == self@.radius,
    {
        &self.state
    }

    /// What the controller is doing.
    pub fn phase(&self) -> (phase: Phase)
        ensures
            phase == self@.phase,
    {
        self.phase
    }

    /// Whether the robot touched a wall when it last tested for it.
    pub fn collision(&self) -> (collision: bool)
        ensures
            collision == self@.collision,
    {
        self.sensor_collision
    }

    /// The last reading of the wall sensor.
    pub fn wall_distance(&self) -> (wall: i64)
        ensures
            wall == self@.wall,
    {
        self.sensor_wall
    }

    /// The speed along the heading, in micrometres in a second.
    pub fn speed(&self) -> (speed: i32)
        ensures
            speed == self@.speed,
    {
        self.speed
    }

    /// The fastest the robot turns, in millionths of a degree in a second.
    pub fn rotation_speed(&self) -> (rotation_speed: i64)
        ensures
            rotation_speed == self@.rotation_speed,
    {
        self.rotation_speed
    }

    /// The time between two ticks, in microseconds.
    pub fn interval(&self) -> (interval: u64)
        ensures
            interval == self@.interval,
    {
        self.interval
    }

    /// Sweeps the room: the reading at each whole degree becomes the least of
    /// the distances to the walls along the ray of that degree, and the
    /// reading of no wall in a room without walls. The ray at place `i` is
    /// the unit vector at `i` degrees from the heading.
    pub fn scan_lidar(&mut self, room: &Vec<Line>, rays: &Vec<Float2>)
        requires
            old(self)@.wf(),
            rays.len() == SAMPLES,
        ensures
            final(self)@ == old(self)@.scan_lidar(room@, rays@),
            forall|i: int|
                0 <= i < SAMPLES ==> #[trigger] final(self)@.lidar[i] == least_distance(
                    old(self)@.position,
                    rays@[i]@,
                    room@,
                ),
            final(self)@.wf(),
    {
        let position = self.state.position;
        sweep_into(&mut self.state.lidar, position, rays, room);
    }

    /// Tests whether the robot touches the line of a wall.
    pub fn check_collision(&mut self, room: &Vec<Line>)
        ensures
            final(self)@ == old(self)@.check_collision(room@),
    {
        self.sensor_collision = touches_any(self.state.position, self.state.radius, room);
    }

    /// Reads the wall sensor: the distance to the nearest wall, no more than
    /// `WALL_SENSOR_RANGE`, from a point just inside the rim on the robot's
    /// side, along a ray that looks 20 degrees ahead of that side.
    pub fn check_wall(&mut self, room: &Vec<Line>, rays: &Vec<Float2>)
        requires
            old(self)@.wf(),
            rays.len() == SAMPLES,
        ensures
            final(self)@ == old(self)@.check_wall(room@, rays@),
            final(self)@.wf(),
    {
        let side = rays[WALL_SENSOR_SIDE];
        let side_x = side.get_x() as i64;
        let side_y = side.get_y() as i64;
        let reach = self.state.radius as i64 - WALL_SENSOR_INSET;
        proof {
            lemma_product_bound(side@.x, reach as int, 0x8000_0000, 500_000_000);
            lemma_product_bound(side@.y, reach as int, 0x8000_0000, 500_000_000);
            lemma_trunc_div_below(side@.x * reach, 1_073_741_824_000_000_000, UNIT as int);
            lemma_trunc_div_below(side@.y * reach, 1_073_741_824_000_000_000, UNIT as int);
        }
        let origin_x = self.state.position.get_x() as i64 + (side_x * reach) / UNIT;
        let origin_y = self.state.position.get_y() as i64 + (side_y * reach) / UNIT;
        let vector = rays[WALL_SENSOR_RAY];
        let min_dist = nearest_wall(origin_x, origin_y, vector, room, WALL_SENSOR_RANGE);
        proof {
            let origin = wall_sensor_origin(old(self)@.position, old(self)@.radius, side@);
            assert(origin == (Point { x: origin_x as int, y: origin_y as int }));
            lemma_nearest_hit_is_least(origin, vector@, room@, WALL_SENSOR_RANGE as int);
            lemma_nearest_hit_not_negative(origin, vector@, room@, WALL_SENSOR_RANGE as int);
        }
        self.sensor_wall = min_dist;
    }

    /// Turns the robot at `rotation` millionths of a degree in a second, held
    /// to the robot's limit either way, for `elapsed` microseconds.
    pub fn rotate(&mut self, rotation: i64, elapsed: u64)
        requires
            old(self)@.wf(),
            old(self)@.can_turn(elapsed as int),
        ensures
            final(self)@ == old(self)@.rotate(rotation as int, elapsed as int),
            magnitude(final(self)@.heading - old(self)@.heading) <= max_turn(
                old(self)@.rotation_speed,
                elapsed as int,
            ),
            final(self)@.wf(),
    {
        proof {
            lemma_turn_is_limited(rotation as int, self.rotation_speed as int, elapsed as int);
        }
        let limit = self.rotation_speed;
        let rate = if rotation < -limit {
            -limit
        } else if rotation > limit {
            limit
        } else {
            rotation
        };
        assert(rate == clamp(rotation as int, -limit, limit as int));
        proof {
            let most: int = 0x1_0000_0000_0000_0000;
            lemma_product_bound(rate as int, elapsed as int, limit as int, elapsed as int);
            lemma_product_bound(limit as int, elapsed as int, 0x100_0000_0000, most);
            lemma_trunc_div_below(rate * elapsed, limit * elapsed, UNIT as int);
        }
        let angle = (rate as i128 * elapsed as i128) / (UNIT as i128);
        self.state.direction = (self.state.direction as i128 + angle) as i64;
    }

    /// Turns the robot the given way at its limit for `elapsed` microseconds.
    pub fn turn(&mut self, rotation: &Rotation, elapsed: u64)
        requires
            old(self)@.wf(),
            old(self)@.can_turn(elapsed as int),
        ensures
            final(self)@ == old(self)@.turn(*rotation, elapsed as int),
            final(self)@.wf(),
    {
        match rotation {
            Rotation::Left => self.rotate(self.rotation_speed, elapsed),
            Rotation::Right => self.rotate(-self.rotation_speed, elapsed),
            Rotation::Idle => {},
        }
    }

    /// Whether the heading stays a number that the robot can hold, whatever
    /// turn is asked for over `elapsed` microseconds.
    pub fn can_turn(&self, elapsed: u64) -> (fits: bool)
        requires
            self@.wf(),
        ensures
            fits == self@.can_turn(elapsed as int),
    {
        proof {
            lemma_product_bound(
                self.rotation_speed as int,
                elapsed as int,
                0x100_0000_0000,
                0x1_0000_0000_0000_0000,
            );
            assert(self.rotation_speed * elapsed >= 0) by (nonlinear_arith)
                requires
                    self.rotation_speed >= 0,
                    elapsed >= 0,
            ;
        }
        let most = (self.rotation_speed as i128 * elapsed as i128) / (UNIT as i128);
        let heading = self.state.direction as i128;
        i64::MIN as i128 <= heading - most && heading + most <= i64::MAX as i128
    }

    /// Whether a tick of `elapsed` microseconds leaves numbers that the robot
    /// can hold.
    pub fn can_tick(&self, elapsed: u64) -> (fits: bool)
        requires
            self@.wf(),
        ensures
            fits == self@.can_tick(elapsed as int),
    {
        let sum = if self.integral >= 0 {
            self.integral
        } else {
            -self.integral
        };
        let target = if self.settings.target >= 0 {
            self.settings.target
        } else {
            -self.settings.target
        };
        self.can_turn(elapsed) && sum + WALL_SENSOR_RANGE + target <= INTEGRAL_LIMIT
    }

    /// Where a move for `elapsed` microseconds along the unit vector `heading`
    /// leads, one coordinate after the other.
    fn reach(&self, direction: &Direction, elapsed: u64, heading: Float2) -> (to: (i128, i128))
        ensures
            to.0 == self@.destination(*direction, elapsed as int, heading@).x,
            to.1 == self@.destination(*direction, elapsed as int, heading@).y,
    {
        let unit = UNIT as i128 * UNIT as i128;
        let heading_x = heading.get_x() as i128;
        let heading_y = heading.get_y() as i128;
        proof {
            let c: int = 0x8000_0000;
            let most: int = 0x1_0000_0000_0000_0000;
            let way_x = heading@.x * self.speed;
            let way_y = heading@.y * self.speed;
            lemma_product_bound(heading@.x, self.speed as int, c, c);
            lemma_product_bound(heading@.y, self.speed as int, c, c);
            lemma_product_bound(way_x, elapsed as int, c * c, most);
            lemma_product_bound(way_y, elapsed as int, c * c, most);
            lemma_trunc_div_within(way_x * elapsed, UNIT * UNIT, c * c * most);
            lemma_trunc_div_within(way_y * elapsed, UNIT * UNIT, c * c * most);
        }
        let step_x = (heading_x * self.speed as i128 * elapsed as i128) / unit;
        let step_y = (heading_y * self.speed as i128 * elapsed as i128) / unit;
        let x = self.state.position.get_x() as i128;
        let y = self.state.position.get_y() as i128;
        match direction {
            Direction::Forward => (x + step_x, y + step_y),
            Direction::Backward => (x - step_x, y - step_y),
            Direction::Idle => (x, y),
        }
    }

    /// Whether that move leads to a place whose coordinates a [`Float2`] holds.
    pub fn can_move(&self, direction: &Direction, elapsed: u64, heading: Float2) -> (fits: bool)
        ensures
            fits == self@.can_move(*direction, elapsed as int, heading@),
    {
        let to = self.reach(direction, elapsed, heading);
        i32::MIN as i128 <= to.0 && to.0 <= i32::MAX as i128 && i32::MIN as i128 <= to.1 && to.1
            <= i32::MAX as i128
    }

    /// Moves the robot at its speed for `elapsed` microseconds: forward along
    /// `heading`, the unit vector of its heading, or backward against it.
    pub fn moving(&mut self, direction: &Direction, elapsed: u64, heading: Float2)
        requires
            old(self)@.can_move(*direction, elapsed as int, heading@),
        ensures
            final(self)@ == old(self)@.moving(*direction, elapsed as int, heading@),
            is_unit_length(heading@) && *direction != Direction::Idle ==> as_long_as(
                Point {
                    x: final(self)@.position.x - old(self)@.position.x,
                    y: final(self)@.position.y - old(self)@.position.y,
                },
                old(self)@.speed * elapsed,
            ),
            old(self)@.wf() ==> final(self)@.wf(),
    {
        proof {
            if is_unit_length(heading@) {
                lemma_stride_has_the_length_of_the_way(
                    heading@,
                    self.speed as int,
                    elapsed as int,
                );
            }
        }
        let to = self.reach(direction, elapsed, heading);
        self.state.position = Float2::new(to.0 as i32, to.1 as i32);
    }

    /// One tick of the controller: the robot senses, decides and turns. What
    /// it returns is the move that the tick asks for, to be made with
    /// [`Robot::moving`] along the heading that the tick has left.
    pub fn tick(&mut self, room: &Vec<Line>, rays: &Vec<Float2>, elapsed: u64) -> (motion: Direction)
        requires
            old(self)@.wf(),
            old(self)@.can_tick(elapsed as int),
            rays.len() == SAMPLES,
        ensures
            final(self)@ == old(self)@.tick(room@, rays@, elapsed as int),
            motion == intent(old(self)@.phase, final(self)@.phase),
            final(self)@.wf(),
    {
        match self.phase {
            Phase::Seek => {
                self.scan_lidar(room, rays);
                let min_dist_dir = nearest(&self.state.lidar);
                // 0 is straight ahead
                if min_dist_dir == 0 {
                    self.phase = Phase::Approach;
                } else if min_dist_dir <= LEFT_HALF {
                    self.turn(&Rotation::Left, elapsed);
                } else {
                    self.turn(&Rotation::Right, elapsed);
                }
                Direction::Idle
            },
            Phase::Approach => {
                self.scan_lidar(room, rays);
                self.check_collision(room);
                let min_dist = self.state.lidar[nearest(&self.state.lidar)];
                if self.sensor_collision || min_dist as i128 <= self.state.radius as i128
                    + self.settings.clearance as i128 {
                    self.phase = Phase::Align;
                    Direction::Idle
                } else {
                    Direction::Forward
                }
            },
            Phase::Align => {
                self.scan_lidar(room, rays);
                let min_dir = nearest(&self.state.lidar);
                if min_dir == self.settings.aligned {
                    self.phase = Phase::Follow;
                } else {
                    self.turn(&Rotation::Left, elapsed);
                }
                Direction::Idle
            },
            Phase::Follow => {
                self.scan_lidar(room, rays);
                self.check_collision(room);
                self.check_wall(room, rays);
                if self.sensor_collision {
                    self.phase = Phase::Stopped;
                    Direction::Idle
                } else {
                    let error = self.sensor_wall - self.settings.target;
                    let p = error;
                    let i = self.integral + error;
                    let d = error - self.last_error;
                    proof {
                        let gain: int = 0x8000_0000_0000_0000;
                        let most: int = 0x4000_0000_0000_0000;
                        lemma_product_bound(self.settings.gain_p as int, p as int, gain, most);
                        lemma_product_bound(self.settings.gain_i as int, i as int, gain, most);
                        lemma_product_bound(self.settings.gain_d as int, d as int, gain, most);
                    }
                    let correction = self.settings.gain_p as i128 * p as i128
                        + self.settings.gain_i as i128 * i as i128 + self.settings.gain_d as i128
                        * d as i128;
                    // what the robot's limit leaves of the turn against it
                    let limit = self.rotation_speed as i128;
                    let asked = if -correction < -limit {
                        -limit
                    } else if -correction > limit {
                        limit
                    } else {
                        -correction
                    };
                    self.integral = i;
                    self.last_error = error;
                    self.rotate(asked as i64, elapsed);
                    Direction::Forward
                }
            },
            Phase::Stopped => Direction::Idle,
        }
    }
}

} // verus!
