use pathfinder::float2::Float2;
use pathfinder::line::Line;
use pathfinder::robot::{
    Direction, Phase, Robot, Settings, CLEARANCE, INTERVAL, RADIUS, TARGET,
};
use pathfinder::sensing::nearest;

fn wall(ax: i32, ay: i32, bx: i32, by: i32) -> Line {
    Line::new(Float2::new(ax, ay), Float2::new(bx, by))
}

fn room(width: i32, height: i32) -> Vec<Line> {
    vec![
        wall(0, 0, width, 0),
        wall(width, 0, width, height),
        wall(0, height, width, height),
        wall(0, 0, 0, height),
    ]
}

fn corridor() -> Vec<Line> {
    let length = 100_000_000;
    vec![wall(0, -length, 0, length), wall(2_000_000, -length, 2_000_000, length)]
}

fn direction_to_vector(heading: i64) -> Float2 {
    let radians = (heading as f64 / 1e6).to_radians();
    Float2::new((radians.cos() * 1e6).round() as i32, (radians.sin() * 1e6).round() as i32)
}

fn rays(heading: i64) -> Vec<Float2> {
    (0..360).map(|degree| direction_to_vector(heading + degree * 1_000_000)).collect()
}

/// One tick and the move it asks for.
fn step(robot: &mut Robot, room: &Vec<Line>) -> Direction {
    assert!(robot.can_tick(INTERVAL));
    let table = rays(robot.get_state().direction);
    let motion = robot.tick(room, &table, INTERVAL);
    let heading = direction_to_vector(robot.get_state().direction);
    assert!(robot.can_move(&motion, INTERVAL, heading));
    robot.moving(&motion, INTERVAL, heading);
    motion
}

fn run_until(robot: &mut Robot, room: &Vec<Line>, phase: Phase, limit: usize) -> usize {
    let mut ticks = 0;
    while robot.phase() != phase {
        assert!(ticks < limit, "still {:?} after {} ticks", robot.phase(), ticks);
        step(robot, room);
        ticks += 1;
    }
    ticks
}

#[test]
fn seek_ends_when_the_nearest_wall_is_straight_ahead() {
    // one metre from the left wall and from the lower one
    let walls = room(5_000_000, 3_000_000);
    let mut robot = Robot::new(1_000_000, 1_000_000);
    let budget = 600_000;
    let mut ticks = 0;
    loop {
        let before = robot.get_state().direction;
        let motion = step(&mut robot, &walls);
        ticks += 1;
        assert_eq!(motion, Direction::Idle);
        assert_eq!(robot.get_state().position, Float2::new(1_000_000, 1_000_000));
        let index = nearest(&robot.get_state().lidar);
        if robot.phase() == Phase::Approach {
            assert_eq!(index, 0);
            assert_eq!(robot.get_state().direction, before);
            break;
        }
        assert_eq!(robot.phase(), Phase::Seek);
        assert!(index != 0);
        // the wall is to the left: every tick turns left by the whole budget
        assert!(index <= 180, "nearest at {} in tick {}", index, ticks);
        assert_eq!(robot.get_state().direction, before + budget);
        assert!(ticks < 1_000);
    }
    // the left wall lies at 180 degrees
    let heading = robot.get_state().direction;
    assert!((heading - 180_000_000).abs() <= budget, "stopped at {}", heading);
    assert!((robot.get_state().lidar[0] - 1_000_000).abs() <= 100);
}

#[test]
fn seek_turns_right_toward_a_wall_on_the_right() {
    let walls = room(5_000_000, 3_000_000);
    let mut robot = Robot::new(2_500_000, 500_000);
    step(&mut robot, &walls);
    // the lower wall lies at 270 degrees
    assert_eq!(nearest(&robot.get_state().lidar), 270);
    assert_eq!(robot.get_state().direction, -600_000);
    let ticks = run_until(&mut robot, &walls, Phase::Approach, 1_000);
    assert!(ticks <= 151, "{} ticks", ticks);
    assert!((robot.get_state().direction + 90_000_000).abs() <= 600_000);
}

#[test]
fn seek_ends_at_once_facing_the_wall() {
    let walls = room(5_000_000, 3_000_000);
    let mut robot = Robot::new(4_500_000, 1_500_000);
    let motion = step(&mut robot, &walls);
    assert_eq!(motion, Direction::Idle);
    assert_eq!(robot.phase(), Phase::Approach);
    assert_eq!(robot.get_state().direction, 0);
    assert_eq!(robot.get_state().lidar[0], 500_000);
}

#[test]
fn approach_ends_within_the_clearance() {
    let walls = room(5_000_000, 3_000_000);
    let mut robot = Robot::new(4_500_000, 1_500_000);
    run_until(&mut robot, &walls, Phase::Approach, 1);
    let mut ticks = 0;
    loop {
        let before = robot.get_state().position;
        let motion = step(&mut robot, &walls);
        ticks += 1;
        let least = robot.get_state().lidar[nearest(&robot.get_state().lidar)];
        assert_eq!(robot.get_state().direction, 0);
        if robot.phase() == Phase::Align {
            assert_eq!(motion, Direction::Idle);
            assert!(least <= RADIUS as i64 + CLEARANCE);
            assert_eq!(robot.get_state().position, before);
            break;
        }
        assert_eq!(robot.phase(), Phase::Approach);
        assert_eq!(motion, Direction::Forward);
        assert!(least > RADIUS as i64 + CLEARANCE);
        assert!(!robot.collision());
        // 4 mm a tick
        assert_eq!(robot.get_state().position, before + Float2::new(4_000, 0));
        assert!(ticks < 1_000);
    }
    // from 500 mm down to 185 mm or less, 4 mm at a time
    assert_eq!(ticks, 80);
    assert_eq!(robot.get_state().position, Float2::new(4_816_000, 1_500_000));
}

#[test]
fn approach_ends_on_touching_the_line_of_a_wall() {
    // the robot stands on the line of a wall that ends far from it
    let walls = vec![
        wall(1_000_000, -1_000_000, 1_000_000, 1_000_000),
        wall(2_000_000, 100_000, 3_000_000, 100_000),
    ];
    let mut robot = Robot::new(0, 0);
    run_until(&mut robot, &walls, Phase::Approach, 1);
    let motion = step(&mut robot, &walls);
    assert_eq!(motion, Direction::Idle);
    assert!(robot.collision());
    assert_eq!(robot.phase(), Phase::Align);
    assert_eq!(robot.get_state().position, Float2::new(0, 0));
}

#[test]
fn align_ends_with_the_wall_at_the_side() {
    let walls = room(5_000_000, 3_000_000);
    let mut robot = Robot::new(4_500_000, 1_500_000);
    run_until(&mut robot, &walls, Phase::Align, 1_000);
    let place = robot.get_state().position;
    let mut ticks = 0;
    loop {
        let before = robot.get_state().direction;
        let motion = step(&mut robot, &walls);
        ticks += 1;
        assert_eq!(motion, Direction::Idle);
        assert_eq!(robot.get_state().position, place);
        if robot.phase() == Phase::Follow {
            assert_eq!(nearest(&robot.get_state().lidar), 270);
            assert_eq!(robot.get_state().direction, before);
            break;
        }
        assert_eq!(robot.phase(), Phase::Align);
        assert!(nearest(&robot.get_state().lidar) != 270);
        assert_eq!(robot.get_state().direction, before + 600_000);
        assert!(ticks < 1_000);
    }
    // a quarter turn to the left
    assert!((robot.get_state().direction - 90_000_000).abs() <= 600_000);
}

#[test]
fn follow_holds_the_distance_to_the_wall() {
    let walls = corridor();
    let mut robot = Robot::new(800_000, 0);
    run_until(&mut robot, &walls, Phase::Follow, 5_000);
    let start = robot.get_state().position;
    let ticks = 500;
    for tick in 0..ticks {
        let motion = step(&mut robot, &walls);
        assert_eq!(motion, Direction::Forward, "in tick {}", tick);
        assert_eq!(robot.phase(), Phase::Follow);
        assert!(!robot.collision());
        let error = robot.wall_distance() - TARGET;
        assert!(error.abs() <= 2_000, "error {} in tick {}", error, tick);
    }
    // 400 mm in a second for 500 ticks of 10 ms: 2 m, less what rounding takes
    let end = robot.get_state().position;
    let way = ((end.get_x() - start.get_x()) as f64).hypot((end.get_y() - start.get_y()) as f64);
    assert!((way - 2_000_000.0).abs() <= 2.0 * ticks as f64, "{} micrometres", way);
    // along the wall, which runs along y
    assert!((end.get_x() - start.get_x()).abs() <= 5_000);
}

#[test]
fn follow_stops_on_touching_a_wall() {
    let walls = room(5_000_000, 3_000_000);
    let mut robot = Robot::new(1_000_000, 1_000_000);
    run_until(&mut robot, &walls, Phase::Follow, 5_000);
    let ticks = run_until(&mut robot, &walls, Phase::Stopped, 5_000);
    assert!(ticks > 100);
    assert!(robot.collision());
    // it went down the left wall and met the lower one
    let place = robot.get_state().position;
    assert!(place.get_y() <= 175_000 && place.get_y() > 171_000, "{:?}", place);
    assert!((place.get_x() - 185_000).abs() <= 3_000, "{:?}", place);
}

#[test]
fn stopped_robot_stays_as_it_is() {
    let walls = room(5_000_000, 3_000_000);
    let mut robot = Robot::new(1_000_000, 1_000_000);
    run_until(&mut robot, &walls, Phase::Stopped, 10_000);
    let heading = robot.get_state().direction;
    let place = robot.get_state().position;
    let lidar = robot.get_state().lidar.clone();
    let wall_distance = robot.wall_distance();
    // another room would change every reading, were it looked at
    let motion = step(&mut robot, &Vec::new());
    assert_eq!(motion, Direction::Idle);
    assert_eq!(robot.phase(), Phase::Stopped);
    assert_eq!(robot.get_state().direction, heading);
    assert_eq!(robot.get_state().position, place);
    assert_eq!(robot.get_state().lidar, lidar);
    assert_eq!(robot.wall_distance(), wall_distance);
    assert!(robot.collision());
}

#[test]
fn phases_follow_one_another_in_order() {
    let walls = room(5_000_000, 3_000_000);
    let mut robot = Robot::new(1_000_000, 1_000_000);
    let mut seen = vec![robot.phase()];
    for _ in 0..2_000 {
        step(&mut robot, &walls);
        if *seen.last().unwrap() != robot.phase() {
            seen.push(robot.phase());
        }
    }
    assert_eq!(
        seen,
        vec![Phase::Seek, Phase::Approach, Phase::Align, Phase::Follow, Phase::Stopped]
    );
}

#[test]
fn follow_turns_against_the_error() {
    // a wall 10 mm nearer than the target asks for a turn to the left
    let mut near = Robot::new(800_000, 0);
    let walls = corridor();
    run_until(&mut near, &walls, Phase::Follow, 5_000);
    let heading = near.get_state().direction;
    let table = rays(heading);
    near.tick(&walls, &table, INTERVAL);
    let error = near.wall_distance() - TARGET;
    assert!(error < 0, "error {}", error);
    // 0.5 and 0.001 and 20 degrees in a second for each millimetre
    let correction = 500 * error + error + 20_000 * error;
    let asked = (-correction).clamp(-60_000_000, 60_000_000);
    assert_eq!(near.get_state().direction, heading + asked * 10_000 / 1_000_000);
    assert!(near.get_state().direction > heading);
}

#[test]
fn standard_settings_are_the_default() {
    let settings = Settings::default();
    assert_eq!(settings.clearance, 10_000);
    assert_eq!(settings.aligned, 270);
    assert_eq!(settings.target, 21_500);
    assert_eq!(settings.gain_p, 500);
    assert_eq!(settings.gain_i, 1);
    assert_eq!(settings.gain_d, 20_000);
    assert!(settings.is_valid());
    assert_eq!(Robot::new(0, 0).settings(), settings);
    assert_eq!(Robot::with_settings(0, 0, settings).settings(), settings);
}

#[test]
fn settings_outside_their_limits_are_told_apart() {
    let standard = Settings::default();
    let limit = 1 << 60;
    assert!(Settings { target: limit, ..standard }.is_valid());
    assert!(Settings { target: -limit, ..standard }.is_valid());
    assert!(!Settings { target: limit + 1, ..standard }.is_valid());
    assert!(!Settings { target: -limit - 1, ..standard }.is_valid());
    assert!(!Settings { target: i64::MIN, ..standard }.is_valid());
}

#[test]
fn every_gain_clearance_and_place_can_be_set() {
    let standard = Settings::default();
    assert!(Settings { gain_p: i64::MAX, gain_i: i64::MIN, gain_d: i64::MAX, ..standard }.is_valid());
    assert!(Settings { clearance: i64::MAX, ..standard }.is_valid());
    assert!(Settings { clearance: i64::MIN, ..standard }.is_valid());
    assert!(Settings { aligned: usize::MAX, ..standard }.is_valid());
    assert!(Settings { target: 0, ..standard }.is_valid());
    assert!(Settings { target: 50_001, ..standard }.is_valid());
}

#[test]
fn follow_with_the_largest_gains_turns_at_the_limit() {
    let walls = corridor();
    let settings = Settings {
        gain_p: i64::MAX,
        gain_i: i64::MAX,
        gain_d: i64::MAX,
        ..Settings::default()
    };
    let mut robot = Robot::with_settings(800_000, 0, settings);
    run_until(&mut robot, &walls, Phase::Follow, 5_000);
    let before = robot.get_state().direction;
    assert_eq!(step(&mut robot, &walls), Direction::Forward);
    // the wall is nearer than the target: a turn to the left, held to 60
    // degrees in a second
    assert!(robot.wall_distance() < TARGET);
    assert_eq!(robot.get_state().direction, before + 600_000);
}

#[test]
fn approach_with_the_largest_clearance_ends_at_once() {
    let walls = room(5_000_000, 3_000_000);
    let settings = Settings { clearance: i64::MAX, ..Settings::default() };
    let mut robot = Robot::with_settings(4_500_000, 1_500_000, settings);
    run_until(&mut robot, &walls, Phase::Approach, 1);
    assert_eq!(step(&mut robot, &walls), Direction::Idle);
    assert_eq!(robot.phase(), Phase::Align);
    assert_eq!(robot.get_state().position, Float2::new(4_500_000, 1_500_000));
}

#[test]
fn seek_in_a_room_without_walls_ends_at_once() {
    let mut robot = Robot::new(0, 0);
    assert_eq!(step(&mut robot, &Vec::new()), Direction::Idle);
    assert_eq!(robot.phase(), Phase::Approach);
    assert_eq!(robot.get_state().direction, 0);
    // nothing is near: the robot drives on
    assert_eq!(step(&mut robot, &Vec::new()), Direction::Forward);
    assert_eq!(robot.get_state().position, Float2::new(4_000, 0));
}

#[test]
fn approach_ends_within_the_clearance_that_is_set() {
    let walls = room(5_000_000, 3_000_000);
    let settings = Settings { clearance: 100_000, ..Settings::default() };
    let mut robot = Robot::with_settings(4_500_000, 1_500_000, settings);
    run_until(&mut robot, &walls, Phase::Align, 1_000);
    // from 500 mm down to 275 mm or less, 4 mm at a time
    assert_eq!(robot.get_state().position, Float2::new(4_728_000, 1_500_000));
}

#[test]
fn align_ends_at_the_place_that_is_set() {
    let walls = room(5_000_000, 3_000_000);
    let settings = Settings { aligned: 359, ..Settings::default() };
    let mut robot = Robot::with_settings(4_500_000, 1_500_000, settings);
    run_until(&mut robot, &walls, Phase::Align, 1_000);
    let ticks = run_until(&mut robot, &walls, Phase::Follow, 1_000);
    // after one turn of 0.6 degrees the ray nearest to the wall is the last
    // of the sweep, 0.4 degrees to the other side; the next tick sees that
    assert_eq!(ticks, 2);
    assert_eq!(robot.get_state().direction, 600_000);
}

#[test]
fn follow_without_gains_goes_straight_on() {
    let walls = corridor();
    let settings = Settings { gain_p: 0, gain_i: 0, gain_d: 0, ..Settings::default() };
    let mut robot = Robot::with_settings(800_000, 0, settings);
    run_until(&mut robot, &walls, Phase::Follow, 5_000);
    let heading = robot.get_state().direction;
    let start = robot.get_state().position;
    for _ in 0..100 {
        assert_eq!(step(&mut robot, &walls), Direction::Forward);
        assert_eq!(robot.get_state().direction, heading);
    }
    // the heading is 270 degrees: straight down the page, 4 mm a tick
    assert_eq!(heading, 270_000_000);
    assert_eq!(robot.get_state().position, start - Float2::new(0, 400_000));
}

#[test]
fn follow_turns_no_faster_than_the_limit() {
    let walls = corridor();
    let settings = Settings { gain_p: 1_000_000_000, ..Settings::default() };
    let mut robot = Robot::with_settings(800_000, 0, settings);
    run_until(&mut robot, &walls, Phase::Follow, 5_000);
    for _ in 0..50 {
        let before = robot.get_state().direction;
        step(&mut robot, &walls);
        assert!((robot.get_state().direction - before).abs() <= 600_000);
    }
}
