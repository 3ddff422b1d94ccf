use pathfinder::arith::{divide, isqrt, UNIT};
use pathfinder::float2::Float2;
use pathfinder::line::Line;
use pathfinder::sensing::{
    least_wall_distance, nearest, nearest_wall, sweep_into, touches_any, touches_wall,
};
use pathfinder::utils::{cast_ray, intersection_distance, NO_HIT};

fn along_x() -> Float2 {
    Float2::new(UNIT as i32, 0)
}

fn wall(ax: i32, ay: i32, bx: i32, by: i32) -> Line {
    Line::new(Float2::new(ax, ay), Float2::new(bx, by))
}

#[test]
fn ray_hits_wall_ahead() {
    let ahead = wall(5, -1, 5, 1);
    assert_eq!(intersection_distance(Float2::new(0, 0), along_x(), ahead), 5);
}

#[test]
fn ray_misses_wall_behind() {
    let behind = wall(-5, -1, -5, 1);
    assert_eq!(intersection_distance(Float2::new(0, 0), along_x(), behind), NO_HIT);
}

#[test]
fn ray_hits_wall_whichever_way_it_is_drawn() {
    let up = wall(5, -1, 5, 1);
    let down = wall(5, 1, 5, -1);
    let origin = Float2::new(0, 0);
    assert_eq!(intersection_distance(origin, along_x(), up), 5);
    assert_eq!(intersection_distance(origin, along_x(), down), 5);
}

#[test]
fn parallel_ray_reads_no_hit() {
    let beside = wall(0, 3, 10, 3);
    assert_eq!(intersection_distance(Float2::new(0, 0), along_x(), beside), NO_HIT);
    let on_the_ray = wall(2, 0, 10, 0);
    assert_eq!(intersection_distance(Float2::new(0, 0), along_x(), on_the_ray), NO_HIT);
}

#[test]
fn wall_without_length_reads_no_hit() {
    let point = wall(5, 0, 5, 0);
    assert_eq!(intersection_distance(Float2::new(0, 0), along_x(), point), NO_HIT);
}

#[test]
fn ray_without_direction_reads_no_hit() {
    let ahead = wall(5, -1, 5, 1);
    assert_eq!(intersection_distance(Float2::new(0, 0), Float2::new(0, 0), ahead), NO_HIT);
}

#[test]
fn ray_past_the_end_of_a_wall_reads_no_hit() {
    let ahead = wall(5, 1, 5, 3);
    assert_eq!(intersection_distance(Float2::new(0, 0), along_x(), ahead), NO_HIT);
}

#[test]
fn ray_hits_the_very_ends_of_a_wall() {
    let origin = Float2::new(0, 0);
    assert_eq!(intersection_distance(origin, along_x(), wall(5, 0, 5, 7)), 5);
    assert_eq!(intersection_distance(origin, along_x(), wall(5, -7, 5, 0)), 5);
}

#[test]
fn ray_from_a_point_of_the_wall_reads_zero() {
    assert_eq!(intersection_distance(Float2::new(5, 0), along_x(), wall(5, -1, 5, 1)), 0);
}

#[test]
fn distance_is_rounded_down() {
    // three fifths of the way along x, four fifths along y
    let slanted = Float2::new(600_000, 800_000);
    let ahead = wall(10, -100, 10, 100);
    // 10 / 0.6 = 16.66...
    assert_eq!(intersection_distance(Float2::new(0, 0), slanted, ahead), 16);
    let far = wall(3_000_000, -100, 3_000_000, 5_000_000);
    assert_eq!(intersection_distance(Float2::new(0, 0), slanted, far), 5_000_000);
}

#[test]
fn distance_beyond_the_no_hit_reading_is_given_as_it_is() {
    let far = wall(30_000_000, -1, 30_000_000, 1);
    assert_eq!(intersection_distance(Float2::new(0, 0), along_x(), far), 30_000_000);
}

#[test]
fn cast_ray_takes_an_origin_outside_the_plane_of_vectors() {
    let ahead = wall(5, -1, 5, 1);
    assert_eq!(cast_ray(-4_000_000_000, 0, along_x(), ahead), 4_000_000_005);
    assert_eq!(cast_ray(0, 0, along_x(), ahead), 5);
}

#[test]
fn nearest_wall_is_the_least_distance_within_range() {
    let room = vec![wall(9, -1, 9, 1), wall(5, -1, 5, 1), wall(7, -1, 7, 1), wall(-2, -1, -2, 1)];
    assert_eq!(nearest_wall(0, 0, along_x(), &room, 100), 5);
    assert_eq!(nearest_wall(0, 0, along_x(), &room, 3), 3);
    assert_eq!(nearest_wall(0, 0, along_x(), &Vec::new(), 50_000), 50_000);
    let behind = vec![wall(-2, -1, -2, 1)];
    assert_eq!(nearest_wall(0, 0, along_x(), &behind, 50_000), 50_000);
    assert_eq!(nearest_wall(0, 0, along_x(), &behind, 30_000_000), NO_HIT);
}

#[test]
fn sweep_of_a_square_room_along_the_axes() {
    let side = 5_000;
    let room = vec![
        wall(0, 0, side, 0),
        wall(side, 0, side, side),
        wall(0, side, side, side),
        wall(0, 0, 0, side),
    ];
    let unit = UNIT as i32;
    let rays = vec![
        Float2::new(unit, 0),
        Float2::new(0, unit),
        Float2::new(-unit, 0),
        Float2::new(0, -unit),
    ];
    let mut lidar = vec![0; 4];
    sweep_into(&mut lidar, Float2::new(2_500, 2_500), &rays, &room);
    assert_eq!(lidar, vec![2_500, 2_500, 2_500, 2_500]);
    sweep_into(&mut lidar, Float2::new(1_000, 2_000), &rays, &room);
    assert_eq!(lidar, vec![4_000, 3_000, 1_000, 2_000]);
    sweep_into(&mut lidar, Float2::new(1_000, 2_000), &rays, &Vec::new());
    assert_eq!(lidar, vec![NO_HIT; 4]);
}

#[test]
fn least_wall_distance_is_the_least_of_the_distances() {
    let room = vec![wall(9, -1, 9, 1), wall(5, -1, 5, 1), wall(7, -1, 7, 1), wall(-2, -1, -2, 1)];
    assert_eq!(least_wall_distance(0, 0, along_x(), &room), 5);
    assert_eq!(least_wall_distance(0, 0, along_x(), &Vec::new()), NO_HIT);
    let behind = vec![wall(-2, -1, -2, 1)];
    assert_eq!(least_wall_distance(0, 0, along_x(), &behind), NO_HIT);
    let far = vec![wall(30_000_000, -1, 30_000_000, 1)];
    assert_eq!(least_wall_distance(0, 0, along_x(), &far), 30_000_000);
    let far_and_missed = vec![wall(30_000_000, -1, 30_000_000, 1), wall(-2, -1, -2, 1)];
    assert_eq!(least_wall_distance(0, 0, along_x(), &far_and_missed), NO_HIT);
}

#[test]
fn nearest_is_the_first_least_reading() {
    assert_eq!(nearest(&vec![7]), 0);
    assert_eq!(nearest(&vec![7, 3, 9, 3, 5]), 1);
    assert_eq!(nearest(&vec![4, 4, 4]), 0);
    assert_eq!(nearest(&vec![9, 8, 7, 6]), 3);
    assert_eq!(nearest(&vec![-1, i64::MIN, i64::MAX]), 1);
}

#[test]
fn collision_boundary() {
    let center = Float2::new(0, 0);
    let touching = wall(175, -1000, 175, 1000);
    let clear = wall(176, -1000, 176, 1000);
    assert!(touches_wall(center, 175, touching));
    assert!(!touches_wall(center, 175, clear));
    assert!(touches_any(center, 175, &vec![clear, touching]));
    assert!(!touches_any(center, 175, &vec![clear]));
    assert!(!touches_any(center, 175, &Vec::new()));
}

#[test]
fn collision_with_a_level_wall() {
    let center = Float2::new(0, 0);
    assert!(touches_wall(center, 175, wall(-1000, 175, 1000, 175)));
    assert!(!touches_wall(center, 175, wall(-1000, 176, 1000, 176)));
    assert!(touches_wall(center, 175, wall(-1000, -175, 1000, -175)));
}

#[test]
fn collision_with_a_slanted_wall() {
    // the line x + y = 10, at 7.07 from the origin
    let slanted = wall(0, 10, 10, 0);
    assert!(!touches_wall(Float2::new(0, 0), 7, slanted));
    assert!(touches_wall(Float2::new(0, 0), 8, slanted));
    // the line 3x + 4y = 25 is exactly 5 from the origin
    let exact = wall(3, 4, 7, 1);
    assert!(touches_wall(Float2::new(0, 0), 5, exact));
    assert!(!touches_wall(Float2::new(0, 0), 4, exact));
}

#[test]
fn collision_counts_the_whole_line_of_a_wall() {
    // the wall ends far from the robot, its line passes close by
    let far_away = wall(100, 10_000, 100, 20_000);
    assert!(touches_wall(Float2::new(0, 0), 175, far_away));
    let level = wall(10_000, 100, 20_000, 100);
    assert!(touches_wall(Float2::new(0, 0), 175, level));
}

#[test]
fn collision_with_a_wall_without_length() {
    // such a wall counts as the line straight up the page through it
    let point = wall(100, 5_000, 100, 5_000);
    assert!(touches_wall(Float2::new(0, 0), 175, point));
    assert!(!touches_wall(Float2::new(0, 0), 99, point));
}

#[test]
fn collision_at_the_edge_of_the_plane() {
    let center = Float2::new(i32::MIN, i32::MIN);
    let slanted = wall(i32::MAX, i32::MIN, i32::MIN, i32::MAX);
    assert!(!touches_wall(center, i32::MAX, slanted));
    let through = wall(i32::MIN, i32::MIN, i32::MAX, i32::MAX);
    assert!(touches_wall(center, 0, through));
    assert!(!touches_wall(Float2::new(i32::MIN, i32::MAX), 1, through));
}

#[test]
fn collision_of_a_negative_radius_counts_its_size_but_for_upright_walls() {
    assert!(!touches_wall(Float2::new(0, 0), -175, wall(100, -1, 100, 1)));
    assert!(touches_wall(Float2::new(0, 0), -175, wall(-1, 100, 1, 100)));
}

#[test]
fn square_roots_are_rounded_down() {
    assert_eq!(isqrt(0), 0);
    assert_eq!(isqrt(1), 1);
    assert_eq!(isqrt(24), 4);
    assert_eq!(isqrt(25), 5);
    assert_eq!(isqrt(26), 5);
    assert_eq!(isqrt(u128::MAX), u64::MAX);
    assert_eq!(isqrt(2_000_000_000_000), 1_414_213);
}

#[test]
fn quotients_are_rounded_toward_zero() {
    assert_eq!(divide(7, 2), 3);
    assert_eq!(divide(-7, 2), -3);
    assert_eq!(divide(7, -2), -3);
    assert_eq!(divide(-7, -2), 3);
    assert_eq!(divide(0, -5), 0);
}
