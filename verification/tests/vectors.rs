use pathfinder::float2::Float2;
use pathfinder::line::Line;

#[test]
fn vector_holds_its_components() {
    let mut v = Float2::new(3, -4);
    assert_eq!(v.get_x(), 3);
    assert_eq!(v.get_y(), -4);
    v.set_x(10);
    assert_eq!((v.get_x(), v.get_y()), (10, -4));
    v.set_y(20);
    assert_eq!((v.get_x(), v.get_y()), (10, 20));
    assert_eq!(v, Float2::new(10, 20));
    assert_ne!(v, Float2::new(20, 10));
}

#[test]
fn vector_length_is_rounded_down() {
    assert_eq!(Float2::new(3, 4).length(), 5);
    assert_eq!(Float2::new(-3, 4).length(), 5);
    assert_eq!(Float2::new(1, 1).length(), 1);
    assert_eq!(Float2::new(0, 0).length(), 0);
    assert_eq!(Float2::new(1_000_000, 0).length(), 1_000_000);
    assert_eq!(Float2::new(i32::MIN, i32::MIN).length(), 3_037_000_499);
}

#[test]
fn unit_vector_points_the_same_way() {
    assert_eq!(Float2::new(3, 4).make_unit(), Float2::new(600_000, 800_000));
    assert_eq!(Float2::new(0, -7).make_unit(), Float2::new(0, -1_000_000));
    assert_eq!(Float2::new(5_000_000, 0).make_unit(), Float2::new(1_000_000, 0));
    assert_eq!(Float2::new(1, 1).make_unit(), Float2::new(707_107, 707_107));
    assert_eq!(Float2::new(-1, 1).make_unit(), Float2::new(-707_107, 707_107));
}

#[test]
fn unit_vector_has_length_one_within_a_hundred_thousandth() {
    let vectors = [
        (1, 1),
        (1, 2),
        (-7, 3),
        (123_456, -654_321),
        (i32::MAX, i32::MIN),
        (1, i32::MAX),
        (-2_000_000_000, 1),
        (17, 0),
    ];
    for (x, y) in vectors {
        let unit = Float2::new(x, y).make_unit();
        let length = (unit.get_x() as f64).hypot(unit.get_y() as f64) / 1e6;
        assert!((length - 1.0).abs() <= 1e-5, "({}, {}) gives length {}", x, y, length);
    }
}

#[test]
fn vectors_add_and_subtract() {
    let a = Float2::new(1_500_000, -2_000_000);
    let b = Float2::new(10, 20);
    assert_eq!(a + b, Float2::new(1_500_010, -1_999_980));
    assert_eq!(a - b, Float2::new(1_499_990, -2_000_020));
    let mut c = a;
    c.add_assign(b);
    assert_eq!(c, Float2::new(1_500_010, -1_999_980));
}

#[test]
fn vectors_multiply_in_millionths() {
    let a = Float2::new(1_500_000, -2_000_000);
    assert_eq!(a * Float2::new(2_000_000, 500_000), Float2::new(3_000_000, -1_000_000));
    assert_eq!(a * 2_000_000i64, Float2::new(3_000_000, -4_000_000));
    // 0.000003 * 0.5 rounds toward zero
    assert_eq!(Float2::new(3, -3) * 500_000i64, Float2::new(1, -1));
    assert_eq!(Float2::new(1, -1) * 999_999i64, Float2::new(0, 0));
}

#[test]
fn vectors_divide_in_millionths() {
    let a = Float2::new(1_500_000, -2_000_000);
    assert_eq!(a / Float2::new(2_000_000, 500_000), Float2::new(750_000, -4_000_000));
    assert_eq!(a / 2_000_000i64, Float2::new(750_000, -1_000_000));
    assert_eq!(a / -3_000_000i64, Float2::new(-500_000, 666_666));
}

#[test]
fn line_holds_its_ends() {
    let line = Line::new(Float2::new(1, 2), Float2::new(3, 4));
    assert_eq!(line.get_a(), Float2::new(1, 2));
    assert_eq!(line.get_b(), Float2::new(3, 4));
}

#[test]
fn lines_cross_in_one_point() {
    let upright = Line::new(Float2::new(5, -1), Float2::new(5, 1));
    let level = Line::new(Float2::new(0, 3), Float2::new(1, 3));
    assert_eq!(upright.get_col_point(level), Some(Float2::new(5, 3)));
    assert_eq!(level.get_col_point(upright), Some(Float2::new(5, 3)));
    let rising = Line::new(Float2::new(0, 0), Float2::new(2, 2));
    let falling = Line::new(Float2::new(0, 7), Float2::new(7, 0));
    // they cross at (3.5, 3.5)
    assert_eq!(rising.get_col_point(falling), Some(Float2::new(3, 3)));
    let falling_below = Line::new(Float2::new(0, -7), Float2::new(-7, 0));
    assert_eq!(rising.get_col_point(falling_below), Some(Float2::new(-3, -3)));
}

#[test]
fn parallel_lines_do_not_cross() {
    let one = Line::new(Float2::new(0, 0), Float2::new(2, 2));
    let other = Line::new(Float2::new(0, 1), Float2::new(2, 3));
    assert_eq!(one.get_col_point(other), None);
    assert_eq!(one.get_col_point(one), None);
    let point = Line::new(Float2::new(4, 4), Float2::new(4, 4));
    assert_eq!(one.get_col_point(point), None);
}

#[test]
fn lines_that_cross_too_far_out_give_no_point() {
    let level = Line::new(Float2::new(0, 0), Float2::new(1, 0));
    let nearly_level = Line::new(Float2::new(0, 2_000_000_000), Float2::new(2_000_000_000, 1_999_999_999));
    assert_eq!(level.get_col_point(nearly_level), None);
}

#[test]
fn vectors_of_length_one_are_told_apart() {
    assert!(Float2::new(1_000_000, 0).is_unit());
    assert!(Float2::new(0, -1_000_000).is_unit());
    assert!(Float2::new(600_000, 800_000).is_unit());
    assert!(Float2::new(707_107, -707_107).is_unit());
    assert!(Float2::new(1_000_010, 0).is_unit());
    assert!(Float2::new(999_990, 0).is_unit());
    assert!(!Float2::new(1_000_011, 0).is_unit());
    assert!(!Float2::new(999_989, 0).is_unit());
    assert!(!Float2::new(0, 0).is_unit());
    assert!(!Float2::new(1_000_000, 1_000_000).is_unit());
    assert!(!Float2::new(i32::MIN, i32::MAX).is_unit());
}

#[test]
fn every_heading_has_a_vector_of_length_one() {
    // twelve hundred headings a third of a degree apart, from -200 degrees on
    for step in 0..1_200 {
        let degrees: f64 = -200.0 + step as f64 / 3.0;
        let radians = degrees.to_radians();
        let vector = Float2::new(
            (radians.cos() * 1e6).round() as i32,
            (radians.sin() * 1e6).round() as i32,
        );
        assert!(vector.is_unit(), "at {} degrees", degrees);
    }
}
