use flocking::fixed::{isqrt, ONE};
use flocking::vector2::{divide_scalar, scale_scalar, Vector2};

const U: i64 = ONE;

#[test]
fn one_is_a_million() {
    assert_eq!(ONE, 1_000_000);
}

#[test]
fn isqrt_rounds_down() {
    assert_eq!(isqrt(0), 0);
    assert_eq!(isqrt(1), 1);
    assert_eq!(isqrt(2), 1);
    assert_eq!(isqrt(3), 1);
    assert_eq!(isqrt(4), 2);
    assert_eq!(isqrt(15), 3);
    assert_eq!(isqrt(16), 4);
    assert_eq!(isqrt(17), 4);
    assert_eq!(isqrt(999_999_999_999), 999_999);
    assert_eq!(isqrt(1_000_000_000_000), 1_000_000);
}

#[test]
fn isqrt_of_the_greatest_number() {
    assert_eq!(isqrt(u128::MAX), u64::MAX);
    assert_eq!(isqrt((u64::MAX as u128) * (u64::MAX as u128)), u64::MAX);
    assert_eq!(isqrt((u64::MAX as u128) * (u64::MAX as u128) - 1), u64::MAX - 1);
}

#[test]
fn isqrt_is_the_floor_of_the_root() {
    let mut n: u128 = 0;
    while n < 5000 {
        let r = isqrt(n) as u128;
        assert!(r * r <= n && n < (r + 1) * (r + 1));
        n += 1;
    }
}

#[test]
fn scale_scalar_multiplies_and_rounds_toward_zero() {
    assert_eq!(scale_scalar(3 * U, 1_500_000), 4_500_000);
    assert_eq!(scale_scalar(-3 * U, 1_500_000), -4_500_000);
    assert_eq!(scale_scalar(3, 500_000), 1);
    assert_eq!(scale_scalar(-3, 500_000), -1);
    assert_eq!(scale_scalar(1, 500_000), 0);
    assert_eq!(scale_scalar(-1, 500_000), 0);
    assert_eq!(scale_scalar(7 * U, 0), 0);
    assert_eq!(scale_scalar(7 * U, -2 * U), -14 * U);
}

#[test]
fn divide_scalar_divides_and_rounds_toward_zero() {
    assert_eq!(divide_scalar(U, 3 * U), 333_333);
    assert_eq!(divide_scalar(-U, 3 * U), -333_333);
    assert_eq!(divide_scalar(6 * U, 2 * U), 3 * U);
    assert_eq!(divide_scalar(0, 5), 0);
    assert_eq!(divide_scalar(U, 1), 1_000_000_000_000);
}

#[test]
fn vectors_add_and_subtract_by_components() {
    let a = Vector2::new(3 * U, -4 * U);
    let b = Vector2::new(-1 * U, 6 * U);
    assert_eq!(a.plus(&b), Vector2::new(2 * U, 2 * U));
    assert_eq!(a.minus(&b), Vector2::new(4 * U, -10 * U));
    assert_eq!(Vector2::zero(), Vector2::new(0, 0));
    assert_eq!(a.plus(&Vector2::zero()), a);
}

#[test]
fn length_of_a_three_four_five_triangle() {
    let v = Vector2::new(3 * U, 4 * U);
    assert_eq!(v.mag_squared(), 25_000_000_000_000);
    assert_eq!(v.mag(), 5_000_000);
    assert_eq!(Vector2::new(-3 * U, -4 * U).mag(), 5_000_000);
    assert_eq!(Vector2::zero().mag(), 0);
    assert_eq!(Vector2::new(1, 1).mag(), 1);
}

#[test]
fn length_of_the_longest_vector() {
    let v = Vector2::new(i64::MIN, i64::MIN);
    assert_eq!(v.mag_squared(), 1u128 << 127);
    assert_eq!(v.mag(), 13_043_817_825_332_782_212);
}

#[test]
fn distance_is_the_length_of_the_difference() {
    let a = Vector2::new(10 * U, 10 * U);
    let b = Vector2::new(13 * U, 6 * U);
    assert_eq!(a.distance_to(&b), 5_000_000);
    assert_eq!(b.distance_to(&a), 5_000_000);
    assert_eq!(a.distance_to(&a), 0);
}

#[test]
fn scaled_multiplies_each_component() {
    let v = Vector2::new(600_000, -800_000);
    assert_eq!(v.scaled(200 * U), Vector2::new(120 * U, -160 * U));
    assert_eq!(v.scaled(1_500_000), Vector2::new(900_000, -1_200_000));
    assert_eq!(v.scaled(0), Vector2::zero());
}

#[test]
fn over_divides_each_component() {
    assert_eq!(Vector2::new(600_000, 800_000).over(5 * U), Vector2::new(120_000, 160_000));
    assert_eq!(Vector2::new(-600_000, 800_000).over(3 * U), Vector2::new(-200_000, 266_666));
}

#[test]
fn normalized_has_unit_length() {
    assert_eq!(Vector2::new(3 * U, 4 * U).normalized(), Vector2::new(600_000, 800_000));
    assert_eq!(Vector2::new(-3 * U, 4 * U).normalized(), Vector2::new(-600_000, 800_000));
    assert_eq!(Vector2::new(0, -7).normalized(), Vector2::new(0, -U));
    assert_eq!(Vector2::new(1, 1).normalized(), Vector2::new(707_106, 707_106));
    assert_eq!(Vector2::new(U, 2 * U).normalized(), Vector2::new(447_213, 894_427));
}

#[test]
fn normalized_zero_vector_stays_zero() {
    assert_eq!(Vector2::zero().normalized(), Vector2::zero());
    assert_eq!(Vector2::zero().with_length(5 * U), Vector2::zero());
    assert_eq!(Vector2::zero().limited(0), Vector2::zero());
}

#[test]
fn with_length_keeps_the_direction() {
    let v = Vector2::new(3 * U, 4 * U);
    assert_eq!(v.with_length(10 * U), Vector2::new(6 * U, 8 * U));
    assert_eq!(v.with_length(0), Vector2::zero());
    assert_eq!(Vector2::new(-5, 0).with_length(3 * U), Vector2::new(-3 * U, 0));
}

#[test]
fn limited_leaves_a_short_vector_alone() {
    let v = Vector2::new(3 * U, 4 * U);
    assert_eq!(v.limited(5 * U), v);
    assert_eq!(v.limited(6 * U), v);
}

#[test]
fn limited_shortens_a_long_vector() {
    let v = Vector2::new(3 * U, 4 * U);
    assert_eq!(v.limited(5 * U - 1), Vector2::new(2_999_999, 3_999_999));
    assert_eq!(
        Vector2::new(300 * U, 400 * U).limited(200 * U),
        Vector2::new(120 * U, 160 * U)
    );
}

#[test]
fn limited_never_exceeds_the_limit() {
    let limit: i64 = 50_000;
    let mut x: i64 = -300_000;
    while x <= 300_000 {
        let mut y: i64 = -300_000;
        while y <= 300_000 {
            let r = Vector2::new(x, y).limited(limit);
            assert!(r.mag_squared() <= (limit as u128) * (limit as u128));
            y += 37_501;
        }
        x += 41_003;
    }
}

#[test]
fn quarter_turn_takes_a_right_angle_off_the_angle() {
    assert_eq!(Vector2::new(U, 0).quarter_turn(), Vector2::new(0, -U));
    assert_eq!(Vector2::new(0, U).quarter_turn(), Vector2::new(U, 0));
    assert_eq!(Vector2::new(-U, 0).quarter_turn(), Vector2::new(0, U));
    assert_eq!(Vector2::new(0, -U).quarter_turn(), Vector2::new(-U, 0));
}

#[test]
fn normalized_agrees_with_the_real_quotient() {
    let samples: [(i64, i64); 5] =
        [(12_345_678, -987_654), (-5, 3), (999_999_999_999, 1), (-40 * U, -9 * U), (7, 0)];
    for (x, y) in samples {
        let n = Vector2::new(x, y).normalized();
        let length = ((x as f64) * (x as f64) + (y as f64) * (y as f64)).sqrt();
        let ex = (x as f64) / length * 1e6;
        let ey = (y as f64) / length * 1e6;
        assert!((n.x as f64 - ex).abs() <= 1.0, "{} against {}", n.x, ex);
        assert!((n.y as f64 - ey).abs() <= 1.0, "{} against {}", n.y, ey);
    }
}
