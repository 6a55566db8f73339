use rusty_raid::aim::{heading_of, thrust_of};
use rusty_raid::components::Heading;
use rusty_raid::scalar::{abs_wide, add_sat, delta, isqrt, length_sq, saturate, scale};

#[test]
fn saturate_keeps_values_in_range() {
    assert_eq!(saturate(0), 0);
    assert_eq!(saturate(-17), -17);
    assert_eq!(saturate(2147483647), i32::MAX);
    assert_eq!(saturate(-2147483648), i32::MIN);
}

#[test]
fn saturate_clamps_at_both_ends() {
    assert_eq!(saturate(2147483648), i32::MAX);
    assert_eq!(saturate(-2147483649), i32::MIN);
    assert_eq!(saturate(i128::MAX), i32::MAX);
    assert_eq!(saturate(i128::MIN), i32::MIN);
}

#[test]
fn isqrt_of_small_numbers() {
    assert_eq!(isqrt(0), 0);
    assert_eq!(isqrt(1), 1);
    assert_eq!(isqrt(2), 1);
    assert_eq!(isqrt(3), 1);
    assert_eq!(isqrt(4), 2);
    assert_eq!(isqrt(8), 2);
    assert_eq!(isqrt(9), 3);
    assert_eq!(isqrt(99), 9);
    assert_eq!(isqrt(100), 10);
}

#[test]
fn isqrt_of_large_numbers() {
    assert_eq!(isqrt(1_000_000_000_000), 1_000_000);
    assert_eq!(isqrt(1_000_000_000_000 - 1), 999_999);
    assert_eq!(isqrt(u128::MAX), u64::MAX);
    assert_eq!(isqrt((u64::MAX as u128) * (u64::MAX as u128)), u64::MAX);
    assert_eq!(isqrt((u64::MAX as u128) * (u64::MAX as u128) - 1), u64::MAX - 1);
}

#[test]
fn isqrt_is_the_floor_of_the_root() {
    let mut n: u128 = 0;
    while n < 5000 {
        let r = isqrt(n) as u128;
        assert!(r * r <= n);
        assert!(n < (r + 1) * (r + 1));
        n += 1;
    }
}

#[test]
fn delta_spans_the_whole_range() {
    assert_eq!(delta(5, 3), 2);
    assert_eq!(delta(3, 5), -2);
    assert_eq!(delta(i32::MAX, i32::MIN), 4294967295);
    assert_eq!(delta(i32::MIN, i32::MAX), -4294967295);
}

#[test]
fn abs_wide_of_both_signs() {
    assert_eq!(abs_wide(0), 0);
    assert_eq!(abs_wide(7), 7);
    assert_eq!(abs_wide(-7), 7);
    assert_eq!(abs_wide(-4294967295), 4294967295);
    assert_eq!(abs_wide(i64::MIN), 9223372036854775808);
    assert_eq!(abs_wide(i64::MAX), 9223372036854775807);
}

#[test]
fn length_sq_is_the_sum_of_squares() {
    assert_eq!(length_sq(3, 4), 25);
    assert_eq!(length_sq(-3, 4), 25);
    assert_eq!(length_sq(0, 0), 0);
    assert_eq!(length_sq(4294967295, -4294967295), 2 * 4294967295u128 * 4294967295u128);
    assert_eq!(length_sq(i64::MIN, i64::MIN), 1u128 << 127);
}

#[test]
fn scale_multiplies_by_thousandths() {
    assert_eq!(scale(40_500, 1000), 40_500);
    assert_eq!(scale(40_500, 16), 648);
    assert_eq!(scale(1000, 270), 270);
    assert_eq!(scale(0, 999), 0);
}

#[test]
fn scale_rounds_toward_zero() {
    assert_eq!(scale(1, 999), 0);
    assert_eq!(scale(-1, 999), 0);
    assert_eq!(scale(1500, 1), 1);
    assert_eq!(scale(-1500, 1), -1);
    assert_eq!(scale(-648, 16), -10);
    assert_eq!(scale(648, -16), -10);
    assert_eq!(scale(-648, -16), 10);
}

#[test]
fn scale_at_the_ends_of_the_range() {
    assert_eq!(scale(i32::MIN, 4294967296), -9223372036854775);
    assert_eq!(scale(i32::MAX, 4294967296), 9223372032559808);
    assert_eq!(scale(i32::MIN, -4294967296), 9223372036854775);
    assert_eq!(scale(i32::MIN, i64::MIN), 19807040628566084398385987);
    assert_eq!(scale(i32::MIN, i64::MAX), -19807040628566084396238503);
}

#[test]
fn add_sat_adds_and_saturates() {
    assert_eq!(add_sat(5, 7), 12);
    assert_eq!(add_sat(5, -7), -2);
    assert_eq!(add_sat(i32::MAX, 1), i32::MAX);
    assert_eq!(add_sat(i32::MIN, -1), i32::MIN);
    assert_eq!(add_sat(0, 4611686018427387904), i32::MAX);
    assert_eq!(add_sat(0, -4611686018427387904), i32::MIN);
    assert_eq!(add_sat(i32::MIN, i128::MAX), i32::MAX);
    assert_eq!(add_sat(i32::MAX, i128::MIN), i32::MIN);
    assert_eq!(add_sat(i32::MIN, 4294967295), i32::MAX);
    assert_eq!(add_sat(i32::MIN, 4294967294), i32::MAX - 1);
    assert_eq!(add_sat(i32::MAX, -4294967295), i32::MIN);
}

#[test]
fn heading_of_a_three_four_five_offset() {
    assert_eq!(heading_of(3000, 4000), Heading { x: 600, y: 800 });
    assert_eq!(heading_of(-3000, 4000), Heading { x: -600, y: 800 });
    assert_eq!(heading_of(3000, -4000), Heading { x: 600, y: -800 });
    assert_eq!(heading_of(-3, -4), Heading { x: -600, y: -800 });
}

#[test]
fn heading_of_the_axes() {
    assert_eq!(heading_of(5, 0), Heading { x: 1000, y: 0 });
    assert_eq!(heading_of(-5, 0), Heading { x: -1000, y: 0 });
    assert_eq!(heading_of(0, 123456), Heading { x: 0, y: 1000 });
    assert_eq!(heading_of(0, -1), Heading { x: 0, y: -1000 });
}

#[test]
fn heading_of_no_offset_is_along_the_first_axis() {
    assert_eq!(heading_of(0, 0), Heading { x: 1000, y: 0 });
}

#[test]
fn heading_of_the_longest_offsets_stays_a_unit() {
    let h = heading_of(4294967295, 4294967295);
    assert_eq!(h, Heading { x: 707, y: 707 });
    let g = heading_of(-4294967296, 4294967296);
    assert!(g.x >= -1000 && g.x <= 0);
    assert!(g.y >= 0 && g.y <= 1000);
}

#[test]
fn heading_of_any_offset() {
    assert_eq!(heading_of(i64::MIN, 0), Heading { x: -1000, y: 0 });
    assert_eq!(heading_of(i64::MAX, i64::MIN), Heading { x: 707, y: -707 });
}

#[test]
fn heading_rounds_toward_zero() {
    // The root of 2 is 1: each component is 1000 / 1.
    assert_eq!(heading_of(1, 1), Heading { x: 1000, y: 1000 });
    // The root of 200 is 14: 10 * 1000 / 14 = 714.
    assert_eq!(heading_of(10, -10), Heading { x: 714, y: -714 });
}

#[test]
fn thrust_pushes_against_the_heading() {
    assert_eq!(thrust_of(Heading { x: 600, y: 800 }, 1000), (-600, -800));
    assert_eq!(thrust_of(Heading { x: -600, y: -800 }, 300_000), (180_000, 240_000));
    assert_eq!(thrust_of(Heading { x: 1000, y: 0 }, 69_000), (-69_000, 0));
    assert_eq!(thrust_of(Heading { x: 1000, y: 0 }, 0), (0, 0));
}

#[test]
fn thrust_saturates() {
    assert_eq!(thrust_of(Heading { x: i32::MIN, y: i32::MAX }, i32::MAX), (i32::MAX, i32::MIN));
}
