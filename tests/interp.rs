use joydrive::{lerp, lerp_array, ANGLES, MOTOR_A_ANGLE_SPEEDS, MOTOR_B_ANGLE_SPEEDS, SCALE};

const S: i64 = SCALE;

#[test]
fn test_lerp_01() {
    assert_eq!(lerp(0, 0, S, 0, 100 * S), 0)
}

#[test]
fn test_lerp_02() {
    assert_eq!(lerp(S / 2, 0, S, 0, 100 * S), 50 * S)
}

#[test]
fn test_lerp_03() {
    assert_eq!(lerp(S, 0, S, 0, 100 * S), 100 * S)
}

#[test]
fn test_lerp_04() {
    assert_eq!(lerp(75 * S, 50 * S, 100 * S, 0, 100 * S), 50 * S)
}

#[test]
fn test_lerp_min_clamp() {
    assert_eq!(lerp(S, 50 * S, 100 * S, 0, 100 * S), 0)
}

#[test]
fn test_lerp_max_clamp() {
    assert_eq!(lerp(110 * S, 50 * S, 100 * S, 0, 100 * S), 100 * S)
}

#[test]
fn test_lerp_motor_exact() {
    for (idx, &i) in ANGLES.iter().enumerate() {
        assert_eq!(lerp_array(i, &ANGLES, &MOTOR_A_ANGLE_SPEEDS), MOTOR_A_ANGLE_SPEEDS[idx]);
        assert_eq!(lerp_array(i, &ANGLES, &MOTOR_B_ANGLE_SPEEDS), MOTOR_B_ANGLE_SPEEDS[idx]);
    }
}

#[test]
fn test_lerp_motor_interpolated() {
    assert_eq!(lerp_array(-67_500_000, &ANGLES, &MOTOR_A_ANGLE_SPEEDS), -S / 2);
}

#[test]
fn test_lerp_motor_min_clamp() {
    assert_eq!(lerp_array(-1000 * S, &ANGLES, &MOTOR_A_ANGLE_SPEEDS), MOTOR_A_ANGLE_SPEEDS[0]);
}

#[test]
fn test_lerp_motor_max_clamp() {
    assert_eq!(
        lerp_array(1000 * S, &ANGLES, &MOTOR_A_ANGLE_SPEEDS),
        MOTOR_A_ANGLE_SPEEDS[MOTOR_A_ANGLE_SPEEDS.len() - 1]
    );
}

#[test]
fn lerp_falling_range() {
    assert_eq!(lerp(0, -S, S, S, -S), 0);
    assert_eq!(lerp(-2 * S, -S, S, S, -S), S);
    assert_eq!(lerp(2 * S, -S, S, S, -S), -S);
}

#[test]
fn lerp_rounds_to_nearest_step() {
    assert_eq!(lerp(1, 0, 3, 0, 1), 0);
    assert_eq!(lerp(2, 0, 3, 0, 1), 1);
    // halves round away from the start output
    assert_eq!(lerp(1, 0, 2, 0, 1), 1);
    assert_eq!(lerp(1, 0, 2, 1, 0), 0);
}

#[test]
fn lerp_endpoints_exact_on_odd_ranges() {
    assert_eq!(lerp(-7, -7, 13, 5, -3), 5);
    assert_eq!(lerp(13, -7, 13, 5, -3), -3);
    assert_eq!(lerp(4, 4, 5, 9, 9), 9);
}

#[test]
fn lerp_monotonic_samples() {
    let mut prev = lerp(-10, 0, 7, -3, 11);
    for v in -9..20 {
        let cur = lerp(v, 0, 7, -3, 11);
        assert!(prev <= cur);
        prev = cur;
    }
}

#[test]
fn lerp_full_i64_range() {
    assert_eq!(lerp(i64::MAX, i64::MIN, i64::MAX, i64::MIN, i64::MAX), i64::MAX);
    assert_eq!(lerp(i64::MIN, i64::MIN, i64::MAX, i64::MIN, i64::MAX), i64::MIN);
    assert_eq!(lerp(0, i64::MIN, i64::MAX, i64::MIN, i64::MAX), 0);
    assert_eq!(lerp(0, i64::MIN, i64::MAX, i64::MAX, i64::MIN), -1);
}

#[test]
fn lerp_array_motor_b_interpolated() {
    assert_eq!(lerp_array(22_500_000, &ANGLES, &MOTOR_B_ANGLE_SPEEDS), S / 2);
    assert_eq!(lerp_array(-157_500_000, &ANGLES, &MOTOR_B_ANGLE_SPEEDS), -S / 2);
}

#[test]
fn lerp_array_single_breakpoint() {
    assert_eq!(lerp_array(0, &[3], &[7]), 7);
    assert_eq!(lerp_array(3, &[3], &[7]), 7);
    assert_eq!(lerp_array(9, &[3], &[7]), 7);
}

#[test]
fn lerp_array_wrap_ends_agree() {
    assert_eq!(
        lerp_array(-180 * S, &ANGLES, &MOTOR_A_ANGLE_SPEEDS),
        lerp_array(180 * S, &ANGLES, &MOTOR_A_ANGLE_SPEEDS)
    );
    assert_eq!(
        lerp_array(-180 * S, &ANGLES, &MOTOR_B_ANGLE_SPEEDS),
        lerp_array(180 * S, &ANGLES, &MOTOR_B_ANGLE_SPEEDS)
    );
}
