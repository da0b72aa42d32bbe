//! From a joystick position to the speeds of the two motors of a
//! differential drive.
use vstd::prelude::*;
use vstd::arithmetic::div_mod::{lemma_div_is_ordered, lemma_div_pos_is_pos, lemma_fundamental_div_mod_converse};
use crate::interp::{
    div_round, lemma_lerp_between_outputs, lemma_table_exact, lemma_table_value_between, lerp,
    lerp_array, lerp_spec, table_value, valid_table, SCALE,
};

verus! {

/// Squared stick magnitudes up to this (a tenth of a unit) leave the motors stopped.
pub const DEAD_ZONE: i64 = 100_000;

/// Stick directions, in millionths of a degree: the eight compass directions
/// clockwise from straight back, and straight back again.
pub const ANGLES: [i64; 9] = [
    -180_000_000,
    -135_000_000,
    -90_000_000,
    -45_000_000,
    0,
    45_000_000,
    90_000_000,
    135_000_000,
    180_000_000,
];

/// Share of full speed for motor A in each direction of [`ANGLES`].
pub const MOTOR_A_ANGLE_SPEEDS: [i64; 9] = [
    -1_000_000,
    -1_000_000,
    -1_000_000,
    0,
    1_000_000,
    1_000_000,
    1_000_000,
    0,
    -1_000_000,
];

/// Share of full speed for motor B in each direction of [`ANGLES`].
pub const MOTOR_B_ANGLE_SPEEDS: [i64; 9] = [
    -1_000_000,
    0,
    1_000_000,
    1_000_000,
    1_000_000,
    0,
    -1_000_000,
    -1_000_000,
    -1_000_000,
];

/// Both breakpoint tables are well formed, and every output is a share of full
/// speed in `[-SCALE, SCALE]`.
pub proof fn lemma_motor_tables_valid()
    ensures
        valid_table(ANGLES@, MOTOR_A_ANGLE_SPEEDS@),
        valid_table(ANGLES@, MOTOR_B_ANGLE_SPEEDS@),
        forall|k: int| 0 <= k < 9 ==> -SCALE <= #[trigger] MOTOR_A_ANGLE_SPEEDS@[k] <= SCALE,
        forall|k: int| 0 <= k < 9 ==> -SCALE <= #[trigger] MOTOR_B_ANGLE_SPEEDS@[k] <= SCALE,
{
}

/// Squared length of the stick vector `(x, y)`, rounded to the nearest step.
pub open spec fn squared_magnitude(x: int, y: int) -> int {
    div_round(x * x + y * y, SCALE as int)
}

/// Throttle from the stick's squared magnitude: zero inside the dead zone, full
/// from one unit on, and linear in between.
pub open spec fn drive_magnitude(x: int, y: int) -> int {
    lerp_spec(squared_magnitude(x, y), DEAD_ZONE as int, SCALE as int, 0, SCALE as int)
}

/// Product of two fixed-point values, rounded to the nearest step, halves away
/// from zero.
pub open spec fn fixed_mul(a: int, b: int) -> int {
    if a * b >= 0 {
        div_round(a * b, SCALE as int)
    } else {
        -div_round(-(a * b), SCALE as int)
    }
}

/// Speed of motor A for stick `(x, y)` pointing at `deg_angle`.
pub open spec fn motor_a_speed(x: int, y: int, deg_angle: int) -> int {
    fixed_mul(table_value(deg_angle, ANGLES@, MOTOR_A_ANGLE_SPEEDS@), drive_magnitude(x, y))
}

/// Speed of motor B for stick `(x, y)` pointing at `deg_angle`.
pub open spec fn motor_b_speed(x: int, y: int, deg_angle: int) -> int {
    fixed_mul(table_value(deg_angle, ANGLES@, MOTOR_B_ANGLE_SPEEDS@), drive_magnitude(x, y))
}

/// The throttle lies in `[0, SCALE]`.
pub proof fn lemma_drive_magnitude_range(x: int, y: int)
    ensures
        0 <= drive_magnitude(x, y) <= SCALE,
{
    lemma_lerp_between_outputs(squared_magnitude(x, y), DEAD_ZONE as int, SCALE as int, 0, SCALE as int);
}

/// The product of a share in `[-SCALE, SCALE]` and a throttle in `[0, SCALE]`
/// lies in `[-SCALE, SCALE]`.
pub proof fn lemma_fixed_mul_range(a: int, b: int)
    requires
        -SCALE <= a <= SCALE,
        0 <= b <= SCALE,
    ensures
        -SCALE <= fixed_mul(a, b) <= SCALE,
{
    let s = SCALE as int;
    let abs_a = if a >= 0 { a } else { -a };
    assert(abs_a * b <= s * s) by (nonlinear_arith)
        requires
            0 <= abs_a <= s,
            0 <= b <= s,
    ;
    assert(a * b == abs_a * b || -(a * b) == abs_a * b) by (nonlinear_arith)
        requires
            abs_a == a || abs_a == -a,
    ;
    assert(0 <= abs_a * b) by (nonlinear_arith)
        requires
            0 <= abs_a,
            0 <= b,
    ;
    assert(div_round(abs_a * b, s) <= s) by {
        lemma_div_is_ordered(abs_a * b + s / 2, s * s + s / 2, s);
        lemma_fundamental_div_mod_converse(s * s + s / 2, s, s, s / 2);
    };
    assert(0 <= div_round(abs_a * b, s)) by {
        lemma_div_pos_is_pos(abs_a * b + s / 2, s);
    };
}

/// Whatever the stick position and angle, each motor speed lies in
/// `[-SCALE, SCALE]`, full reverse to full forward.
pub proof fn lemma_motor_speeds_in_range(x: int, y: int, deg_angle: int)
    ensures
        -SCALE <= motor_a_speed(x, y, deg_angle) <= SCALE,
        -SCALE <= motor_b_speed(x, y, deg_angle) <= SCALE,
{
    lemma_motor_tables_valid();
    lemma_drive_magnitude_range(x, y);
    lemma_table_value_between(deg_angle, ANGLES@, MOTOR_A_ANGLE_SPEEDS@, -SCALE as int, SCALE as int);
    lemma_table_value_between(deg_angle, ANGLES@, MOTOR_B_ANGLE_SPEEDS@, -SCALE as int, SCALE as int);
    lemma_fixed_mul_range(table_value(deg_angle, ANGLES@, MOTOR_A_ANGLE_SPEEDS@), drive_magnitude(x, y));
    lemma_fixed_mul_range(table_value(deg_angle, ANGLES@, MOTOR_B_ANGLE_SPEEDS@), drive_magnitude(x, y));
}

/// Straight back is both -180 and +180 degrees: the two ends of the angle
/// range give the same motor speeds.
pub proof fn lemma_motor_speeds_wrap(x: int, y: int)
    ensures
        motor_a_speed(x, y, -180 * SCALE) == motor_a_speed(x, y, 180 * SCALE),
        motor_b_speed(x, y, -180 * SCALE) == motor_b_speed(x, y, 180 * SCALE),
{
    lemma_motor_tables_valid();
    lemma_table_exact(ANGLES@, MOTOR_A_ANGLE_SPEEDS@, 0);
    lemma_table_exact(ANGLES@, MOTOR_A_ANGLE_SPEEDS@, 8);
    lemma_table_exact(ANGLES@, MOTOR_B_ANGLE_SPEEDS@, 0);
    lemma_table_exact(ANGLES@, MOTOR_B_ANGLE_SPEEDS@, 8);
}

/// Rounded product of a share of full speed and a throttle.
fn scale_speed(share: i64, throttle: i64) -> (r: i64)
    requires
        -SCALE <= share <= SCALE,
        0 <= throttle <= SCALE,
    ensures
        r == fixed_mul(share as int, throttle as int),
{
    proof {
        lemma_fixed_mul_range(share as int, throttle as int);
        assert(-SCALE * SCALE <= share * throttle <= SCALE * SCALE) by (nonlinear_arith)
            requires
                -SCALE <= share <= SCALE,
                0 <= throttle <= SCALE,
        ;
    }
    let p: i64 = share * throttle;
    if p >= 0 {
        ((p as u64 + (SCALE / 2) as u64) / SCALE as u64) as i64
    } else {
        let q: u64 = ((-p) as u64 + (SCALE / 2) as u64) / SCALE as u64;
        -(q as i64)
    }
}

/// Speeds `(motor_a, motor_b)` for the stick at `(x, y)`, where `deg_angle` is
/// the stick's direction in millionths of a degree, measured from straight
/// ahead (`+y`) towards `+x`. The throttle is the squared magnitude
/// `x * x + y * y`, zero up to the dead zone and full from one unit on; each
/// motor runs at its table's share for `deg_angle` times the throttle.
pub fn calculate_motors_direction_velocity_vector(x: i64, y: i64, deg_angle: i64) -> (r: (i64, i64))
    ensures
        r.0 == motor_a_speed(x as int, y as int, deg_angle as int),
        r.1 == motor_b_speed(x as int, y as int, deg_angle as int),
        -SCALE <= r.0 <= SCALE,
        -SCALE <= r.1 <= SCALE,
{
    proof {
        lemma_motor_tables_valid();
        lemma_motor_speeds_in_range(x as int, y as int, deg_angle as int);
        lemma_drive_magnitude_range(x as int, y as int);
        lemma_table_value_between(deg_angle as int, ANGLES@, MOTOR_A_ANGLE_SPEEDS@, -SCALE as int, SCALE as int);
        lemma_table_value_between(deg_angle as int, ANGLES@, MOTOR_B_ANGLE_SPEEDS@, -SCALE as int, SCALE as int);
        assert(x * x <= 0x4000_0000_0000_0000_0000_0000_0000_0000) by (nonlinear_arith)
            requires
                -0x8000_0000_0000_0000 <= x <= 0x7fff_ffff_ffff_ffff,
        ;
        assert(y * y <= 0x4000_0000_0000_0000_0000_0000_0000_0000) by (nonlinear_arith)
            requires
                -0x8000_0000_0000_0000 <= y <= 0x7fff_ffff_ffff_ffff,
        ;
        assert(0 <= x * x && 0 <= y * y) by (nonlinear_arith);
    }
    let sum: u128 = (x as i128 * x as i128) as u128 + (y as i128 * y as i128) as u128;
    let squared: u128 = (sum + (SCALE / 2) as u128) / SCALE as u128;
    // any squared magnitude from one unit on gives full throttle
    let clamped: i64 = if squared > SCALE as u128 {
        SCALE
    } else {
        squared as i64
    };
    let throttle: i64 = lerp(clamped, DEAD_ZONE, SCALE, 0, SCALE);
    let share_a: i64 = lerp_array(deg_angle, &ANGLES, &MOTOR_A_ANGLE_SPEEDS);
    let share_b: i64 = lerp_array(deg_angle, &ANGLES, &MOTOR_B_ANGLE_SPEEDS);
    (scale_speed(share_a, throttle), scale_speed(share_b, throttle))
}

} // verus!
