//! Joystick-to-differential-drive mapping in exact fixed-point arithmetic.
//!
//! Every quantity is an `i64` counting millionths of a unit (see [`SCALE`]):
//! stick axes, angles in degrees, and motor speeds alike.
pub mod interp;
pub mod motor;

pub use interp::{lerp, lerp_array, SCALE};
pub use motor::{
    calculate_motors_direction_velocity_vector, ANGLES, DEAD_ZONE, MOTOR_A_ANGLE_SPEEDS, MOTOR_B_ANGLE_SPEEDS,
};
