//! The DC motor driver: speed steps chosen with a key, and the direction
//! pins and PWM duty that a speed sets.

use vstd::prelude::*;

verus! {

/// The speed after one key press: 20 more, wrapping from above 100 round to
/// -100.
pub open spec fn speed_after_press(speed: int) -> int {
    if speed + 20 > 100 {
        -100
    } else {
        speed + 20
    }
}

/// The speeds the key cycles through: -100 to 100 in steps of 20.
pub open spec fn speed_in_cycle(speed: int) -> bool {
    -100 <= speed <= 100 && speed % 20 == 0
}

/// Speed after one key press.
pub fn next_speed(speed: i32) -> (next: i32)
    requires
        speed + 20 <= i32::MAX,
    ensures
        next == speed_after_press(speed as int),
{
    let mut next = speed + 20;
    if next > 100 {
        next = -100;
    }
    next
}

/// What a speed sets on the motor driver: the two direction inputs and the
/// PWM duty of the speed input.
pub struct MotorDrive {
    pub ain1_high: bool,
    pub ain2_high: bool,
    pub duty: u16,
}

/// The size of a speed, whichever way it turns.
pub open spec fn magnitude(speed: int) -> int {
    if speed >= 0 {
        speed
    } else {
        -speed
    }
}

/// Law: the size of a speed is the speed itself from zero up and its
/// negation below zero, so a speed and its negation have the same size.
pub proof fn lemma_magnitude(speed: int)
    ensures
        speed >= 0 ==> magnitude(speed) == speed,
        speed < 0 ==> magnitude(speed) == -speed,
        magnitude(speed) >= 0,
        magnitude(-speed) == magnitude(speed),
{
}

/// The driver settings for a speed: forward (AIN1 high, AIN2 low) for zero
/// and above, backward otherwise; the duty is the size of the speed, as the
/// 16-bit value that the PWM channel takes.
pub fn set_speed(speed: i32) -> (drive: MotorDrive)
    ensures
        drive.ain1_high == (speed >= 0),
        drive.ain2_high == (speed < 0),
        drive.duty == magnitude(speed as int) as u16,
        0 <= speed <= u16::MAX ==> drive.duty == speed,
        -(u16::MAX as int) <= speed < 0 ==> drive.duty == -speed,
{
    let size: u32 = if speed >= 0 {
        speed as u32
    } else {
        (0i64 - speed as i64) as u32
    };
    if speed >= 0 {
        MotorDrive { ain1_high: true, ain2_high: false, duty: size as u16 }
    } else {
        MotorDrive { ain1_high: false, ain2_high: true, duty: size as u16 }
    }
}

/// The speed after `n` key presses.
pub open spec fn speed_after_presses(speed: int, n: nat) -> int
    decreases n,
{
    if n == 0 {
        speed
    } else {
        speed_after_press(speed_after_presses(speed, (n - 1) as nat))
    }
}

/// Law: the key keeps the speed on its cycle of eleven values, and eleven
/// presses bring it back to where it was.
pub proof fn lemma_speed_cycle(speed: int)
    requires
        speed_in_cycle(speed),
    ensures
        speed_in_cycle(speed_after_press(speed)),
        speed_after_presses(speed, 11) == speed,
{
    reveal_with_fuel(speed_after_presses, 12);
    assert(speed == -100 || speed == -80 || speed == -60 || speed == -40 || speed == -20 || speed
        == 0 || speed == 20 || speed == 40 || speed == 60 || speed == 80 || speed == 100);
}

} // verus!
