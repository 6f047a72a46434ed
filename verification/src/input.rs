//! Decisions on push-button, light-sensor and LED levels.

use vstd::prelude::*;

verus! {

/// Which key was pressed, from the two readings the key loop makes: key 1
/// (PB1) first, then key 11 (PB11). Key 11 wins when both were pressed;
/// 0 means no key.
pub fn get_key_num(key1_pressed: bool, key11_pressed: bool) -> (key_num: i32)
    ensures
        key_num == (if key11_pressed {
            11int
        } else if key1_pressed {
            1
        } else {
            0
        }),
{
    let mut key_num: i32 = 0;
    if key1_pressed {
        key_num = 1;
    }
    if key11_pressed {
        key_num = 11;
    }
    key_num
}

/// The key number of a board with a single key: 1 when it was pressed.
pub fn get_single_key_num(key_pressed: bool) -> (key_num: i32)
    ensures
        key_num == (if key_pressed { 1int } else { 0 }),
{
    let mut key_num: i32 = 0;
    if key_pressed {
        key_num = 1;
    }
    key_num
}

/// The level of an LED pin after it is turned over: high becomes low and
/// low becomes high.
pub open spec fn turned(high: bool) -> bool {
    !high
}

/// Whether an LED pin that is turned over is driven high: when it was set
/// low; otherwise it is driven low.
pub fn led_turn(is_set_low: bool) -> (set_high: bool)
    ensures
        set_high == turned(!is_set_low),
{
    if is_set_low {
        true
    } else {
        false
    }
}

/// Law: turning an LED over twice leaves it at the level it had.
pub proof fn lemma_led_turn_twice(high: bool)
    ensures
        turned(turned(high)) == high,
{
}

/// The buzzer sounds while the light sensor reads high (dark).
pub fn buzzer_on_for(light_sensor_high: bool) -> (buzzer_on: bool)
    ensures
        buzzer_on == light_sensor_high,
{
    if light_sensor_high {
        true
    } else {
        false
    }
}

} // verus!
