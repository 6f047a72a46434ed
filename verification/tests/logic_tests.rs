use bluepill::adc::{store_half, AdcHalf};
use bluepill::counters::{PulseCounter, RotaryEncoder};
use bluepill::input::{buzzer_on_for, get_key_num, get_single_key_num, led_turn};
use bluepill::motor::{next_speed, set_speed};
use bluepill::numfmt::pow;
use bluepill::timers::{
    blink, encoder_speed, get_count, idle, next_alarm, tick, tim2_update, IdleAction,
    TickState,
};

#[test]
fn pow_values() {
    assert_eq!(pow(10, 0), 1);
    assert_eq!(pow(10, 9), 1_000_000_000);
    assert_eq!(pow(16, 3), 4096);
    assert_eq!(pow(2, 31), 2_147_483_648);
    assert_eq!(pow(0, 0), 1);
    assert_eq!(pow(0, 5), 0);
}

#[test]
fn key_numbers() {
    assert_eq!(get_key_num(false, false), 0);
    assert_eq!(get_key_num(true, false), 1);
    assert_eq!(get_key_num(false, true), 11);
    assert_eq!(get_key_num(true, true), 11);
    assert_eq!(get_single_key_num(true), 1);
    assert_eq!(get_single_key_num(false), 0);
}

#[test]
fn led_and_buzzer_levels() {
    assert!(led_turn(true));
    assert!(!led_turn(false));
    // turning twice: low -> high -> low
    let first = led_turn(true);
    assert!(!led_turn(!first));
    assert!(buzzer_on_for(true));
    assert!(!buzzer_on_for(false));
}

#[test]
fn pulse_counter_counts_pending_interrupts() {
    let mut c = PulseCounter::new();
    assert!(c.on_interrupt(true));
    assert!(!c.on_interrupt(false));
    assert!(c.on_interrupt(true));
    assert_eq!(c.get(), 2);
}

#[test]
fn rotary_encoder_steps() {
    let mut e = RotaryEncoder::new();
    assert!(e.exti1(true, true));
    e.exti1(true, true);
    e.exti1(true, false);
    e.exti1(false, true);
    assert!(e.exti0(true, true));
    e.exti0(true, false);
    assert_eq!(e.count, 1);
    assert_eq!(e.add_to(10), 11);
    assert_eq!(e.count, 0);
    e.exti0(true, true);
    assert_eq!(e.get_rotary_encoder_count(), -1);
    assert_eq!(e.get_rotary_encoder_count(), 0);
}

#[test]
fn tim2_update_flag() {
    let mut c = PulseCounter::new();
    assert_eq!(tim2_update(&mut c, 0x1), Some(0xfffe));
    assert_eq!(tim2_update(&mut c, 0x1f), Some(0xfffe));
    assert_eq!(tim2_update(&mut c, 0x2), None);
    assert_eq!(c.get(), 2);
}

#[test]
fn encoder_counts_and_speed() {
    assert_eq!(get_count(5), 5);
    assert_eq!(get_count(0xFFFF), -1);
    assert_eq!(get_count(0x8000), -32768);
    assert_eq!(encoder_speed(100, 130), 30);
    assert_eq!(encoder_speed(130, 100), -30);
    assert_eq!(encoder_speed(65535, 1), 2);
    assert_eq!(encoder_speed(1, 65535), -2);
}

#[test]
fn alarm_and_blink() {
    assert_eq!(next_alarm(0), 3);
    assert_eq!(next_alarm(4_000_000_000), 4_000_000_003);
    let mut state = false;
    assert!(!blink(&mut state));
    assert!(state);
    assert!(blink(&mut state));
    assert!(!state);
}

#[test]
fn tick_changes_period_on_4th_and_12th() {
    let mut s = TickState { led_state: false, count: 0 };
    let mut restarts = Vec::new();
    for n in 1..=12 {
        let a = tick(&mut s);
        assert_eq!(a.led_high, n % 2 == 0);
        if let Some(ms) = a.restart_ms {
            restarts.push((n, ms));
        }
    }
    assert_eq!(restarts, vec![(4, 500), (12, 1000)]);
    assert_eq!(s.count, 0);
    assert!(!s.led_state);
}

#[test]
fn idle_actions() {
    assert!(matches!(idle(true), IdleAction::WaitForInterrupt));
    assert!(matches!(idle(false), IdleAction::Spin));
}

#[test]
fn motor_speed_cycle_and_drive() {
    let mut speed = 0;
    let mut seen = Vec::new();
    for _ in 0..11 {
        speed = next_speed(speed);
        seen.push(speed);
    }
    assert_eq!(seen, vec![20, 40, 60, 80, 100, -100, -80, -60, -40, -20, 0]);
    let d = set_speed(20);
    assert!(d.ain1_high && !d.ain2_high);
    assert_eq!(d.duty, 20);
    let d = set_speed(-20);
    assert!(!d.ain1_high && d.ain2_high);
    assert_eq!(d.duty, 20);
    assert_eq!(set_speed(-100).duty, 100);
    assert_eq!(set_speed(0).duty, 0);
}

#[test]
fn adc_halves() {
    let buf = [[0u16; 8]; 2];
    let s = [1, 2, 3, 4, 5, 6, 7, 8];
    assert_eq!(store_half(buf, Some(AdcHalf::First), s), [s, [0; 8]]);
    assert_eq!(store_half(buf, Some(AdcHalf::Second), s), [[0; 8], s]);
    assert_eq!(store_half(buf, None, s), buf);
}

#[test]
fn blink_task_alternates() {
    let mut state = false;
    for k in 0..10 {
        assert_eq!(blink(&mut state), k % 2 == 1);
        assert_eq!(state, k % 2 == 0);
    }
}
