//! Decisions of timer, alarm and scheduler tasks: the TIM2 update
//! interrupt, encoder speed sampling, the RTC alarm blinker, the RTIC tick
//! task with its changing period, the RTIC blink task and the idle task.

use vstd::prelude::*;

verus! {

use crate::counters::PulseCounter;

/// `stm32f1xx_hal::timer::Event::Update.bits()`: the update-interrupt flag,
/// bit 0 (`1 << 0` in the HAL's flag definitions).
#[verifier::external_body]
fn update_event_bits() -> (bits: u32)
    ensures
        bits == 1,
{
    stm32f1xx_hal::timer::Event::Update.bits()
}

/// `stm32f1xx_hal::timer::Event::from_bits_truncate(sr).contains(Event::Update)`:
/// whether bit 0 of the status register value `sr` is set.
#[verifier::external_body]
fn has_update_event(sr: u32) -> (set: bool)
    ensures
        set == (sr & 1u32 != 0u32),
{
    stm32f1xx_hal::timer::Event::from_bits_truncate(sr).contains(
        stm32f1xx_hal::timer::Event::Update,
    )
}

/// The TIM2 interrupt of the external-clock counter: when the status
/// register `sr` has the update flag set, one more period is counted and the
/// value to write back to the status register (every flag kept but the
/// update flag) is returned.
pub fn tim2_update(counter: &mut PulseCounter, sr: u32) -> (sr_write: Option<u32>)
    requires
        sr & 1u32 != 0u32 ==> old(counter).count < u32::MAX,
    ensures
        sr & 1u32 != 0u32 ==> sr_write == Some(0xfffeu32) && final(counter).count == old(
            counter,
        ).count + 1,
        sr & 1u32 == 0u32 ==> sr_write is None && final(counter).count == old(counter).count,
{
    if has_update_event(sr) {
        let update = update_event_bits();
        let value = 0xffff & !update;
        assert(0xffffu32 & !1u32 == 0xfffeu32) by (bit_vector);
        counter.on_interrupt(true);
        Some(value)
    } else {
        None
    }
}

/// The signed reading of a 16-bit encoder counter.
pub open spec fn as_signed16(raw: int) -> int {
    if raw < 0x8000 {
        raw
    } else {
        raw - 0x10000
    }
}

/// The encoder count read as a signed value: counts past 32767 are steps
/// backwards from 0.
pub fn get_count(raw: u16) -> (count: i16)
    ensures
        count as int == as_signed16(raw as int),
{
    assert((raw as i16) as int == if raw < 0x8000u16 {
        raw as int
    } else {
        raw as int - 0x10000
    }) by (bit_vector);
    raw as i16
}

/// Speed of the encoder over one sampling period: the signed difference of
/// two 16-bit counter readings, taken modulo 2^16.
pub fn encoder_speed(before: u16, after: u16) -> (speed: i16)
    ensures
        speed as int == as_signed16((after as int - before as int) % 0x10000),
{
    let diff = after.wrapping_sub(before);
    assert(diff as int == (after as int - before as int) % 0x10000);
    get_count(diff)
}

/// Law: the sampled speed added to the earlier reading gives the later
/// reading modulo 2^16, and a change of less than 2^15 either way is the
/// speed itself.
pub proof fn lemma_encoder_speed(before: u16, after: u16)
    ensures
        (before as int + as_signed16((after as int - before as int) % 0x10000)) % 0x10000
            == after as int,
        (-0x8000 < (after as int) - (before as int) && (after as int) - (before as int) < 0x8000)
            ==> as_signed16(
            (after as int - before as int) % 0x10000,
        ) == after as int - before as int,
{
}

/// Seconds between two toggles of the alarm-driven LED.
pub const TOGGLE_INTERVAL_SECONDS: u32 = 3;

/// The RTC alarm handler: the next alarm is set `TOGGLE_INTERVAL_SECONDS`
/// after the current time (and the LED is toggled).
pub fn next_alarm(current_time: u32) -> (alarm: u32)
    requires
        current_time + TOGGLE_INTERVAL_SECONDS <= u32::MAX,
    ensures
        alarm == current_time + TOGGLE_INTERVAL_SECONDS,
{
    current_time + TOGGLE_INTERVAL_SECONDS
}

/// One step of the blink task: the LED is driven high (off) when the state
/// is set and low (on) otherwise, and the state flips.
pub fn blink(state: &mut bool) -> (set_high: bool)
    ensures
        set_high == *old(state),
        *final(state) == !*old(state),
        *final(state) == blink_state(*old(state), 1),
{
    proof {
        reveal_with_fuel(blink_state, 2);
    }
    if *state {
        *state = false;
        true
    } else {
        *state = true;
        false
    }
}

/// The blink task's state before its `k`-th turn (counted from 0), when it
/// started from `start`.
pub open spec fn blink_state(start: bool, k: nat) -> bool
    decreases k,
{
    if k == 0 {
        start
    } else {
        !blink_state(start, (k - 1) as nat)
    }
}

/// Law (the blink task alternates): started with its state clear, the task
/// drives the LED low (on) on its even turns and high (off) on its odd
/// ones, and its state after turn `k` is set exactly when `k` is even.
pub proof fn lemma_blink_alternates(k: nat)
    ensures
        blink_state(false, k) == (k % 2 == 1),
        blink_state(false, k + 1) == (k % 2 == 0),
    decreases k,
{
    if k > 0 {
        lemma_blink_alternates((k - 1) as nat);
    }
}

/// Local state of the RTIC tick task.
pub struct TickState {
    pub led_state: bool,
    pub count: u8,
}

/// What one tick does besides driving the LED: restart the timer with a new
/// period, in milliseconds.
pub struct TickAction {
    pub led_high: bool,
    pub restart_ms: Option<u32>,
}

/// The tick state after one tick.
pub open spec fn tick_next(s: TickState) -> TickState {
    let count = s.count + 1;
    TickState { led_state: !s.led_state, count: if count == 12 { 0 } else { count as u8 } }
}

/// The timer period that one tick sets, if any: 500 ms on the 4th tick of a
/// round, 1 s on the 12th, which also ends the round.
pub open spec fn tick_restart(s: TickState) -> Option<u32> {
    if s.count + 1 == 4 {
        Some(500)
    } else if s.count + 1 == 12 {
        Some(1000)
    } else {
        None
    }
}

/// The count stays within a round of 12 ticks.
pub open spec fn tick_wf(s: TickState) -> bool {
    s.count < 12
}

/// The RTIC timer task: drives the LED high when its state is set (and
/// clears it) or low (and sets it), counts the tick, shortens the period to
/// 500 ms on the 4th tick and restores 1 s on the 12th, starting a new
/// round.
pub fn tick(state: &mut TickState) -> (action: TickAction)
    requires
        old(state).count < u8::MAX,
    ensures
        action.led_high == old(state).led_state,
        action.restart_ms == tick_restart(*old(state)),
        *final(state) == tick_next(*old(state)),
{
    let led_high = blink(&mut state.led_state);
    state.count = state.count + 1;
    let mut restart_ms: Option<u32> = None;
    if state.count == 4 {
        restart_ms = Some(500);
    } else if state.count == 12 {
        restart_ms = Some(1000);
        state.count = 0;
    }
    TickAction { led_high, restart_ms }
}

/// The tick state after `n` ticks.
pub open spec fn ticks(s: TickState, n: nat) -> TickState
    decreases n,
{
    if n == 0 {
        s
    } else {
        tick_next(ticks(s, (n - 1) as nat))
    }
}

/// Law: the tick count never leaves its round of 12.
pub proof fn lemma_tick_keeps_round(s: TickState)
    requires
        tick_wf(s),
    ensures
        tick_wf(tick_next(s)),
{
}

/// Law: twelve ticks bring the task back to the state it started a round in:
/// the LED state is the same (it flipped twelve times) and the count is 0.
pub proof fn lemma_tick_round(led_state: bool)
    ensures
        ticks(TickState { led_state, count: 0 }, 12) == (TickState { led_state, count: 0 }),
{
    reveal_with_fuel(ticks, 13);
}

/// What the idle task does on each turn of its loop.
pub enum IdleAction {
    /// Spin without sleeping.
    Spin,
    /// Sleep until the next interrupt.
    WaitForInterrupt,
}

/// One turn of the idle task: sleep until the next interrupt when the
/// application wants the core to sleep while idle, otherwise spin.
pub fn idle(sleep_when_idle: bool) -> (action: IdleAction)
    ensures
        sleep_when_idle ==> action is WaitForInterrupt,
        !sleep_when_idle ==> action is Spin,
{
    if sleep_when_idle {
        IdleAction::WaitForInterrupt
    } else {
        IdleAction::Spin
    }
}

} // verus!
