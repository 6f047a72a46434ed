//! Counters kept by interrupt handlers: pulses of a sensor, key presses or
//! timer ticks, and the steps of a rotary encoder.

use vstd::prelude::*;

verus! {

/// A count of events, each recorded by an interrupt handler.
pub struct PulseCounter {
    pub count: u32,
}

impl PulseCounter {
    pub fn new() -> (c: PulseCounter)
        ensures
            c.count == 0,
    {
        PulseCounter { count: 0 }
    }

    /// An interrupt of the counted line: when its interrupt is pending, one
    /// more event is counted. Answers whether the pending bit is to be
    /// cleared, which is whenever it was set.
    pub fn on_interrupt(&mut self, pending: bool) -> (clear: bool)
        requires
            pending ==> old(self).count < u32::MAX,
        ensures
            clear == pending,
            final(self).count == old(self).count + (if pending { 1int } else { 0 }),
    {
        if pending {
            self.count = self.count + 1;
        }
        pending
    }

    /// The number of events counted so far.
    pub fn get(&self) -> (count: u32)
        ensures
            count == self.count,
    {
        self.count
    }
}

/// The step count after an interrupt of S1.
pub open spec fn stepped_back(count: int, s1_pending: bool, s2_low: bool) -> int {
    if s1_pending && s2_low {
        count - 1
    } else {
        count
    }
}

/// The step count after an interrupt of S2.
pub open spec fn stepped_forward(count: int, s2_pending: bool, s1_low: bool) -> int {
    if s2_pending && s1_low {
        count + 1
    } else {
        count
    }
}

/// Steps of a rotary encoder whose two outputs, S1 and S2, raise interrupts
/// on their falling edges. `count` holds the steps not yet taken by the main
/// loop.
pub struct RotaryEncoder {
    pub count: i32,
}

impl RotaryEncoder {
    pub fn new() -> (e: RotaryEncoder)
        ensures
            e.count == 0,
    {
        RotaryEncoder { count: 0 }
    }

    /// Interrupt of S1: when it is pending and S2 reads low, the knob turned
    /// back one step. Answers whether S1's pending bit is to be cleared.
    pub fn exti0(&mut self, s1_pending: bool, s2_low: bool) -> (clear: bool)
        requires
            s1_pending && s2_low ==> old(self).count > i32::MIN,
        ensures
            clear == s1_pending,
            final(self).count == stepped_back(old(self).count as int, s1_pending, s2_low),
    {
        if s1_pending {
            if s2_low {
                self.count = self.count - 1;
            }
        }
        s1_pending
    }

    /// Interrupt of S2: when it is pending and S1 reads low, the knob turned
    /// forward one step. Answers whether S2's pending bit is to be cleared.
    pub fn exti1(&mut self, s2_pending: bool, s1_low: bool) -> (clear: bool)
        requires
            s2_pending && s1_low ==> old(self).count < i32::MAX,
        ensures
            clear == s2_pending,
            final(self).count == stepped_forward(old(self).count as int, s2_pending, s1_low),
    {
        if s2_pending {
            if s1_low {
                self.count = self.count + 1;
            }
        }
        s2_pending
    }

    /// Takes the steps counted since the last call and starts again from 0.
    pub fn get_rotary_encoder_count(&mut self) -> (steps: i32)
        ensures
            steps == old(self).count,
            final(self).count == 0,
    {
        let tmp = self.count;
        self.count = 0;
        tmp
    }

    /// The main loop's running position: `num` plus the steps taken.
    pub fn add_to(&mut self, num: i32) -> (total: i32)
        requires
            i32::MIN <= num + old(self).count <= i32::MAX,
        ensures
            total == num + old(self).count,
            final(self).count == 0,
    {
        num + self.get_rotary_encoder_count()
    }
}

/// Law: a step forward and a step back, in either order, leave the step
/// count as it was; an interrupt with no step (pending bit clear or the other
/// output high) leaves it alone.
pub proof fn lemma_encoder_steps_cancel(count: int)
    ensures
        stepped_back(stepped_forward(count, true, true), true, true) == count,
        stepped_forward(stepped_back(count, true, true), true, true) == count,
        forall|p: bool, l: bool|
            !(p && l) ==> stepped_back(count, p, l) == count && stepped_forward(count, p, l)
                == count,
{
}

} // verus!
