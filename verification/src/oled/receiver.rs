//! A model of the receiving end of the two-wire bus, and the proof that the
//! OLED receives exactly the transfers that the driver writes.

use vstd::prelude::*;

verus! {

use crate::oled::bus::{
    BusOp, Transfer, OLED_ADDRESS, CONTROL_COMMAND, CONTROL_DATA, msb_bit, start_ops, stop_ops,
    bit_ops, bits_ops, send_byte_ops, control_byte, payload_byte, frame_ops, wire, release_ops,
};

/// Line levels as the receiver sees them. `clocked` records a rising clock
/// edge since the last falling edge, start or stop.
pub struct BusState {
    pub scl: bool,
    pub sda: bool,
    pub clocked: bool,
}

/// What the receiver recognises on the bus.
pub enum BusEvent {
    Start,
    Stop,
    Bit(bool),
}

/// Both lines released high, nothing pending.
pub open spec fn idle() -> BusState {
    BusState { scl: true, sda: true, clocked: false }
}

/// The effect of one operation on the receiver's view of the bus.
pub open spec fn step_state(s: BusState, op: BusOp) -> BusState {
    match op {
        BusOp::Scl(v) => {
            if s.scl && !v {
                BusState { scl: false, sda: s.sda, clocked: false }
            } else if !s.scl && v {
                BusState { scl: true, sda: s.sda, clocked: true }
            } else {
                s
            }
        },
        BusOp::Sda(v) => {
            if s.scl && s.sda != v {
                BusState { scl: s.scl, sda: v, clocked: false }
            } else {
                BusState { scl: s.scl, sda: v, clocked: s.clocked }
            }
        },
    }
}

/// What the receiver recognises on one operation: a data bit when the clock
/// falls after having risen, a start when SDA falls while SCL is high, a
/// stop when SDA rises while SCL is high.
pub open spec fn step_events(s: BusState, op: BusOp) -> Seq<BusEvent> {
    match op {
        BusOp::Scl(v) => {
            if s.scl && !v && s.clocked {
                seq![BusEvent::Bit(s.sda)]
            } else {
                Seq::empty()
            }
        },
        BusOp::Sda(v) => {
            if s.scl && s.sda && !v {
                seq![BusEvent::Start]
            } else if s.scl && !s.sda && v {
                seq![BusEvent::Stop]
            } else {
                Seq::empty()
            }
        },
    }
}

pub open spec fn run_state(ops: Seq<BusOp>, s: BusState) -> BusState
    decreases ops.len(),
{
    if ops.len() == 0 {
        s
    } else {
        step_state(run_state(ops.drop_last(), s), ops.last())
    }
}

pub open spec fn run_events(ops: Seq<BusOp>, s: BusState) -> Seq<BusEvent>
    decreases ops.len(),
{
    if ops.len() == 0 {
        Seq::empty()
    } else {
        run_events(ops.drop_last(), s) + step_events(run_state(ops.drop_last(), s), ops.last())
    }
}

/// The events of one byte: its eight bits, most significant first, then the
/// acknowledge slot, in which SDA still holds the last bit.
pub open spec fn byte_events(b: u8) -> Seq<BusEvent> {
    Seq::new(8, |i: int| BusEvent::Bit(msb_bit(b, i))) + seq![BusEvent::Bit(msb_bit(b, 7))]
}

/// The events of one frame.
pub open spec fn frame_events(t: Transfer) -> Seq<BusEvent> {
    seq![BusEvent::Start] + byte_events(OLED_ADDRESS) + byte_events(control_byte(t))
        + byte_events(payload_byte(t)) + seq![BusEvent::Stop]
}

pub open spec fn transfers_events(ts: Seq<Transfer>) -> Seq<BusEvent>
    decreases ts.len(),
{
    if ts.len() == 0 {
        Seq::empty()
    } else {
        transfers_events(ts.drop_last()) + frame_events(ts.last())
    }
}

// ---------------------------------------------------------------------------
// Decoding received events back into transfers
// ---------------------------------------------------------------------------

/// Number of events in one frame: start, three bytes of nine bits, stop.
pub open spec fn frame_len() -> int {
    29
}

pub open spec fn bit_value(e: BusEvent) -> int {
    if e == BusEvent::Bit(true) {
        1
    } else {
        0
    }
}

pub open spec fn is_bit(e: BusEvent) -> bool {
    e is Bit
}

/// The byte whose bits, most significant first, are the 8 events from `at`.
pub open spec fn byte_value(f: Seq<BusEvent>, at: int) -> int {
    128 * bit_value(f[at]) + 64 * bit_value(f[at + 1]) + 32 * bit_value(f[at + 2]) + 16
        * bit_value(f[at + 3]) + 8 * bit_value(f[at + 4]) + 4 * bit_value(f[at + 5]) + 2
        * bit_value(f[at + 6]) + bit_value(f[at + 7])
}

/// The transfer that one frame of events carries, if it is a well-formed
/// write to the OLED with a command or data control byte.
pub open spec fn decode_frame(f: Seq<BusEvent>) -> Option<Transfer> {
    if f.len() == frame_len() && f[0] == BusEvent::Start && f[28] == BusEvent::Stop && (forall|
        i: int,
    | 1 <= i < 28 ==> #[trigger] is_bit(f[i])) && byte_value(f, 1) == OLED_ADDRESS {
        if byte_value(f, 10) == CONTROL_COMMAND {
            Some(Transfer::Command(byte_value(f, 19) as u8))
        } else if byte_value(f, 10) == CONTROL_DATA {
            Some(Transfer::Data(byte_value(f, 19) as u8))
        } else {
            None
        }
    } else {
        None
    }
}

/// Decodes a stream of events frame by frame.
pub open spec fn decode(ev: Seq<BusEvent>) -> Option<Seq<Transfer>>
    decreases ev.len(),
{
    if ev.len() == 0 {
        Some(Seq::empty())
    } else if ev.len() < frame_len() {
        None
    } else {
        match (decode(ev.take(ev.len() - frame_len())), decode_frame(
            ev.skip(ev.len() - frame_len()),
        )) {
            (Some(ts), Some(t)) => Some(ts.push(t)),
            _ => None,
        }
    }
}

// ---------------------------------------------------------------------------
// Proofs
// ---------------------------------------------------------------------------

pub proof fn lemma_run_concat(a: Seq<BusOp>, b: Seq<BusOp>, s: BusState)
    ensures
        run_state(a + b, s) == run_state(b, run_state(a, s)),
        run_events(a + b, s) == run_events(a, s) + run_events(b, run_state(a, s)),
    decreases b.len(),
{
    if b.len() == 0 {
        assert(a + b =~= a);
        assert(run_events(a, s) + run_events(b, run_state(a, s)) =~= run_events(a, s));
    } else {
        assert((a + b).drop_last() =~= a + b.drop_last());
        lemma_run_concat(a, b.drop_last(), s);
        assert(run_events(a + b, s) =~= run_events(a, s) + run_events(b, run_state(a, s)));
    }
}

proof fn lemma_run_one(op: BusOp, s: BusState)
    ensures
        run_state(seq![op], s) == step_state(s, op),
        run_events(seq![op], s) == step_events(s, op),
{
    let one = seq![op];
    assert(one.drop_last() =~= Seq::<BusOp>::empty());
    assert(one.last() == op);
    assert(run_state(one.drop_last(), s) == s);
    assert(run_events(one.drop_last(), s) =~= Seq::<BusEvent>::empty());
    assert(run_events(one, s) =~= step_events(s, op));
}

proof fn lemma_run_two(a: BusOp, b: BusOp, s: BusState)
    ensures
        run_state(seq![a, b], s) == step_state(step_state(s, a), b),
        run_events(seq![a, b], s) == step_events(s, a) + step_events(step_state(s, a), b),
{
    assert(seq![a, b] =~= seq![a] + seq![b]);
    lemma_run_concat(seq![a], seq![b], s);
    lemma_run_one(a, s);
    lemma_run_one(b, step_state(s, a));
}

proof fn lemma_run_bit(bit: bool, x: bool)
    ensures
        run_state(bit_ops(bit), BusState { scl: false, sda: x, clocked: false }) == (BusState {
            scl: false,
            sda: bit,
            clocked: false,
        }),
        run_events(bit_ops(bit), BusState { scl: false, sda: x, clocked: false }) == seq![
            BusEvent::Bit(bit),
        ],
{
    let s = BusState { scl: false, sda: x, clocked: false };
    assert(bit_ops(bit) =~= seq![BusOp::Sda(bit)] + seq![BusOp::Scl(true), BusOp::Scl(false)]);
    lemma_run_concat(seq![BusOp::Sda(bit)], seq![BusOp::Scl(true), BusOp::Scl(false)], s);
    lemma_run_one(BusOp::Sda(bit), s);
    let s1 = BusState { scl: false, sda: bit, clocked: false };
    lemma_run_two(BusOp::Scl(true), BusOp::Scl(false), s1);
    assert(run_events(bit_ops(bit), s) =~= seq![BusEvent::Bit(bit)]);
}

proof fn lemma_run_bits(b: u8, n: nat, x: bool)
    requires
        n <= 8,
    ensures
        run_state(bits_ops(b, n), BusState { scl: false, sda: x, clocked: false }) == (BusState {
            scl: false,
            sda: if n == 0 {
                x
            } else {
                msb_bit(b, n - 1)
            },
            clocked: false,
        }),
        run_events(bits_ops(b, n), BusState { scl: false, sda: x, clocked: false }) == Seq::new(
            n,
            |i: int| BusEvent::Bit(msb_bit(b, i)),
        ),
    decreases n,
{
    let s = BusState { scl: false, sda: x, clocked: false };
    if n == 0 {
        assert(run_events(bits_ops(b, n), s) =~= Seq::new(n, |i: int| BusEvent::Bit(msb_bit(b, i))));
    } else {
        let m = (n - 1) as nat;
        lemma_run_bits(b, m, x);
        lemma_run_concat(bits_ops(b, m), bit_ops(msb_bit(b, m as int)), s);
        let sm = run_state(bits_ops(b, m), s);
        lemma_run_bit(msb_bit(b, m as int), sm.sda);
        assert(run_events(bits_ops(b, n), s) =~= Seq::new(n, |i: int| BusEvent::Bit(msb_bit(b, i))));
    }
}

proof fn lemma_run_byte(b: u8, x: bool)
    ensures
        run_state(send_byte_ops(b), BusState { scl: false, sda: x, clocked: false }) == (BusState {
            scl: false,
            sda: msb_bit(b, 7),
            clocked: false,
        }),
        run_events(send_byte_ops(b), BusState { scl: false, sda: x, clocked: false })
            == byte_events(b),
{
    let s = BusState { scl: false, sda: x, clocked: false };
    lemma_run_bits(b, 8, x);
    lemma_run_concat(bits_ops(b, 8), seq![BusOp::Scl(true), BusOp::Scl(false)], s);
    let s8 = BusState { scl: false, sda: msb_bit(b, 7), clocked: false };
    lemma_run_two(BusOp::Scl(true), BusOp::Scl(false), s8);
    assert(run_events(send_byte_ops(b), s) =~= byte_events(b));
}

/// Both lines are released high (whether or not a clock edge is pending).
pub open spec fn released(s: BusState) -> bool {
    s.scl && s.sda
}

proof fn lemma_run_start(s: BusState)
    requires
        released(s),
    ensures
        run_state(start_ops(), s) == (BusState { scl: false, sda: false, clocked: false }),
        run_events(start_ops(), s) == seq![BusEvent::Start],
{
    let a = seq![BusOp::Sda(true), BusOp::Scl(true)];
    let b = seq![BusOp::Sda(false), BusOp::Scl(false)];
    assert(start_ops() =~= a + b);
    lemma_run_concat(a, b, s);
    lemma_run_two(BusOp::Sda(true), BusOp::Scl(true), s);
    lemma_run_two(BusOp::Sda(false), BusOp::Scl(false), run_state(a, s));
    assert(run_events(start_ops(), s) =~= seq![BusEvent::Start]);
}

proof fn lemma_run_stop(x: bool)
    ensures
        run_state(stop_ops(), BusState { scl: false, sda: x, clocked: false }) == idle(),
        run_events(stop_ops(), BusState { scl: false, sda: x, clocked: false }) == seq![
            BusEvent::Stop,
        ],
{
    let s = BusState { scl: false, sda: x, clocked: false };
    let a = seq![BusOp::Sda(false), BusOp::Scl(true)];
    let b = seq![BusOp::Sda(true)];
    assert(stop_ops() =~= a + b);
    lemma_run_concat(a, b, s);
    lemma_run_two(BusOp::Sda(false), BusOp::Scl(true), s);
    lemma_run_one(BusOp::Sda(true), BusState { scl: true, sda: false, clocked: true });
    assert(run_events(stop_ops(), s) =~= seq![BusEvent::Stop]);
}

/// Law: from a bus with both lines released, one frame is received as
/// start, the three bytes and stop, and leaves the bus idle.
pub proof fn lemma_frame_received(t: Transfer, s: BusState)
    requires
        released(s),
    ensures
        run_state(frame_ops(t), s) == idle(),
        run_events(frame_ops(t), s) == frame_events(t),
{
    let p1 = start_ops();
    let p2 = send_byte_ops(OLED_ADDRESS);
    let p3 = send_byte_ops(control_byte(t));
    let p4 = send_byte_ops(payload_byte(t));
    let p5 = stop_ops();
    lemma_run_start(s);
    let s1 = run_state(p1, s);
    lemma_run_concat(p1, p2, s);
    lemma_run_byte(OLED_ADDRESS, false);
    let s2 = run_state(p2, s1);
    lemma_run_concat(p1 + p2, p3, s);
    lemma_run_byte(control_byte(t), s2.sda);
    let s3 = run_state(p3, s2);
    lemma_run_concat(p1 + p2 + p3, p4, s);
    lemma_run_byte(payload_byte(t), s3.sda);
    let s4 = run_state(p4, s3);
    lemma_run_concat(p1 + p2 + p3 + p4, p5, s);
    lemma_run_stop(s4.sda);
    assert(run_events(frame_ops(t), s) =~= frame_events(t));
}

/// Law: from an idle bus, the operations of a list of transfers are
/// received as the frames of those transfers, in order, and leave the bus
/// idle.
pub proof fn lemma_wire_received(ts: Seq<Transfer>)
    ensures
        run_state(wire(ts), idle()) == idle(),
        run_events(wire(ts), idle()) == transfers_events(ts),
    decreases ts.len(),
{
    if ts.len() > 0 {
        lemma_wire_received(ts.drop_last());
        lemma_run_concat(wire(ts.drop_last()), frame_ops(ts.last()), idle());
        lemma_frame_received(ts.last(), idle());
    }
}

/// The eight bits of a byte, most significant first, give back the byte.
pub proof fn lemma_msb_bits_value(b: u8)
    ensures
        b as int == 128 * (if msb_bit(b, 0) { 1int } else { 0 }) + 64 * (if msb_bit(b, 1) {
            1int
        } else {
            0
        }) + 32 * (if msb_bit(b, 2) { 1int } else { 0 }) + 16 * (if msb_bit(b, 3) {
            1int
        } else {
            0
        }) + 8 * (if msb_bit(b, 4) { 1int } else { 0 }) + 4 * (if msb_bit(b, 5) {
            1int
        } else {
            0
        }) + 2 * (if msb_bit(b, 6) { 1int } else { 0 }) + (if msb_bit(b, 7) { 1int } else { 0 }),
{
    assert(b == 128 * (if b & 0x80u8 != 0u8 { 1u8 } else { 0u8 }) + 64 * (if b & 0x40u8 != 0u8 {
        1u8
    } else {
        0u8
    }) + 32 * (if b & 0x20u8 != 0u8 { 1u8 } else { 0u8 }) + 16 * (if b & 0x10u8 != 0u8 {
        1u8
    } else {
        0u8
    }) + 8 * (if b & 0x08u8 != 0u8 { 1u8 } else { 0u8 }) + 4 * (if b & 0x04u8 != 0u8 {
        1u8
    } else {
        0u8
    }) + 2 * (if b & 0x02u8 != 0u8 { 1u8 } else { 0u8 }) + (if b & 0x01u8 != 0u8 {
        1u8
    } else {
        0u8
    })) by (bit_vector);
    assert(0x80u8 >> 0u8 == 0x80u8) by (bit_vector);
    assert(0x80u8 >> 1u8 == 0x40u8) by (bit_vector);
    assert(0x80u8 >> 2u8 == 0x20u8) by (bit_vector);
    assert(0x80u8 >> 3u8 == 0x10u8) by (bit_vector);
    assert(0x80u8 >> 4u8 == 0x08u8) by (bit_vector);
    assert(0x80u8 >> 5u8 == 0x04u8) by (bit_vector);
    assert(0x80u8 >> 6u8 == 0x02u8) by (bit_vector);
    assert(0x80u8 >> 7u8 == 0x01u8) by (bit_vector);
}

proof fn lemma_byte_events_value(b: u8, f: Seq<BusEvent>, at: int)
    requires
        0 <= at,
        at + 9 <= f.len(),
        f.subrange(at, at + 9) == byte_events(b),
    ensures
        byte_value(f, at) == b as int,
        forall|i: int| at <= i < at + 9 ==> #[trigger] is_bit(f[i]),
{
    lemma_msb_bits_value(b);
    assert forall|i: int| at <= i < at + 9 implies #[trigger] is_bit(f[i]) by {
        assert(f[i] == f.subrange(at, at + 9)[i - at]);
    }
    assert(f[at] == byte_events(b)[0]);
    assert(f[at + 1] == byte_events(b)[1]);
    assert(f[at + 2] == byte_events(b)[2]);
    assert(f[at + 3] == byte_events(b)[3]);
    assert(f[at + 4] == byte_events(b)[4]);
    assert(f[at + 5] == byte_events(b)[5]);
    assert(f[at + 6] == byte_events(b)[6]);
    assert(f[at + 7] == byte_events(b)[7]);
}

/// Law: the receiver decodes the events of one frame into the transfer
/// that the frame was written for.
pub proof fn lemma_decode_frame(t: Transfer)
    ensures
        decode_frame(frame_events(t)) == Some(t),
{
    let f = frame_events(t);
    assert(f.len() == 29);
    assert(f.subrange(1, 10) =~= byte_events(OLED_ADDRESS));
    assert(f.subrange(10, 19) =~= byte_events(control_byte(t)));
    assert(f.subrange(19, 28) =~= byte_events(payload_byte(t)));
    lemma_byte_events_value(OLED_ADDRESS, f, 1);
    lemma_byte_events_value(control_byte(t), f, 10);
    lemma_byte_events_value(payload_byte(t), f, 19);
    assert forall|i: int| 1 <= i < 28 implies #[trigger] is_bit(f[i]) by {
        if i < 10 {
        } else if i < 19 {
        } else {
        }
    }
}

proof fn lemma_transfers_events_len(ts: Seq<Transfer>)
    ensures
        transfers_events(ts).len() == frame_len() * ts.len(),
    decreases ts.len(),
{
    if ts.len() > 0 {
        lemma_transfers_events_len(ts.drop_last());
    }
}

/// Law: decoding what the receiver sees of the written frames gives back
/// the transfers.
pub proof fn lemma_decode_transfers(ts: Seq<Transfer>)
    ensures
        decode(transfers_events(ts)) == Some(ts),
    decreases ts.len(),
{
    if ts.len() > 0 {
        let ev = transfers_events(ts);
        let prev = transfers_events(ts.drop_last());
        lemma_transfers_events_len(ts.drop_last());
        lemma_transfers_events_len(ts);
        assert(ev.take(ev.len() - frame_len()) =~= prev);
        assert(ev.skip(ev.len() - frame_len()) =~= frame_events(ts.last()));
        lemma_decode_transfers(ts.drop_last());
        lemma_decode_frame(ts.last());
        assert(ts.drop_last().push(ts.last()) =~= ts);
    }
}

/// Law (what the display receives of a write): from an idle bus, the OLED
/// decodes the bus operations of a list of transfers into exactly that list,
/// and the bus is idle again afterwards.
pub proof fn lemma_oled_receives(ts: Seq<Transfer>)
    ensures
        decode(run_events(wire(ts), idle())) == Some(ts),
        run_state(wire(ts), idle()) == idle(),
{
    lemma_wire_received(ts);
    lemma_decode_transfers(ts);
}

/// From a bus with both lines released, a non-empty list of transfers is
/// received as its frames and leaves the bus idle.
proof fn lemma_wire_received_released(ts: Seq<Transfer>, s: BusState)
    requires
        released(s),
        ts.len() > 0,
    ensures
        run_state(wire(ts), s) == idle(),
        run_events(wire(ts), s) == transfers_events(ts),
    decreases ts.len(),
{
    let m = ts.drop_last();
    lemma_run_concat(wire(m), frame_ops(ts.last()), s);
    if m.len() == 0 {
        assert(wire(m) =~= Seq::<BusOp>::empty());
        assert(transfers_events(m) =~= Seq::<BusEvent>::empty());
        lemma_frame_received(ts.last(), s);
        assert(run_events(wire(ts), s) =~= transfers_events(ts));
    } else {
        lemma_wire_received_released(m, s);
        lemma_frame_received(ts.last(), idle());
    }
}

/// Law (start-up from any line levels): releasing SCL and then SDA, as
/// `init_oled_config` does first, shows the receiver at most a stop
/// condition and no data, whatever the lines were doing before; the
/// transfers that follow are then received and decoded exactly, and the
/// bus ends idle.
pub proof fn lemma_received_after_release(ts: Seq<Transfer>, s: BusState)
    requires
        ts.len() > 0,
    ensures
        run_events(release_ops(), s).len() <= 1,
        forall|i: int|
            0 <= i < run_events(release_ops(), s).len() ==> #[trigger] run_events(
                release_ops(),
                s,
            )[i] == BusEvent::Stop,
        run_events(release_ops() + wire(ts), s) == run_events(
            release_ops(),
            s,
        ) + transfers_events(ts),
        decode(transfers_events(ts)) == Some(ts),
        run_state(release_ops() + wire(ts), s) == idle(),
{
    let r = release_ops();
    assert(r =~= seq![BusOp::Scl(true), BusOp::Sda(true)]);
    lemma_run_two(BusOp::Scl(true), BusOp::Sda(true), s);
    lemma_run_concat(r, wire(ts), s);
    lemma_wire_received_released(ts, run_state(r, s));
    lemma_decode_transfers(ts);
}

} // verus!
