//! Software ("bit-banged") I2C as the OLED driver drives it: every routine
//! appends the line levels that it sets, in order, to a list of bus
//! operations that the caller then applies to the SCL and SDA pins.
//!
//! The module also holds a model of the receiving side of the bus (start and
//! stop conditions, data bits clocked by SCL) and proves that what the
//! display receives is exactly the commands and data that were written.

use vstd::prelude::*;

verus! {

/// One level change on the two-wire bus: `Scl(true)` drives the clock line
/// high, `Sda(false)` drives the data line low, and so on.
#[derive(Clone, Copy, Debug, PartialEq, Eq, Structural)]
pub enum BusOp {
    Scl(bool),
    Sda(bool),
}

/// One byte that the OLED controller receives: a command or display data.
#[derive(Clone, Copy, Debug, PartialEq, Eq, Structural)]
pub enum Transfer {
    Command(u8),
    Data(u8),
}

/// The 8-bit write address of the SSD1306 on the bus.
pub const OLED_ADDRESS: u8 = 0x78;
/// Control byte that announces a command.
pub const CONTROL_COMMAND: u8 = 0x00;
/// Control byte that announces display data.
pub const CONTROL_DATA: u8 = 0x40;

// ---------------------------------------------------------------------------
// What the driver sends
// ---------------------------------------------------------------------------

/// Bit `i` of `b`, counted from the most significant bit (`i == 0`).
pub open spec fn msb_bit(b: u8, i: int) -> bool {
    (b & (0x80u8 >> (i as u8))) != 0u8
}

/// Both lines released high: SCL first, then SDA.
pub open spec fn release_ops() -> Seq<BusOp> {
    seq![BusOp::Scl(true), BusOp::Sda(true)]
}

/// Start condition: SDA falls while SCL is high, then SCL is pulled low.
pub open spec fn start_ops() -> Seq<BusOp> {
    seq![BusOp::Sda(true), BusOp::Scl(true), BusOp::Sda(false), BusOp::Scl(false)]
}

/// Stop condition: SDA rises while SCL is high.
pub open spec fn stop_ops() -> Seq<BusOp> {
    seq![BusOp::Sda(false), BusOp::Scl(true), BusOp::Sda(true)]
}

/// One data bit: set SDA, then pulse SCL.
pub open spec fn bit_ops(bit: bool) -> Seq<BusOp> {
    seq![BusOp::Sda(bit), BusOp::Scl(true), BusOp::Scl(false)]
}

/// The first `n` bits of `b`, most significant first.
pub open spec fn bits_ops(b: u8, n: nat) -> Seq<BusOp>
    decreases n,
{
    if n == 0 {
        Seq::empty()
    } else {
        bits_ops(b, (n - 1) as nat) + bit_ops(msb_bit(b, n - 1))
    }
}

/// A whole byte: eight data bits and one more clock pulse for the
/// acknowledge slot, whose answer is not read.
pub open spec fn send_byte_ops(b: u8) -> Seq<BusOp> {
    bits_ops(b, 8) + seq![BusOp::Scl(true), BusOp::Scl(false)]
}

pub open spec fn control_byte(t: Transfer) -> u8 {
    match t {
        Transfer::Command(_) => CONTROL_COMMAND,
        Transfer::Data(_) => CONTROL_DATA,
    }
}

pub open spec fn payload_byte(t: Transfer) -> u8 {
    match t {
        Transfer::Command(b) => b,
        Transfer::Data(b) => b,
    }
}

/// The bus operations of one transfer: start, address, control byte,
/// payload byte, stop.
pub open spec fn frame_ops(t: Transfer) -> Seq<BusOp> {
    start_ops() + send_byte_ops(OLED_ADDRESS) + send_byte_ops(control_byte(t)) + send_byte_ops(
        payload_byte(t),
    ) + stop_ops()
}

/// The bus operations of a list of transfers, one frame after the other.
pub open spec fn wire(ts: Seq<Transfer>) -> Seq<BusOp>
    decreases ts.len(),
{
    if ts.len() == 0 {
        Seq::empty()
    } else {
        wire(ts.drop_last()) + frame_ops(ts.last())
    }
}

pub proof fn lemma_wire_push(ts: Seq<Transfer>, t: Transfer)
    ensures
        wire(ts.push(t)) == wire(ts) + frame_ops(t),
{
    assert(ts.push(t).drop_last() =~= ts);
}

pub proof fn lemma_wire_concat(a: Seq<Transfer>, b: Seq<Transfer>)
    ensures
        wire(a + b) == wire(a) + wire(b),
    decreases b.len(),
{
    if b.len() == 0 {
        assert(a + b =~= a);
        assert(wire(a) + wire(b) =~= wire(a));
    } else {
        assert((a + b).drop_last() =~= a + b.drop_last());
        assert((a + b).last() == b.last());
        lemma_wire_concat(a, b.drop_last());
        assert(wire(a + b) =~= wire(a) + wire(b));
    }
}

// ---------------------------------------------------------------------------
// The routines that drive the bus
// ---------------------------------------------------------------------------

/// I2C start condition.
pub fn i2c_start(out: &mut Vec<BusOp>)
    ensures
        final(out)@ == old(out)@ + start_ops(),
{
    out.push(BusOp::Sda(true));
    out.push(BusOp::Scl(true));
    out.push(BusOp::Sda(false));
    out.push(BusOp::Scl(false));
    assert(out@ =~= old(out)@ + start_ops());
}

/// I2C stop condition.
pub fn i2c_stop(out: &mut Vec<BusOp>)
    ensures
        final(out)@ == old(out)@ + stop_ops(),
{
    out.push(BusOp::Sda(false));
    out.push(BusOp::Scl(true));
    out.push(BusOp::Sda(true));
    assert(out@ =~= old(out)@ + stop_ops());
}

/// Sends one byte, most significant bit first, followed by one extra clock
/// pulse in place of the acknowledge bit.
pub fn i2c_send_byte(out: &mut Vec<BusOp>, cbyte: u8)
    ensures
        final(out)@ == old(out)@ + send_byte_ops(cbyte),
{
    let mut i: u8 = 0;
    while i < 8
        invariant
            i <= 8,
            out@ == old(out)@ + bits_ops(cbyte, i as nat),
        decreases 8 - i,
    {
        let bit = cbyte & (0x80u8 >> i) != 0;
        if !bit {
            out.push(BusOp::Sda(false));
        } else {
            out.push(BusOp::Sda(true));
        }
        out.push(BusOp::Scl(true));
        out.push(BusOp::Scl(false));
        assert(bits_ops(cbyte, (i + 1) as nat) == bits_ops(cbyte, i as nat) + bit_ops(
            msb_bit(cbyte, i as int),
        ));
        assert(out@ =~= old(out)@ + bits_ops(cbyte, (i + 1) as nat));
        i = i + 1;
    }
    out.push(BusOp::Scl(true));
    out.push(BusOp::Scl(false));
    assert(out@ =~= old(out)@ + send_byte_ops(cbyte));
}

/// Writes one command byte to the OLED controller.
pub fn write_command(out: &mut Vec<BusOp>, command: u8)
    ensures
        final(out)@ == old(out)@ + frame_ops(Transfer::Command(command)),
{
    i2c_start(out);
    i2c_send_byte(out, OLED_ADDRESS);
    i2c_send_byte(out, CONTROL_COMMAND);
    i2c_send_byte(out, command);
    i2c_stop(out);
    assert(out@ =~= old(out)@ + frame_ops(Transfer::Command(command)));
}

/// Writes one byte of display data to the OLED controller.
pub fn write_data(out: &mut Vec<BusOp>, data: u8)
    ensures
        final(out)@ == old(out)@ + frame_ops(Transfer::Data(data)),
{
    i2c_start(out);
    i2c_send_byte(out, OLED_ADDRESS);
    i2c_send_byte(out, CONTROL_DATA);
    i2c_send_byte(out, data);
    i2c_stop(out);
    assert(out@ =~= old(out)@ + frame_ops(Transfer::Data(data)));
}

} // verus!
