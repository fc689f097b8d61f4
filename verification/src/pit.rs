//! The programmable interval timer, channel 0, set to fire `TICK_HZ` times a
//! second.

use vstd::prelude::*;
use crate::ports::{PortOp, out};
use crate::tasks::TICK_HZ;

verus! {

/// The timer's input clock in Hz.
pub const PIT_FREQ: u64 = 1193182;

/// The mode/command port and channel 0's data port.
pub const PIT_COMMAND: u16 = 0x43;
pub const PIT_CHANNEL0: u16 = 0x40;

/// Channel 0, low byte then high byte, mode 3 (square wave), binary.
pub const PIT_MODE: u8 = 0x36;

/// The reload value that divides the input clock down to `TICK_HZ`.
pub open spec fn spec_divisor() -> int {
    (PIT_FREQ / TICK_HZ) as int
}

/// The command, then the divisor's low and high byte.
pub open spec fn init_sequence() -> Seq<PortOp> {
    seq![
        out(PIT_COMMAND, PIT_MODE),
        out(PIT_CHANNEL0, (spec_divisor() % 256) as u8),
        out(PIT_CHANNEL0, (spec_divisor() / 256) as u8)
    ]
}

/// The reload value for channel 0.
pub fn divisor() -> (d: u16)
    ensures
        d == spec_divisor(),
        d == 11931,
{
    (PIT_FREQ / TICK_HZ) as u16
}

/// The port operations that program channel 0.  The kernel then empties the
/// keyboard controller's output buffer (see `ports::data_ready`).
pub fn init() -> (ops: Vec<PortOp>)
    ensures
        ops@ == init_sequence(),
{
    let d = divisor();
    let mut ops: Vec<PortOp> = Vec::new();
    ops.push(PortOp::Out { port: PIT_COMMAND, value: PIT_MODE });
    ops.push(PortOp::Out { port: PIT_CHANNEL0, value: (d % 256) as u8 });
    ops.push(PortOp::Out { port: PIT_CHANNEL0, value: (d / 256) as u8 });
    assert(ops@ =~= init_sequence());
    ops
}

} // verus!
