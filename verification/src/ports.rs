//! Port programming as data.
//!
//! The drivers for the interrupt controller, the timer and the serial line
//! decide which bytes go to which I/O ports and in what order.  They hand
//! that order back as a list of `PortOp`s; the kernel performs it.

use vstd::prelude::*;

verus! {

/// One step of programming a device: write a byte to a port, or give a slow
/// device time to settle.
#[derive(Copy, Clone, PartialEq, Eq, Structural, Debug)]
pub enum PortOp {
    Out { port: u16, value: u8 },
    Wait,
}

/// A write of `value` to `port`.
pub open spec fn out(port: u16, value: u8) -> PortOp {
    PortOp::Out { port, value }
}

/// Bit 0 of a status register: a byte is waiting to be read (the keyboard
/// controller's output buffer, the serial line's data-ready bit).
pub open spec fn spec_data_ready(status: u8) -> bool {
    status % 2 == 1
}

/// Whether `status` says a byte is waiting to be read.
pub fn data_ready(status: u8) -> (r: bool)
    ensures
        r == spec_data_ready(status),
{
    assert(status & 1 == status % 2) by (bit_vector);
    status & 1 != 0
}

} // verus!
