//! The pair of 8259 interrupt controllers.
//!
//! Both are remapped so that the first serves vectors 32..40 and the second
//! 40..48, chained through line 2, in 8086 mode, with every line unmasked.

use vstd::prelude::*;
use crate::ports::{PortOp, out};

verus! {

pub const PIC1: u16 = 0x20;
pub const PIC2: u16 = 0xA0;

pub const PIC1_COMMAND: u16 = 0x20;
pub const PIC1_DATA: u16 = 0x21;

pub const PIC2_COMMAND: u16 = 0xA0;
pub const PIC2_DATA: u16 = 0xA1;

/// First vector of each controller after remapping.
pub const PIC1_OFFSET: u8 = 32;
pub const PIC2_OFFSET: u8 = 40;

/// The command that ends an interrupt.
pub const EOI: u8 = 0x20;

/// The initialisation sequence, each write but the two mask writes at the
/// end followed by a pause.
pub open spec fn init_sequence() -> Seq<PortOp> {
    seq![
        out(PIC1_COMMAND, 0x11), PortOp::Wait,
        out(PIC2_COMMAND, 0x11), PortOp::Wait,
        out(PIC1_DATA, PIC1_OFFSET), PortOp::Wait,
        out(PIC2_DATA, PIC2_OFFSET), PortOp::Wait,
        out(PIC1_DATA, 0x04), PortOp::Wait,
        out(PIC2_DATA, 0x02), PortOp::Wait,
        out(PIC1_DATA, 0x01), PortOp::Wait,
        out(PIC2_DATA, 0x01), PortOp::Wait,
        out(PIC1_DATA, 0), out(PIC2_DATA, 0)
    ]
}

/// Pushes a write of `value` to `port` and, where `pause`, a pause after it.
fn push_out(ops: &mut Vec<PortOp>, port: u16, value: u8, pause: bool)
    ensures
        final(ops)@ == if pause {
            old(ops)@.push(out(port, value)).push(PortOp::Wait)
        } else {
            old(ops)@.push(out(port, value))
        },
{
    ops.push(PortOp::Out { port, value });
    if pause {
        ops.push(PortOp::Wait);
    }
}

/// The port operations that remap and unmask both controllers, in order.
pub fn init() -> (ops: Vec<PortOp>)
    ensures
        ops@ == init_sequence(),
{
    let mut ops: Vec<PortOp> = Vec::new();
    push_out(&mut ops, PIC1_COMMAND, 0x11, true);
    push_out(&mut ops, PIC2_COMMAND, 0x11, true);
    push_out(&mut ops, PIC1_DATA, PIC1_OFFSET, true);
    push_out(&mut ops, PIC2_DATA, PIC2_OFFSET, true);
    push_out(&mut ops, PIC1_DATA, 0x04, true);
    push_out(&mut ops, PIC2_DATA, 0x02, true);
    push_out(&mut ops, PIC1_DATA, 0x01, true);
    push_out(&mut ops, PIC2_DATA, 0x01, true);
    push_out(&mut ops, PIC1_DATA, 0, false);
    push_out(&mut ops, PIC2_DATA, 0, false);
    assert(ops@ =~= init_sequence());
    ops
}

/// The writes that acknowledge interrupt line `irq`: lines served by the
/// second controller are acknowledged on both.
pub open spec fn eoi_sequence(irq: u8) -> Seq<PortOp> {
    if irq >= 8 {
        seq![out(PIC2_COMMAND, EOI), out(PIC1_COMMAND, EOI)]
    } else {
        seq![out(PIC1_COMMAND, EOI)]
    }
}

/// The port operations that end the handling of interrupt line `irq`.
pub fn end_of_interrupt(irq: u8) -> (ops: Vec<PortOp>)
    ensures
        ops@ == eoi_sequence(irq),
{
    let mut ops: Vec<PortOp> = Vec::new();
    if irq >= 8 {
        push_out(&mut ops, PIC2_COMMAND, EOI, false);
    }
    push_out(&mut ops, PIC1_COMMAND, EOI, false);
    assert(ops@ =~= eoi_sequence(irq));
    ops
}

} // verus!
