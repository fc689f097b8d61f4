//! The first serial port: 38400 baud, 8 data bits, no parity, one stop bit,
//! FIFO on, an interrupt when a byte arrives.  Text sent to it has each line
//! feed preceded by a carriage return.

use vstd::prelude::*;
use crate::ports::{PortOp, out};
use vstd::string::StringSliceAdditionalSpecFns;

verus! {

/// The base I/O port of COM1.
pub const COM1: u16 = 0x3F8;

/// The line-setup sequence: interrupts off, divisor latch on, divisor 3,
/// 8N1, receive interrupt on, FIFO on and cleared, DTR/RTS/OUT2.
pub open spec fn init_sequence() -> Seq<PortOp> {
    seq![
        out((COM1 + 1) as u16, 0x00),
        out((COM1 + 3) as u16, 0x80),
        out(COM1, 0x03),
        out((COM1 + 1) as u16, 0x00),
        out((COM1 + 3) as u16, 0x03),
        out((COM1 + 1) as u16, 0x01),
        out((COM1 + 2) as u16, 0xC7),
        out((COM1 + 4) as u16, 0x0B)
    ]
}

/// The port operations that set the line up.
pub fn init() -> (ops: Vec<PortOp>)
    ensures
        ops@ == init_sequence(),
{
    let mut ops: Vec<PortOp> = Vec::new();
    ops.push(PortOp::Out { port: COM1 + 1, value: 0x00 });
    ops.push(PortOp::Out { port: COM1 + 3, value: 0x80 });
    ops.push(PortOp::Out { port: COM1, value: 0x03 });
    ops.push(PortOp::Out { port: COM1 + 1, value: 0x00 });
    ops.push(PortOp::Out { port: COM1 + 3, value: 0x03 });
    ops.push(PortOp::Out { port: COM1 + 1, value: 0x01 });
    ops.push(PortOp::Out { port: COM1 + 2, value: 0xC7 });
    ops.push(PortOp::Out { port: COM1 + 4, value: 0x0B });
    assert(ops@ =~= init_sequence());
    ops
}

/// The write that sends one byte.
pub fn writeb(byte: u8) -> (op: PortOp)
    ensures
        op == out(COM1, byte),
{
    PortOp::Out { port: COM1, value: byte }
}

/// `bytes` as sent on the line: a carriage return goes before each line feed.
pub open spec fn line_bytes(bytes: Seq<u8>) -> Seq<u8>
    decreases bytes.len(),
{
    if bytes.len() == 0 {
        Seq::empty()
    } else {
        let b = bytes.last();
        line_bytes(bytes.drop_last()) + if b == 10 { seq![13u8, 10u8] } else { seq![b] }
    }
}

/// Sending text in two pieces puts the same bytes on the line as sending it
/// at once.
pub proof fn law_serial_write_in_pieces(a: Seq<u8>, b: Seq<u8>)
    ensures
        line_bytes(a + b) == line_bytes(a) + line_bytes(b),
    decreases b.len(),
{
    if b.len() == 0 {
        assert(a + b =~= a);
        assert(line_bytes(a) + line_bytes(b) =~= line_bytes(a));
    } else {
        law_serial_write_in_pieces(a, b.drop_last());
        assert((a + b).drop_last() =~= a + b.drop_last());
        assert((a + b).last() == b.last());
        let tail = if b.last() == 10 { seq![13u8, 10u8] } else { seq![b.last()] };
        assert(line_bytes(a) + line_bytes(b) =~= line_bytes(a) + line_bytes(b.drop_last()) + tail);
    }
}

/// The serial line as a text sink.
pub struct Serial;

impl Serial {
    /// The bytes that writing `s` sends, in order.
    pub fn write_str(&self, s: &str) -> (sent: Vec<u8>)
        requires
            2 * s.spec_bytes().len() <= usize::MAX,
        ensures
            sent@ == line_bytes(s.spec_bytes()),
    {
        let bytes = s.as_bytes();
        let mut sent: Vec<u8> = Vec::new();
        let mut i: usize = 0;
        while i < bytes.len()
            invariant
                i <= bytes@.len(),
                bytes@ == s.spec_bytes(),
                sent@ == line_bytes(bytes@.take(i as int)),
            decreases bytes@.len() - i,
        {
            let b = bytes[i];
            if b == 10 {
                sent.push(13);
            }
            sent.push(b);
            assert(bytes@.take(i + 1).drop_last() =~= bytes@.take(i as int));
            i = i + 1;
        }
        assert(bytes@.take(i as int) =~= bytes@);
        sent
    }
}

} // verus!
