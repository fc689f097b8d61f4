use catos::pic;
use catos::pit;
use catos::ports::{data_ready, PortOp};
use catos::serial::{self, Serial, COM1};

fn out(port: u16, value: u8) -> PortOp {
    PortOp::Out { port, value }
}

#[test]
fn pic_remaps_to_vectors_32_and_40() {
    let ops = pic::init();
    assert_eq!(ops.len(), 18);
    assert_eq!(ops[0], out(0x20, 0x11));
    assert_eq!(ops[1], PortOp::Wait);
    assert_eq!(ops[4], out(0x21, 32));
    assert_eq!(ops[6], out(0xA1, 40));
    assert_eq!(ops[16], out(0x21, 0));
    assert_eq!(ops[17], out(0xA1, 0));
}

#[test]
fn end_of_interrupt_acknowledges_the_right_controllers() {
    assert_eq!(pic::end_of_interrupt(0), vec![out(0x20, 0x20)]);
    assert_eq!(pic::end_of_interrupt(4), vec![out(0x20, 0x20)]);
    assert_eq!(pic::end_of_interrupt(12), vec![out(0xA0, 0x20), out(0x20, 0x20)]);
}

#[test]
fn pit_divides_down_to_100_hz() {
    assert_eq!(pit::divisor(), 11931);
    assert_eq!(pit::init(), vec![out(0x43, 0x36), out(0x40, 0x9B), out(0x40, 0x2E)]);
}

#[test]
fn serial_setup_sequence() {
    let ops = serial::init();
    assert_eq!(ops.len(), 8);
    assert_eq!(ops[1], out(0x3FB, 0x80));
    assert_eq!(ops[2], out(0x3F8, 0x03));
    assert_eq!(ops[7], out(0x3FC, 0x0B));
    assert_eq!(serial::writeb(b'x'), out(COM1, b'x'));
}

#[test]
fn serial_text_gets_carriage_returns() {
    assert_eq!(Serial.write_str("a\nb\n"), b"a\r\nb\r\n".to_vec());
    assert_eq!(Serial.write_str(""), Vec::<u8>::new());
    assert_eq!(Serial.write_str("\r"), b"\r".to_vec());
}

#[test]
fn status_bit_zero_means_data() {
    assert!(data_ready(0x01));
    assert!(data_ready(0x61));
    assert!(!data_ready(0x60));
    assert!(!data_ready(0));
}

#[test]
fn serial_text_sent_in_pieces_matches_text_sent_at_once() {
    let mut pieces = Serial.write_str("ab\n");
    pieces.extend(Serial.write_str("\ncd"));
    assert_eq!(pieces, Serial.write_str("ab\n\ncd"));
}
