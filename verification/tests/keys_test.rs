use catos::keys::{serial_byte_key, Key, KeyBuffer, BUFFER_SIZE};
use catos::rawkeys::{KeyCode, RawBuffer, RawKey};

#[test]
fn keys_come_out_in_order() {
    let mut q = KeyBuffer::new_keys();
    assert_eq!(q.pop_key(), None);
    q.push_key(Key::Char('a'));
    q.push_key(Key::Up);
    q.push_key(Key::Char('b'));
    assert_eq!(q.len(), 3);
    assert_eq!(q.pop_key(), Some(Key::Char('a')));
    assert_eq!(q.pop_key(), Some(Key::Up));
    assert_eq!(q.pop_key(), Some(Key::Char('b')));
    assert_eq!(q.pop_key(), None);
}

#[test]
fn full_queue_drops_new_keys() {
    let mut q = KeyBuffer::new_keys();
    for i in 0..300u32 {
        q.push_key(Key::Char(char::from_u32('A' as u32 + (i % 26)).unwrap()));
    }
    assert_eq!(q.len(), BUFFER_SIZE - 1);
    assert_eq!(q.pop_key(), Some(Key::Char('A')));
    q.push_key(Key::Down);
    assert_eq!(q.len(), BUFFER_SIZE - 1);
    let mut last = None;
    while let Some(k) = q.pop_key() {
        last = Some(k);
    }
    assert_eq!(last, Some(Key::Down));
}

#[test]
fn queue_wraps_around() {
    let mut q = KeyBuffer::new_keys();
    for round in 0..10u32 {
        for i in 0..100u32 {
            q.push_key(Key::Char(char::from_u32(0x30 + (round + i) % 10).unwrap()));
        }
        for i in 0..100u32 {
            assert_eq!(q.pop_key(), Some(Key::Char(char::from_u32(0x30 + (round + i) % 10).unwrap())));
        }
    }
    assert_eq!(q.len(), 0);
}

#[test]
fn serial_bytes_become_keys() {
    assert_eq!(serial_byte_key(b'\r'), Key::Char('\n'));
    assert_eq!(serial_byte_key(0x7f), Key::Char('\x08'));
    assert_eq!(serial_byte_key(b'x'), Key::Char('x'));
    assert_eq!(serial_byte_key(b'\n'), Key::Char('\n'));
    assert_eq!(serial_byte_key(0xe9), Key::Char('\u{e9}'));
}

#[test]
fn raw_events_come_out_in_order() {
    let mut q = RawBuffer::new_raw();
    q.push_raw(RawKey::Press(KeyCode::W));
    q.push_raw(RawKey::Release(KeyCode::W));
    assert_eq!(q.pop_raw(), Some(RawKey::Press(KeyCode::W)));
    assert_eq!(q.pop_raw(), Some(RawKey::Release(KeyCode::W)));
    assert_eq!(q.pop_raw(), None);
}

#[test]
fn keys_come_out_in_the_order_they_went_in() {
    let mut b = KeyBuffer::new_keys();
    let keys: Vec<Key> = (0..255u8).map(|i| Key::Char(i as char)).collect();
    for k in &keys {
        b.push_key(*k);
    }
    for k in &keys {
        assert_eq!(b.pop_key(), Some(*k));
    }
    assert_eq!(b.pop_key(), None);
}
