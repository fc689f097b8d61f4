use catos::fs::RamFs;

fn header(name: &[u8], size: usize) -> Vec<u8> {
    let mut h = vec![0u8; 512];
    h[..name.len()].copy_from_slice(name);
    let octal = format!("{:011o}", size);
    h[124..135].copy_from_slice(octal.as_bytes());
    h[156] = b'0';
    h
}

fn archive(members: &[(&[u8], &[u8])]) -> Vec<u8> {
    let mut t = Vec::new();
    for (name, data) in members {
        t.extend(header(name, data.len()));
        t.extend_from_slice(data);
        while t.len() % 512 != 0 {
            t.push(0);
        }
    }
    t.extend(vec![0u8; 1024]);
    t
}

#[test]
fn init_copies_the_ramdisk() {
    let t = archive(&[(b"./a.txt", b"alpha"), (b"b", b"")]);
    let mut fs = RamFs::new();
    fs.init(&t);
    let l = fs.list();
    assert_eq!(l, vec![(5u32, "a.txt".to_string()), (0u32, "b".to_string())]);
    assert_eq!(fs.read("a.txt"), Some(b"alpha".to_vec()));
    assert_eq!(fs.read("b"), Some(vec![]));
    assert_eq!(fs.read("c"), None);
}

#[test]
fn read_after_write() {
    let mut fs = RamFs::new();
    fs.write("x", b"one");
    assert_eq!(fs.read("x"), Some(b"one".to_vec()));
    fs.write("x", b"two!");
    assert_eq!(fs.read("x"), Some(b"two!".to_vec()));
    assert_eq!(fs.list().len(), 1);
    fs.write("y", b"other");
    assert_eq!(fs.read("x"), Some(b"two!".to_vec()));
    assert_eq!(fs.list(), vec![(4u32, "x".to_string()), (5u32, "y".to_string())]);
}

#[test]
fn remove_then_read() {
    let mut fs = RamFs::new();
    fs.write("a", b"1");
    fs.write("b", b"2");
    fs.remove("a");
    assert_eq!(fs.read("a"), None);
    assert_eq!(fs.read("b"), Some(b"2".to_vec()));
    fs.remove("missing");
    assert_eq!(fs.list().len(), 1);
}

#[test]
fn duplicate_names_from_the_ramdisk() {
    let t = archive(&[(b"d", b"first"), (b"d", b"second")]);
    let mut fs = RamFs::new();
    fs.init(&t);
    assert_eq!(fs.read("d"), Some(b"first".to_vec()));
    fs.write("d", b"new");
    assert_eq!(fs.list(), vec![(3u32, "d".to_string()), (6u32, "d".to_string())]);
    fs.remove("d");
    assert_eq!(fs.read("d"), Some(b"second".to_vec()));
}
