use catos::initrd::{files, find, parse_octal, strip_dot_slash_str, Initrd, TarFiles};

fn header(name: &[u8], size: usize, flag: u8) -> Vec<u8> {
    let mut h = vec![0u8; 512];
    h[..name.len()].copy_from_slice(name);
    let octal = format!("{:011o}", size);
    h[124..135].copy_from_slice(octal.as_bytes());
    h[156] = flag;
    h
}

fn member(name: &[u8], data: &[u8], flag: u8) -> Vec<u8> {
    let mut m = header(name, data.len(), flag);
    m.extend_from_slice(data);
    while m.len() % 512 != 0 {
        m.push(0);
    }
    m
}

fn archive() -> Vec<u8> {
    let mut t = Vec::new();
    t.extend(member(b"./", b"", b'5'));
    t.extend(member(b"./hello.txt", b"hello world\n", b'0'));
    t.extend(member(b"readme", &[b'x'; 700], 0));
    t.extend(member(&[0xff, 0xfe, b'a'], b"bad", b'0'));
    t.extend(vec![0u8; 1024]);
    t
}

#[test]
fn octal_fields() {
    assert_eq!(parse_octal(b"00000000017\0"), 15);
    assert_eq!(parse_octal(b"777 "), 511);
    assert_eq!(parse_octal(b"12389"), 83);
    assert_eq!(parse_octal(b""), 0);
    assert_eq!(parse_octal(b"x12"), 0);
    assert_eq!(parse_octal(b"77777777777\0"), 8589934591);
}

#[test]
fn dot_slash_is_stripped() {
    assert_eq!(strip_dot_slash_str("./a/b"), "a/b");
    assert_eq!(strip_dot_slash_str("a/b"), "a/b");
    assert_eq!(strip_dot_slash_str("."), ".");
    assert_eq!(strip_dot_slash_str("./"), "");
}

#[test]
fn lists_regular_files_in_order() {
    let t = archive();
    let fs = files(&t);
    let names: Vec<&str> = fs.iter().map(|f| f.name).collect();
    assert_eq!(names, vec!["hello.txt", "readme", "?"]);
    assert_eq!(fs[0].data, b"hello world\n");
    assert_eq!(fs[1].data.len(), 700);
    assert_eq!(fs[2].data, b"bad");
}

#[test]
fn walks_one_member_at_a_time() {
    let t = archive();
    let mut it = TarFiles::new(&t);
    assert_eq!(it.next().unwrap().name, "hello.txt");
    assert_eq!(it.offset, 1536);
    assert_eq!(it.next().unwrap().name, "readme");
    assert_eq!(it.next().unwrap().name, "?");
    assert!(it.next().is_none());
    assert!(it.next().is_none());
}

#[test]
fn find_takes_the_first_match() {
    let mut t = archive();
    let trailer = t.split_off(t.len() - 1024);
    t.extend(member(b"readme", b"second", b'0'));
    t.extend(trailer);
    let f = find(&t, "readme").unwrap();
    assert_eq!(f.data.len(), 700);
    assert!(find(&t, "missing").is_none());
    assert_eq!(find(&t, "hello.txt").unwrap().data, b"hello world\n");
}

#[test]
fn empty_and_short_archives_hold_nothing() {
    assert!(files(&[]).is_empty());
    assert!(files(&[1u8; 100]).is_empty());
    assert!(files(&vec![0u8; 2048]).is_empty());
}

#[test]
fn initrd_is_set_once() {
    let a = vec![1u8, 2];
    let b = vec![3u8];
    let mut cell = Initrd::new();
    assert!(cell.get().is_none());
    cell.init(&a);
    cell.init(&b);
    assert_eq!(cell.get().unwrap(), &[1u8, 2][..]);
}

#[test]
fn archive_fits_checks_every_member() {
    assert!(catos::initrd::archive_fits(&archive()));
    assert!(catos::initrd::archive_fits(&[]));
    // A regular member that claims more data than the archive holds.
    let mut t = header(b"big", 4096, b'0');
    t.extend_from_slice(&[1u8; 100]);
    assert!(!catos::initrd::archive_fits(&t));
    // A directory may claim anything: its data is never read.
    let mut d = header(b"dir", 4096, b'5');
    d.extend_from_slice(&[1u8; 100]);
    assert!(catos::initrd::archive_fits(&d));
}

#[test]
fn walk_stays_at_the_end_once_finished() {
    let t = archive();
    let mut it = TarFiles::new(&t);
    let mut n = 0;
    while it.next().is_some() {
        n += 1;
    }
    assert_eq!(n, 3);
    assert!(it.next().is_none());
    assert!(it.next().is_none());
    assert!(files(&t).len() <= t.len() / 512);
}
