use catos::fs::RamFs;
use catos::libc::{
    abs, atoi, isspace, lower, strcasecmp, strchr, strcmp, strlen, strncasecmp, strncmp, strncpy, strrchr, toupper, FILE,
};

#[test]
fn string_lengths() {
    assert_eq!(strlen(b"hello\0junk"), 5);
    assert_eq!(strlen(b"\0"), 0);
}

#[test]
fn comparisons() {
    assert_eq!(strcmp(b"abc\0", b"abc\0"), 0);
    assert_eq!(strcmp(b"abc\0", b"abd\0"), (b'c' as i32) - (b'd' as i32));
    assert_eq!(strcmp(b"ab\0", b"abc\0"), -(b'c' as i32));
    assert_eq!(strcmp(b"b\0", b"a\0"), 1);
    assert_eq!(strncmp(b"abcX\0", b"abcY\0", 3), 0);
    assert_eq!(strncmp(b"abcX\0", b"abcY\0", 4), (b'X' as i32) - (b'Y' as i32));
    assert_eq!(strncmp(b"ab\0", b"ab\0", 10), 0);
    assert_eq!(strncmp(b"x", b"y", 0), 0);
    assert_eq!(strcasecmp(b"DooM\0", b"doom\0"), 0);
    assert_eq!(strcasecmp(b"A\0", b"b\0"), -1);
    assert_eq!(strncasecmp(b"WADfile\0", b"wadX\0", 3), 0);
    assert_eq!(strncasecmp(b"WADfile\0", b"wadX\0", 4), (b'f' as i32) - (b'x' as i32));
    assert_eq!(lower(b'Q'), b'q');
    assert_eq!(lower(b'['), b'[');
}

#[test]
fn copies_with_padding() {
    let mut d = [9u8; 8];
    strncpy(&mut d, b"hi\0", 5);
    assert_eq!(d, [b'h', b'i', 0, 0, 0, 9, 9, 9]);
    let mut d = [9u8; 4];
    strncpy(&mut d, b"abcdef\0", 3);
    assert_eq!(d, [b'a', b'b', b'c', 9]);
}

#[test]
fn searches() {
    assert_eq!(strrchr(b"a/b/c\0", b'/' as i32), Some(3));
    assert_eq!(strrchr(b"abc\0", b'z' as i32), None);
    assert_eq!(strrchr(b"abc\0", 0), Some(3));
    assert_eq!(strrchr(b"a/b\0", 0x100 + b'/' as i32), Some(1));
    assert_eq!(strchr(b"doom1.wad\0", b".wad\0"), Some(5));
    assert_eq!(strchr(b"doom1.wad\0", b"\0"), Some(0));
    assert_eq!(strchr(b"ab\0", b"abc\0"), None);
    assert_eq!(strchr(b"aaab\0", b"ab\0"), Some(2));
    assert_eq!(strchr(b"abc\0", b"x\0"), None);
}

#[test]
fn character_classes() {
    assert_eq!(toupper(b'a' as i32), b'A' as i32);
    assert_eq!(toupper(b'Z' as i32), b'Z' as i32);
    assert_eq!(toupper(-1), 255);
    assert_eq!(toupper(0x161), b'A' as i32);
    assert_eq!(isspace(b' ' as i32), 1);
    assert_eq!(isspace(0x0b), 1);
    assert_eq!(isspace(b'x' as i32), 0);
    assert_eq!(isspace(0x120), 1);
    assert_eq!(abs(-5), 5);
    assert_eq!(abs(7), 7);
    assert_eq!(abs(i32::MIN), i32::MIN);
}

#[test]
fn numbers() {
    assert_eq!(atoi(b"42\0"), 42);
    assert_eq!(atoi(b"  \t-17xyz\0"), -17);
    assert_eq!(atoi(b"+8\0"), 8);
    assert_eq!(atoi(b"abc\0"), 0);
    assert_eq!(atoi(b"-\0"), 0);
    assert_eq!(atoi(b"2147483647\0"), i32::MAX);
    assert_eq!(atoi(b"4294967297\0"), 1);
    assert_eq!(atoi(b"-2147483647\0"), -i32::MAX);
}

#[test]
fn files_read_write_seek() {
    let mut fs = RamFs::new();
    fs.write("save0", b"0123456789");
    assert!(FILE::open(&fs, "missing", "rb").is_none());
    let mut f = FILE::open(&fs, "save0", "rb").unwrap();
    let mut buf = [0u8; 4];
    assert_eq!(f.fread(&mut buf, 2, 2), 2);
    assert_eq!(&buf, b"0123");
    assert_eq!(f.ftell(), 4);
    assert_eq!(f.fseek(-3, 2), 0);
    assert_eq!(f.ftell(), 7);
    let mut buf = [0u8; 4];
    assert_eq!(f.fread(&mut buf, 2, 2), 1);
    assert_eq!(&buf, b"789\0");
    assert_eq!(f.fseek(-100, 1), 0);
    assert_eq!(f.ftell(), 0);
    assert_eq!(f.fseek(5, 3), -1);
    assert_eq!(f.fseek(2, 0), 0);
    assert_eq!(f.ftell(), 2);
    assert_eq!(f.fclose(&mut fs), 0);
    assert_eq!(fs.read("save0"), Some(b"0123456789".to_vec()));
}

#[test]
fn written_files_are_stored_on_close() {
    let mut fs = RamFs::new();
    fs.write("cfg", b"abc");
    let mut f = FILE::open(&fs, "cfg", "wb").unwrap();
    assert_eq!(f.fseek(5, 0), 0);
    assert_eq!(f.fwrite(b"XYZW", 1, 2), 2);
    assert_eq!(f.ftell(), 7);
    assert_eq!(f.fclose(&mut fs), 0);
    assert_eq!(fs.read("cfg"), Some(b"abc\0\0XY".to_vec()));
    let mut f = FILE::open(&fs, "cfg", "a").unwrap();
    assert_eq!(f.fwrite(b"Q", 1, 1), 1);
    f.fclose(&mut fs);
    assert_eq!(fs.read("cfg"), Some(b"Qbc\0\0XY".to_vec()));
}

#[test]
fn atoi_parts_expose_the_sign_and_the_wrapped_digits() {
    assert_eq!(catos::libc::atoi_parts(b" -12\0"), (true, 12));
    assert_eq!(catos::libc::atoi_parts(b"+7\0"), (false, 7));
    // The one input whose negation overflows.
    assert_eq!(catos::libc::atoi_parts(b"-2147483648\0"), (true, i32::MIN));
}

#[test]
fn open_files_report_name_size_and_position() {
    let mut fs = catos::fs::RamFs::new();
    fs.write("demo", b"hello");
    let mut f = FILE::open(&fs, "demo", "r").unwrap();
    assert_eq!(f.name(), "demo");
    assert_eq!(f.size(), 5);
    assert_eq!(f.pos(), 0);
    f.fseek(9, 0);
    assert_eq!(f.pos(), 9);
    assert_eq!(f.size(), 5);
}

#[test]
fn strings_compare_equal_exactly_when_their_text_agrees() {
    assert_eq!(strcmp(b"abc\0xyz", b"abc\0"), 0);
    assert_ne!(strcmp(b"abc\0", b"abd\0"), 0);
    assert_ne!(strcmp(b"ab\0", b"abc\0"), 0);
    assert_eq!(strcasecmp(b"HeLLo\0", b"hello\0junk"), 0);
    assert_ne!(strcasecmp(b"hello\0", b"help\0"), 0);
}
