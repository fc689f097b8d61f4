use catos::keys::Key;
use catos::shell::{is_whitespace, join_from, parse_command, split_whitespace, uptime, Command, LineEditor};

#[test]
fn splits_on_any_white_space() {
    assert_eq!(split_whitespace("  write  a.txt hello\tworld \n"), vec!["write", "a.txt", "hello", "world"]);
    assert_eq!(split_whitespace(""), Vec::<&str>::new());
    assert_eq!(split_whitespace(" \u{3000}x\u{a0}y"), vec!["x", "y"]);
    assert!(is_whitespace('\u{85}'));
    assert!(!is_whitespace('x'));
    assert!(!is_whitespace('\u{200b}'));
}

#[test]
fn joins_the_tail() {
    let ws = vec!["echo", "a", "b", "c"];
    assert_eq!(join_from(&ws, 1), "a b c");
    assert_eq!(join_from(&ws, 3), "c");
    assert_eq!(join_from(&ws, 4), "");
}

#[test]
fn commands_are_recognised() {
    assert!(matches!(parse_command(""), Command::Empty));
    assert!(matches!(parse_command("   "), Command::Empty));
    assert!(matches!(parse_command("help"), Command::Help));
    assert!(matches!(parse_command("doom"), Command::Doom));
    assert!(matches!(parse_command(" uptime "), Command::Uptime));
    assert!(matches!(parse_command("int3"), Command::Int3));
    assert!(matches!(parse_command("initrd"), Command::Initrd));
    assert!(matches!(parse_command("ls"), Command::Ls));
    assert!(matches!(parse_command("ps"), Command::Ps));
    assert!(matches!(parse_command("sleeptest"), Command::SleepTest));
    assert!(matches!(parse_command("clear"), Command::Clear));
    assert!(matches!(parse_command("fbtest"), Command::FbTest));
    match parse_command("echo   hi   there") {
        Command::Echo(s) => assert_eq!(s, "hi there"),
        _ => panic!("not echo"),
    }
    match parse_command("panic oh no") {
        Command::Panic(s) => assert_eq!(s, "oh no"),
        _ => panic!("not panic"),
    }
    match parse_command("cat a.txt") {
        Command::Cat(s) => assert_eq!(s, "a.txt"),
        _ => panic!("not cat"),
    }
    match parse_command("rm some file") {
        Command::Rm(s) => assert_eq!(s, "some file"),
        _ => panic!("not rm"),
    }
    match parse_command("Help") {
        Command::Unknown(s) => assert_eq!(s, "Help"),
        _ => panic!("not unknown"),
    }
}

#[test]
fn write_needs_two_arguments() {
    assert!(matches!(parse_command("write"), Command::WriteUsage));
    assert!(matches!(parse_command("write a.txt"), Command::WriteUsage));
    match parse_command("write a.txt hello  big world") {
        Command::Write { file, data } => {
            assert_eq!(file, "a.txt");
            assert_eq!(data, "hello big world");
        }
        _ => panic!("not write"),
    }
}

#[test]
fn uptime_splits_hours_minutes_seconds() {
    assert_eq!(uptime(0), (0, 0, 0));
    assert_eq!(uptime(99), (0, 0, 0));
    assert_eq!(uptime(100 * 3725), (1, 2, 5));
    assert_eq!(uptime(100 * 86400 * 2 + 100 * 61), (48, 1, 1));
}

fn typed(e: &mut LineEditor, s: &str) -> String {
    let mut out = String::new();
    for c in s.chars() {
        let o = e.handle_key(Key::Char(c));
        out.push_str(&o.before);
        assert!(o.run.is_none());
    }
    out
}

#[test]
fn typing_echoes_and_enter_runs() {
    let mut e = LineEditor::new();
    assert_eq!(typed(&mut e, "ls"), "ls");
    assert_eq!(e.line(), "ls");
    let o = e.handle_key(Key::Char('\n'));
    assert_eq!(o.before, "\n");
    assert_eq!(o.run.as_deref(), Some("ls"));
    assert_eq!(o.after, "catos> ");
    assert_eq!(e.line(), "");
    assert_eq!(e.history_len(), 1);
    assert_eq!(e.history_index(), 1);
}

#[test]
fn backspace_and_interrupt() {
    let mut e = LineEditor::new();
    typed(&mut e, "ab");
    let o = e.handle_key(Key::Char('\x08'));
    assert_eq!(o.before, "\x08 \x08");
    assert_eq!(e.line(), "a");
    e.handle_key(Key::Char('\x08'));
    let o = e.handle_key(Key::Char('\x08'));
    assert_eq!(o.before, "");
    typed(&mut e, "xyz");
    let o = e.handle_key(Key::Char('\x03'));
    assert_eq!(o.before, "^C\ncatos> ");
    assert_eq!(e.line(), "");
    let o = e.handle_key(Key::Left);
    assert_eq!(o.before, "");
}

#[test]
fn history_navigation() {
    let mut e = LineEditor::new();
    typed(&mut e, "one");
    e.handle_key(Key::Char('\n'));
    typed(&mut e, "two");
    e.handle_key(Key::Char('\n'));
    typed(&mut e, "é");
    let o = e.handle_key(Key::Up);
    // The line "é" takes two bytes, so two erase sequences come first.
    assert_eq!(o.before, "\x08 \x08\x08 \x08two");
    assert_eq!(e.line(), "two");
    let o = e.handle_key(Key::Up);
    assert_eq!(o.before, "\x08 \x08\x08 \x08\x08 \x08one");
    let o = e.handle_key(Key::Up);
    assert_eq!(e.line(), "one");
    assert_eq!(o.before, "\x08 \x08\x08 \x08\x08 \x08one");
    let o = e.handle_key(Key::Down);
    assert_eq!(e.line(), "two");
    assert_eq!(o.before, "\x08 \x08\x08 \x08\x08 \x08two");
    let o = e.handle_key(Key::Down);
    assert_eq!(e.line(), "");
    assert_eq!(o.before, "\x08 \x08\x08 \x08\x08 \x08");
    assert_eq!(e.history_index(), 2);
}

#[test]
fn up_on_empty_history_does_nothing() {
    let mut e = LineEditor::new();
    typed(&mut e, "q");
    let o = e.handle_key(Key::Up);
    assert_eq!(o.before, "");
    assert_eq!(e.line(), "q");
    let o = e.handle_key(Key::Down);
    assert_eq!(o.before, "\x08 \x08");
    assert_eq!(e.line(), "");
}

#[test]
fn cat_shows_text_or_a_placeholder() {
    assert_eq!(catos::shell::file_text(b"hello\n"), "hello\n");
    assert_eq!(catos::shell::file_text("h\u{e9}".as_bytes()), "h\u{e9}");
    assert_eq!(catos::shell::file_text(&[0x66, 0xff]), "<invalid utf-8>");
}

#[test]
fn cursor_blinks_once_per_half_second() {
    assert_eq!(catos::shell::cursor_blink(0, 0), None);
    assert_eq!(catos::shell::cursor_blink(49, 0), None);
    assert_eq!(catos::shell::cursor_blink(50, 0), Some(1));
    assert_eq!(catos::shell::cursor_blink(99, 1), None);
    assert_eq!(catos::shell::cursor_blink(250, 1), Some(5));
}
