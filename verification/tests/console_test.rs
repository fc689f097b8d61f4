use catos::console::{Ansi, Console, DrawOp, WHITE};
use catos::font::{parse_font, u32 as le_word, Font, PSF2_MAGIC};

fn font8x16() -> Font {
    Font { glyph_start: 4, bpg: 16, height: 16, width: 8 }
}

// 8 + 3 columns of 8 + 8 = 40 pixels wide, 8 + 2 rows of 16 + 8 = 48 high.
fn small() -> Console {
    Console::new(font8x16(), 40, 48)
}

#[test]
fn geometry() {
    let c = small();
    assert_eq!(c.cols(), 3);
    assert_eq!(c.rows(), 2);
    let s = c.state();
    assert_eq!((s.col, s.row, s.ansi, s.cursor_visible, s.color), (0, 0, Ansi::Normal, false, WHITE));
}

#[test]
fn characters_advance_and_wrap() {
    let mut c = small();
    assert_eq!(c.put_char('a'), vec![DrawOp::Glyph { col: 0, row: 0, ch: 'a', color: WHITE }]);
    c.put_char('b');
    c.put_char('c');
    assert_eq!(c.state().col, 3);
    assert_eq!(
        c.put_char('d'),
        vec![DrawOp::Fill { col: 3, row: 0, color: 0 }, DrawOp::Glyph { col: 0, row: 1, ch: 'd', color: WHITE }]
    );
    assert_eq!((c.state().col, c.state().row), (1, 1));
}

#[test]
fn newline_at_the_bottom_scrolls() {
    let mut c = small();
    assert_eq!(c.put_char('\n'), vec![DrawOp::Fill { col: 0, row: 0, color: 0 }]);
    assert_eq!(c.state().row, 1);
    assert_eq!(c.put_char('\n'), vec![DrawOp::Fill { col: 0, row: 1, color: 0 }, DrawOp::Scroll]);
    assert_eq!((c.state().col, c.state().row), (0, 1));
}

#[test]
fn backspace_and_tab() {
    let mut c = Console::new(font8x16(), 200, 48);
    assert_eq!(c.put_char('\x08'), vec![]);
    c.put_char('x');
    assert_eq!(
        c.put_char('\x08'),
        vec![DrawOp::Fill { col: 1, row: 0, color: 0 }, DrawOp::Glyph { col: 0, row: 0, ch: ' ', color: WHITE }]
    );
    let ops = c.put_char('\t');
    assert_eq!(ops.len(), 4);
    assert_eq!(c.state().col, 4);
    assert_eq!(ops[3], DrawOp::Glyph { col: 3, row: 0, ch: ' ', color: WHITE });
}

#[test]
fn colour_escapes() {
    let mut c = Console::new(font8x16(), 200, 48);
    let ops = c.write_str("\x1b[31mA\x1b[0mB");
    assert_eq!(
        ops,
        vec![
            DrawOp::Glyph { col: 0, row: 0, ch: 'A', color: 0xFF0000 },
            DrawOp::Glyph { col: 1, row: 0, ch: 'B', color: 0xFFFFFF },
        ]
    );
    c.write_str("\x1b[1;32m");
    assert_eq!(c.state().color, 0x00FF00);
    c.write_str("\x1b[99m");
    assert_eq!(c.state().color, 0x00FF00);
    let ops = c.write_str("\x1bxQ\x1b[3zR");
    assert_eq!(ops.len(), 2);
    assert_eq!(c.state().ansi, Ansi::Normal);
    c.write_str("\x1b[12");
    assert_eq!(c.state().ansi, Ansi::Csi(12));
}

#[test]
fn clear_and_cursor() {
    let mut c = Console::new(font8x16(), 200, 48);
    c.write_str("\x1b[34mhi");
    assert_eq!(c.tick_cursor(), DrawOp::Fill { col: 2, row: 0, color: 0x0000FF });
    assert!(c.state().cursor_visible);
    assert_eq!(c.tick_cursor(), DrawOp::Fill { col: 2, row: 0, color: 0 });
    c.tick_cursor();
    assert_eq!(c.clear(), vec![DrawOp::Clear]);
    let s = c.state();
    assert_eq!((s.col, s.row, s.cursor_visible, s.color), (0, 0, false, WHITE));
}

#[test]
fn psf_headers() {
    let mut psf2 = vec![0u8; 32];
    psf2[0..4].copy_from_slice(&PSF2_MAGIC.to_le_bytes());
    psf2[8..12].copy_from_slice(&32u32.to_le_bytes());
    psf2[20..24].copy_from_slice(&16u32.to_le_bytes());
    psf2[24..28].copy_from_slice(&16u32.to_le_bytes());
    psf2[28..32].copy_from_slice(&8u32.to_le_bytes());
    assert_eq!(parse_font(&psf2), Font { glyph_start: 32, bpg: 16, height: 16, width: 8 });
    assert_eq!(le_word(&psf2, 0), 0x864a_b572);
    let psf1 = [0x36u8, 0x04, 0x00, 14];
    assert_eq!(parse_font(&psf1), Font { glyph_start: 4, bpg: 14, height: 14, width: 8 });
}

#[test]
fn colour_parameters_that_overflow_are_refused() {
    let mut c = small();
    let mut ops = Vec::new();
    for ch in "\x1b[429496729".chars() {
        assert!(c.accepts(ch));
        c.write_char(ch, &mut ops);
    }
    assert!(c.accepts('5'));
    assert!(!c.accepts('6'));
    assert!(c.accepts('m'));
    assert!(ops.is_empty());
    assert_eq!(c.state().ansi, Ansi::Csi(429496729));
}
