use catos::console::DrawOp;
use catos::font::Font;
use catos::render::{can_paint, draw_frame, fill_rect, paint, Screen};

fn tiny_font() -> Font {
    Font { glyph_start: 0, bpg: 2, height: 2, width: 8 }
}

fn screen() -> Screen {
    Screen { width: 20, height: 14, stride: 20 }
}

// Glyph 0 is blank, glyph 1 has row 0 = 1000_0001 and row 1 = 0100_0000.
fn font_bytes() -> Vec<u8> {
    vec![0, 0, 0x81, 0x40]
}

#[test]
fn glyph_draws_set_bits_in_colour_and_the_rest_black() {
    let mut frame = vec![7u32; 280];
    let op = DrawOp::Glyph { col: 0, row: 0, ch: '\u{1}', color: 0xABCDEF };
    assert!(can_paint(frame.len(), screen(), tiny_font(), &font_bytes(), 1, op));
    paint(&mut frame, screen(), tiny_font(), &font_bytes(), 1, op);
    // Cell (0, 0) starts at pixel (8, 8).
    for x in 0..8 {
        let top = frame[8 * 20 + 8 + x];
        let bottom = frame[9 * 20 + 8 + x];
        assert_eq!(top, if x == 0 || x == 7 { 0xABCDEF } else { 0 });
        assert_eq!(bottom, if x == 1 { 0xABCDEF } else { 0 });
    }
    assert_eq!(frame[8 * 20 + 7], 7);
    assert_eq!(frame[8 * 20 + 16], 7);
    assert_eq!(frame[10 * 20 + 8], 7);
}

#[test]
fn fill_paints_one_cell() {
    let mut frame = vec![0u32; 280];
    let op = DrawOp::Fill { col: 0, row: 1, color: 5 };
    assert!(can_paint(frame.len(), screen(), tiny_font(), &font_bytes(), 2, op));
    paint(&mut frame, screen(), tiny_font(), &font_bytes(), 2, op);
    let count = frame.iter().filter(|&&p| p == 5).count();
    assert_eq!(count, 16);
    assert_eq!(frame[10 * 20 + 8], 5);
    assert_eq!(frame[11 * 20 + 15], 5);
    assert_eq!(frame[12 * 20 + 8], 0);
}

#[test]
fn scroll_moves_text_rows_up_and_blanks_the_last() {
    let mut frame: Vec<u32> = (0..280).collect();
    paint(&mut frame, screen(), tiny_font(), &font_bytes(), 2, DrawOp::Scroll);
    // The text area is rows 8..12 of the screen; one text row is 2 lines.
    assert_eq!(frame[8 * 20], 10 * 20);
    assert_eq!(frame[9 * 20 + 3], 11 * 20 + 3);
    assert_eq!(frame[10 * 20], 0);
    assert_eq!(frame[11 * 20 + 19], 0);
    assert_eq!(frame[7 * 20], 7 * 20);
    assert_eq!(frame[12 * 20], 12 * 20);
}

#[test]
fn clear_blanks_the_visible_screen_only() {
    let mut frame = vec![9u32; 300];
    paint(&mut frame, screen(), tiny_font(), &font_bytes(), 1, DrawOp::Clear);
    assert!(frame[..280].iter().all(|&p| p == 0));
    assert!(frame[280..].iter().all(|&p| p == 9));
}

#[test]
fn operations_that_do_not_fit_are_refused() {
    let f = font_bytes();
    // A cell past the right edge of its row.
    assert!(!can_paint(280, screen(), tiny_font(), &f, 1, DrawOp::Fill { col: 2, row: 0, color: 1 }));
    // A glyph past the end of the font.
    assert!(!can_paint(280, screen(), tiny_font(), &f, 1, DrawOp::Glyph { col: 0, row: 0, ch: 'A', color: 1 }));
    // Scrolling more text rows than the frame holds.
    assert!(!can_paint(280, screen(), tiny_font(), &f, 4, DrawOp::Scroll));
    assert!(!can_paint(280, screen(), tiny_font(), &f, 0, DrawOp::Scroll));
    // Clearing a screen larger than the frame.
    assert!(!can_paint(279, screen(), tiny_font(), &f, 1, DrawOp::Clear));
    // A font with no width.
    let flat = Font { glyph_start: 0, bpg: 2, height: 2, width: 0 };
    assert!(!can_paint(280, screen(), flat, &f, 1, DrawOp::Clear));
    // Huge indices do not overflow.
    assert!(!can_paint(280, screen(), tiny_font(), &f, 1, DrawOp::Fill { col: usize::MAX, row: usize::MAX, color: 1 }));
}

#[test]
fn fill_rect_colours_exactly_the_box() {
    let mut frame = vec![0u32; 50];
    fill_rect(&mut frame, 10, 2, 1, 3, 2, 4);
    for i in 0..50 {
        let (x, y) = (i % 10, i / 10);
        let inside = (2..5).contains(&x) && (1..3).contains(&y);
        assert_eq!(frame[i], if inside { 4 } else { 0 });
    }
}

#[test]
fn game_picture_of_screen_size_is_copied_pixel_for_pixel() {
    let doom: Vec<u32> = (0..640 * 400).collect();
    let mut frame = vec![0u32; 640 * 400];
    draw_frame(&mut frame, Screen { width: 640, height: 400, stride: 640 }, &doom);
    assert_eq!(frame, doom);
}

#[test]
fn game_picture_is_stretched_to_a_double_size_screen() {
    let doom: Vec<u32> = (0..640 * 400).collect();
    let mut frame = vec![0u32; 1280 * 800];
    draw_frame(&mut frame, Screen { width: 1280, height: 800, stride: 1280 }, &doom);
    assert_eq!(frame[0], 0);
    assert_eq!(frame[1], 0);
    assert_eq!(frame[2], 1);
    assert_eq!(frame[1280 * 2 + 4], 642);
}
