//! The text console on the framebuffer.
//!
//! The console keeps a cursor cell, a colour and the state of an ANSI
//! escape-sequence reader.  Printing decides which cells to draw, when to
//! wrap and when to scroll; it hands back the drawing operations in order
//! and the kernel paints them.  Only `ESC [ n m` (select graphic rendition)
//! is understood: 0 and 37 are white, 30..36 the other seven colours; any
//! other escape sequence is dropped.

use vstd::prelude::*;
use crate::font::Font;

verus! {

/// Blank border around the text area, in pixels.
pub const MARGIN: usize = 8;

/// The default text colour.
pub const WHITE: u32 = 0xFFFFFF;

/// Where the escape-sequence reader stands.
#[derive(Copy, Clone, PartialEq, Eq, Structural, Debug)]
pub enum Ansi {
    Normal,
    Esc,
    Csi(u32),
}

/// One thing to paint.
#[derive(Copy, Clone, PartialEq, Eq, Structural, Debug)]
pub enum DrawOp {
    /// Draw character `ch` in cell (`col`, `row`) in `color` on black.
    Glyph { col: usize, row: usize, ch: char, color: u32 },
    /// Fill cell (`col`, `row`) with `color` (the cursor block, or black).
    Fill { col: usize, row: usize, color: u32 },
    /// Move the text area up one text row and blank the last one.
    Scroll,
    /// Blank the whole screen.
    Clear,
}

/// The console's changing state.
#[derive(Copy, Clone, PartialEq, Eq, Structural, Debug)]
pub struct ConsoleState {
    pub col: usize,
    pub row: usize,
    pub ansi: Ansi,
    pub cursor_visible: bool,
    pub color: u32,
}

/// The console: the font, the screen size in pixels and the state.
pub struct Console {
    font: Font,
    width: usize,
    height: usize,
    state: ConsoleState,
}

/// Text columns that fit on a screen `width` pixels wide.
pub open spec fn spec_cols(width: int, fw: int) -> int {
    (width - 2 * MARGIN) / fw
}

/// Text rows that fit on a screen `height` pixels high.
pub open spec fn spec_rows(height: int, fh: int) -> int {
    (height - 2 * MARGIN) / fh
}

/// Moves to the start of the next row, scrolling at the bottom.
pub open spec fn sp_newline(s: ConsoleState, rows: int) -> (ConsoleState, Seq<DrawOp>) {
    let ops = seq![DrawOp::Fill { col: s.col, row: s.row, color: 0 }];
    if s.row + 1 >= rows {
        (ConsoleState { col: 0, ..s }, ops.push(DrawOp::Scroll))
    } else {
        (ConsoleState { col: 0, row: (s.row + 1) as usize, ..s }, ops)
    }
}

/// Steps back one cell and blanks it; nothing at the start of a row.
pub open spec fn sp_backspace(s: ConsoleState) -> (ConsoleState, Seq<DrawOp>) {
    if s.col == 0 {
        (s, Seq::empty())
    } else {
        (
            ConsoleState { col: (s.col - 1) as usize, ..s },
            seq![
                DrawOp::Fill { col: s.col, row: s.row, color: 0 },
                DrawOp::Glyph { col: (s.col - 1) as usize, row: s.row, ch: ' ', color: s.color },
            ],
        )
    }
}

/// Draws `c` at the cursor, wrapping first when the row is full.
pub open spec fn sp_print(s: ConsoleState, c: char, cols: int, rows: int) -> (ConsoleState, Seq<DrawOp>) {
    let (s1, ops) = if s.col >= cols { sp_newline(s, rows) } else { (s, Seq::empty()) };
    (
        ConsoleState { col: (s1.col + 1) as usize, ..s1 },
        ops.push(DrawOp::Glyph { col: s1.col, row: s1.row, ch: c, color: s1.color }),
    )
}

/// Prints a tab as four spaces.
pub open spec fn sp_tab(s: ConsoleState, cols: int, rows: int) -> (ConsoleState, Seq<DrawOp>) {
    let (s1, o1) = sp_print(s, ' ', cols, rows);
    let (s2, o2) = sp_print(s1, ' ', cols, rows);
    let (s3, o3) = sp_print(s2, ' ', cols, rows);
    let (s4, o4) = sp_print(s3, ' ', cols, rows);
    (s4, o1 + o2 + o3 + o4)
}

/// Handles one character of text: newline, backspace, tab or a glyph.
pub open spec fn sp_put_char(s: ConsoleState, c: char, cols: int, rows: int) -> (ConsoleState, Seq<DrawOp>) {
    if c == '\n' {
        sp_newline(s, rows)
    } else if c == '\x08' {
        sp_backspace(s)
    } else if c == '\t' {
        sp_tab(s, cols, rows)
    } else {
        sp_print(s, c, cols, rows)
    }
}

/// The colour that graphic rendition `n` selects, if it names one.
pub open spec fn sgr_color(n: u32) -> Option<u32> {
    if n == 0 { Some(0xFFFFFFu32) }
    else if n == 30 { Some(0x000000u32) }
    else if n == 31 { Some(0xFF0000u32) }
    else if n == 32 { Some(0x00FF00u32) }
    else if n == 33 { Some(0xFFFF00u32) }
    else if n == 34 { Some(0x0000FFu32) }
    else if n == 35 { Some(0xFF00FFu32) }
    else if n == 36 { Some(0x00FFFFu32) }
    else if n == 37 { Some(0xFFFFFFu32) }
    else { None }
}

/// `c` is an ASCII digit.
pub open spec fn is_digit(c: char) -> bool {
    '0' <= c && c <= '9'
}

/// Feeding `c` to the escape reader does not overflow its number.
pub open spec fn char_ok(s: ConsoleState, c: char) -> bool {
    match s.ansi {
        Ansi::Csi(n) => is_digit(c) ==> n * 10 + (c as u32 - 48) <= u32::MAX,
        _ => true,
    }
}

/// Feeds one character through the escape reader.
pub open spec fn sp_write_char(s: ConsoleState, c: char, cols: int, rows: int) -> (ConsoleState, Seq<DrawOp>) {
    match s.ansi {
        Ansi::Normal => {
            if c == '\x1b' {
                (ConsoleState { ansi: Ansi::Esc, ..s }, Seq::empty())
            } else {
                sp_put_char(s, c, cols, rows)
            }
        },
        Ansi::Esc => {
            (ConsoleState { ansi: if c == '[' { Ansi::Csi(0) } else { Ansi::Normal }, ..s }, Seq::empty())
        },
        Ansi::Csi(n) => {
            if is_digit(c) {
                (ConsoleState { ansi: Ansi::Csi((n * 10 + (c as u32 - 48)) as u32), ..s }, Seq::empty())
            } else if c == ';' {
                (ConsoleState { ansi: Ansi::Csi(0), ..s }, Seq::empty())
            } else if c == 'm' {
                let color = match sgr_color(n) {
                    Some(k) => k,
                    None => s.color,
                };
                (ConsoleState { ansi: Ansi::Normal, color, ..s }, Seq::empty())
            } else {
                (ConsoleState { ansi: Ansi::Normal, ..s }, Seq::empty())
            }
        },
    }
}

/// Feeds a whole string through the escape reader, in order.
pub open spec fn sp_write(s: ConsoleState, cs: Seq<char>, cols: int, rows: int) -> (ConsoleState, Seq<DrawOp>)
    decreases cs.len(),
{
    if cs.len() == 0 {
        (s, Seq::empty())
    } else {
        let (s1, o1) = sp_write(s, cs.drop_last(), cols, rows);
        let (s2, o2) = sp_write_char(s1, cs.last(), cols, rows);
        (s2, o1 + o2)
    }
}

/// No number in an escape sequence of `cs` overflows 32 bits.
pub open spec fn write_ok(s: ConsoleState, cs: Seq<char>, cols: int, rows: int) -> bool
    decreases cs.len(),
{
    cs.len() == 0 || (write_ok(s, cs.drop_last(), cols, rows)
        && char_ok(sp_write(s, cs.drop_last(), cols, rows).0, cs.last()))
}

/// The cursor lies inside a text area of `cols` by `rows` cells.
pub open spec fn in_area(s: ConsoleState, cols: int, rows: int) -> bool {
    s.col <= cols && s.row < rows
}

proof fn lemma_print_in_area(s: ConsoleState, c: char, cols: int, rows: int)
    requires
        in_area(s, cols, rows),
        cols >= 1,
    ensures
        in_area(sp_print(s, c, cols, rows).0, cols, rows),
{
}

proof fn lemma_write_in_area(s: ConsoleState, cs: Seq<char>, cols: int, rows: int)
    requires
        in_area(s, cols, rows),
        cols >= 1,
    ensures
        in_area(sp_write(s, cs, cols, rows).0, cols, rows),
    decreases cs.len(),
{
    if cs.len() > 0 {
        lemma_write_in_area(s, cs.drop_last(), cols, rows);
        let s1 = sp_write(s, cs.drop_last(), cols, rows).0;
        lemma_print_in_area(s1, cs.last(), cols, rows);
        lemma_print_in_area(s1, ' ', cols, rows);
        let a = sp_print(s1, ' ', cols, rows).0;
        lemma_print_in_area(a, ' ', cols, rows);
        let b = sp_print(a, ' ', cols, rows).0;
        lemma_print_in_area(b, ' ', cols, rows);
        let d = sp_print(b, ' ', cols, rows).0;
        lemma_print_in_area(d, ' ', cols, rows);
    }
}

impl Console {
    /// The state as it changes.
    pub closed spec fn view(&self) -> ConsoleState {
        self.state
    }

    /// The font the console draws with.
    pub closed spec fn spec_font(&self) -> Font {
        self.font
    }

    /// Number of text columns.
    pub closed spec fn spec_cols(&self) -> int {
        spec_cols(self.width as int, self.font.width as int)
    }

    /// Number of text rows.
    pub closed spec fn spec_rows(&self) -> int {
        spec_rows(self.height as int, self.font.height as int)
    }

    /// At least one cell fits on the screen and the cursor is in the text area.
    pub closed spec fn wf(&self) -> bool {
        &&& self.font.width >= 1
        &&& self.font.height >= 1
        &&& self.width >= 2 * MARGIN + self.font.width
        &&& self.height >= 2 * MARGIN + self.font.height
        &&& in_area(self.state, self.spec_cols(), self.spec_rows())
    }

    /// A console for a `width` by `height` pixel screen, cursor at the top
    /// left, white text, no pending escape sequence.
    pub fn new(font: Font, width: usize, height: usize) -> (c: Self)
        requires
            font.width >= 1,
            font.height >= 1,
            width >= 2 * MARGIN + font.width,
            height >= 2 * MARGIN + font.height,
        ensures
            c.wf(),
            c.spec_font() == font,
            c.spec_cols() == spec_cols(width as int, font.width as int),
            c.spec_rows() == spec_rows(height as int, font.height as int),
            c@ == (ConsoleState { col: 0, row: 0, ansi: Ansi::Normal, cursor_visible: false, color: WHITE }),
    {
        let c = Console {
            font,
            width,
            height,
            state: ConsoleState { col: 0, row: 0, ansi: Ansi::Normal, cursor_visible: false, color: WHITE },
        };
        proof { lemma_area_nonempty(width as int, font.width as int); lemma_area_nonempty(height as int, font.height as int); }
        c
    }

    /// The current state.
    pub fn state(&self) -> (s: ConsoleState)
        ensures
            s == self@,
    {
        self.state
    }

    /// Number of text columns.
    pub fn cols(&self) -> (n: usize)
        requires
            self.wf(),
        ensures
            n == self.spec_cols(),
            n >= 1,
    {
        proof { lemma_area_nonempty(self.width as int, self.font.width as int); }
        (self.width - MARGIN * 2) / self.font.width
    }

    /// Number of text rows.
    pub fn rows(&self) -> (n: usize)
        requires
            self.wf(),
        ensures
            n == self.spec_rows(),
            n >= 1,
    {
        proof { lemma_area_nonempty(self.height as int, self.font.height as int); }
        (self.height - MARGIN * 2) / self.font.height
    }

    fn newline(&mut self, ops: &mut Vec<DrawOp>)
        requires
            old(self).wf(),
        ensures
            final(self).wf(),
            final(self).spec_cols() == old(self).spec_cols(),
            final(self).spec_rows() == old(self).spec_rows(),
            final(self).spec_font() == old(self).spec_font(),
            final(self)@ == sp_newline(old(self)@, old(self).spec_rows()).0,
            final(ops)@ == old(ops)@ + sp_newline(old(self)@, old(self).spec_rows()).1,
    {
        let ghost before = ops@;
        ops.push(DrawOp::Fill { col: self.state.col, row: self.state.row, color: 0 });
        self.state.col = 0;
        let rows = self.rows();
        if self.state.row + 1 >= rows {
            ops.push(DrawOp::Scroll);
        } else {
            self.state.row = self.state.row + 1;
        }
        assert(ops@ =~= before + sp_newline(old(self)@, old(self).spec_rows()).1);
    }

    fn backspace(&mut self, ops: &mut Vec<DrawOp>)
        requires
            old(self).wf(),
        ensures
            final(self).wf(),
            final(self).spec_cols() == old(self).spec_cols(),
            final(self).spec_rows() == old(self).spec_rows(),
            final(self).spec_font() == old(self).spec_font(),
            final(self)@ == sp_backspace(old(self)@).0,
            final(ops)@ == old(ops)@ + sp_backspace(old(self)@).1,
    {
        let ghost before = ops@;
        if self.state.col == 0 {
            assert(ops@ =~= before + Seq::<DrawOp>::empty());
            return;
        }
        ops.push(DrawOp::Fill { col: self.state.col, row: self.state.row, color: 0 });
        self.state.col = self.state.col - 1;
        ops.push(DrawOp::Glyph { col: self.state.col, row: self.state.row, ch: ' ', color: self.state.color });
        assert(ops@ =~= before + sp_backspace(old(self)@).1);
    }

    fn print(&mut self, c: char, ops: &mut Vec<DrawOp>)
        requires
            old(self).wf(),
        ensures
            final(self).wf(),
            final(self).spec_cols() == old(self).spec_cols(),
            final(self).spec_rows() == old(self).spec_rows(),
            final(self).spec_font() == old(self).spec_font(),
            final(self)@ == sp_print(old(self)@, c, old(self).spec_cols(), old(self).spec_rows()).0,
            final(ops)@ == old(ops)@ + sp_print(old(self)@, c, old(self).spec_cols(), old(self).spec_rows()).1,
    {
        let ghost before = ops@;
        let ghost s0 = self@;
        let cols = self.cols();
        if self.state.col >= cols {
            self.newline(ops);
        } else {
            assert(ops@ =~= before + Seq::<DrawOp>::empty());
        }
        let ghost mid = ops@;
        let ghost s1 = self@;
        ops.push(DrawOp::Glyph { col: self.state.col, row: self.state.row, ch: c, color: self.state.color });
        self.state.col = self.state.col + 1;
        let ghost pre = if s0.col >= cols { sp_newline(s0, old(self).spec_rows()).1 } else { Seq::<DrawOp>::empty() };
        assert(mid == before + pre);
        assert(ops@ =~= before + pre.push(DrawOp::Glyph { col: s1.col, row: s1.row, ch: c, color: s1.color }));
    }

    /// Prints one character: newline, backspace, tab (four spaces) or a
    /// glyph, wrapping and scrolling as needed.  Returns what to paint.
    pub fn put_char(&mut self, c: char) -> (ops: Vec<DrawOp>)
        requires
            old(self).wf(),
        ensures
            final(self).wf(),
            final(self).spec_cols() == old(self).spec_cols(),
            final(self).spec_rows() == old(self).spec_rows(),
            final(self).spec_font() == old(self).spec_font(),
            (final(self)@, ops@) == sp_put_char(old(self)@, c, old(self).spec_cols(), old(self).spec_rows()),
    {
        let mut ops: Vec<DrawOp> = Vec::new();
        self.put_char_into(c, &mut ops);
        assert(ops@ =~= Seq::<DrawOp>::empty() + sp_put_char(old(self)@, c, old(self).spec_cols(), old(self).spec_rows()).1);
        ops
    }

    fn put_char_into(&mut self, c: char, ops: &mut Vec<DrawOp>)
        requires
            old(self).wf(),
        ensures
            final(self).wf(),
            final(self).spec_cols() == old(self).spec_cols(),
            final(self).spec_rows() == old(self).spec_rows(),
            final(self).spec_font() == old(self).spec_font(),
            final(self)@ == sp_put_char(old(self)@, c, old(self).spec_cols(), old(self).spec_rows()).0,
            final(ops)@ == old(ops)@ + sp_put_char(old(self)@, c, old(self).spec_cols(), old(self).spec_rows()).1,
    {
        if c == '\n' {
            self.newline(ops);
        } else if c == '\x08' {
            self.backspace(ops);
        } else if c == '\t' {
            let ghost o0 = ops@;
            let ghost s0 = self@;
            self.print(' ', ops);
            let ghost o1 = ops@;
            self.print(' ', ops);
            let ghost o2 = ops@;
            self.print(' ', ops);
            let ghost o3 = ops@;
            self.print(' ', ops);
            proof {
                let cols = old(self).spec_cols();
                let rows = old(self).spec_rows();
                let (a1, p1) = sp_print(s0, ' ', cols, rows);
                let (a2, p2) = sp_print(a1, ' ', cols, rows);
                let (a3, p3) = sp_print(a2, ' ', cols, rows);
                let (a4, p4) = sp_print(a3, ' ', cols, rows);
                assert(ops@ =~= o0 + (p1 + p2 + p3 + p4));
            }
        } else {
            self.print(c, ops);
        }
    }

    /// Selects the colour of graphic rendition `n`; other numbers change
    /// nothing.
    fn sgr(&mut self, n: u32)
        ensures
            final(self).font == old(self).font,
            final(self).width == old(self).width,
            final(self).height == old(self).height,
            final(self).state == (ConsoleState {
                color: match sgr_color(n) {
                    Some(k) => k,
                    None => old(self).state.color,
                },
                ..old(self).state
            }),
    {
        let color = if n == 0 {
            0xFFFFFF
        } else if n == 30 {
            0x000000
        } else if n == 31 {
            0xFF0000
        } else if n == 32 {
            0x00FF00
        } else if n == 33 {
            0xFFFF00
        } else if n == 34 {
            0x0000FF
        } else if n == 35 {
            0xFF00FF
        } else if n == 36 {
            0x00FFFF
        } else if n == 37 {
            0xFFFFFF
        } else {
            return;
        };
        self.state.color = color;
    }

    /// Feeds one character through the escape reader, appending what to
    /// paint to `ops`.
    pub fn write_char(&mut self, c: char, ops: &mut Vec<DrawOp>)
        requires
            old(self).wf(),
            char_ok(old(self)@, c),
        ensures
            final(self).wf(),
            final(self).spec_cols() == old(self).spec_cols(),
            final(self).spec_rows() == old(self).spec_rows(),
            final(self).spec_font() == old(self).spec_font(),
            final(self)@ == sp_write_char(old(self)@, c, old(self).spec_cols(), old(self).spec_rows()).0,
            final(ops)@ == old(ops)@ + sp_write_char(old(self)@, c, old(self).spec_cols(), old(self).spec_rows()).1,
    {
        let ghost before = ops@;
        match self.state.ansi {
            Ansi::Normal => {
                if c == '\x1b' {
                    self.state.ansi = Ansi::Esc;
                } else {
                    self.put_char_into(c, ops);
                    return;
                }
            },
            Ansi::Esc => {
                self.state.ansi = if c == '[' { Ansi::Csi(0) } else { Ansi::Normal };
            },
            Ansi::Csi(n) => {
                if '0' <= c && c <= '9' {
                    self.state.ansi = Ansi::Csi(n * 10 + (c as u32 - '0' as u32));
                } else if c == ';' {
                    self.state.ansi = Ansi::Csi(0);
                } else if c == 'm' {
                    self.sgr(n);
                    self.state.ansi = Ansi::Normal;
                } else {
                    self.state.ansi = Ansi::Normal;
                }
            },
        }
        assert(ops@ =~= before + Seq::<DrawOp>::empty());
    }

    /// Whether `write_char` can take `c` now: a digit of a colour parameter
    /// must keep the parameter within 32 bits.
    pub fn accepts(&self, c: char) -> (r: bool)
        ensures
            r == char_ok(self@, c),
    {
        match self.state.ansi {
            Ansi::Csi(n) => {
                if '0' <= c && c <= '9' {
                    n <= (u32::MAX - (c as u32 - '0' as u32)) / 10
                } else {
                    true
                }
            },
            _ => true,
        }
    }

    /// Prints a string, interpreting colour escape sequences; returns what
    /// to paint, in order.
    pub fn write_str(&mut self, s: &str) -> (ops: Vec<DrawOp>)
        requires
            old(self).wf(),
            write_ok(old(self)@, s@, old(self).spec_cols(), old(self).spec_rows()),
        ensures
            final(self).wf(),
            final(self).spec_cols() == old(self).spec_cols(),
            final(self).spec_rows() == old(self).spec_rows(),
            final(self).spec_font() == old(self).spec_font(),
            (final(self)@, ops@) == sp_write(old(self)@, s@, old(self).spec_cols(), old(self).spec_rows()),
    {
        let n = s.unicode_len();
        let mut ops: Vec<DrawOp> = Vec::new();
        let ghost s0 = self@;
        let ghost cols = self.spec_cols();
        let ghost rows = self.spec_rows();
        let mut i: usize = 0;
        assert(s@.take(0) =~= Seq::<char>::empty());
        while i < n
            invariant
                n == s@.len(),
                i <= n,
                self.wf(),
                self.spec_cols() == cols,
                self.spec_rows() == rows,
                self.spec_font() == old(self).spec_font(),
                cols == old(self).spec_cols(),
                rows == old(self).spec_rows(),
                s0 == old(self)@,
                write_ok(s0, s@, cols, rows),
                (self@, ops@) == sp_write(s0, s@.take(i as int), cols, rows),
            decreases n - i,
        {
            let c = s.get_char(i);
            proof {
                let t = s@.take(i + 1);
                assert(t.drop_last() =~= s@.take(i as int));
                assert(t.last() == c);
                lemma_write_ok_prefix(s0, s@, i + 1, cols, rows);
            }
            let ghost before = ops@;
            self.write_char(c, &mut ops);
            i = i + 1;
        }
        assert(s@.take(n as int) =~= s@);
        ops
    }

    /// Blanks the screen and resets the cursor, the colour and the escape
    /// reader.
    pub fn clear(&mut self) -> (ops: Vec<DrawOp>)
        requires
            old(self).wf(),
        ensures
            final(self).wf(),
            final(self).spec_cols() == old(self).spec_cols(),
            final(self).spec_rows() == old(self).spec_rows(),
            final(self).spec_font() == old(self).spec_font(),
            final(self)@ == (ConsoleState { col: 0, row: 0, ansi: Ansi::Normal, cursor_visible: false, color: WHITE }),
            ops@ == seq![DrawOp::Clear],
    {
        let mut ops: Vec<DrawOp> = Vec::new();
        ops.push(DrawOp::Clear);
        proof { lemma_area_nonempty(self.height as int, self.font.height as int); }
        self.state = ConsoleState { col: 0, row: 0, ansi: Ansi::Normal, cursor_visible: false, color: WHITE };
        ops
    }

    /// Blinks the cursor: flips its visibility and paints the cursor cell
    /// in the text colour when shown, black when hidden.
    pub fn tick_cursor(&mut self) -> (op: DrawOp)
        requires
            old(self).wf(),
        ensures
            final(self).wf(),
            final(self).spec_cols() == old(self).spec_cols(),
            final(self).spec_rows() == old(self).spec_rows(),
            final(self).spec_font() == old(self).spec_font(),
            final(self)@ == (ConsoleState { cursor_visible: !old(self)@.cursor_visible, ..old(self)@ }),
            op == (DrawOp::Fill {
                col: old(self)@.col,
                row: old(self)@.row,
                color: if !old(self)@.cursor_visible { old(self)@.color } else { 0 },
            }),
    {
        self.state.cursor_visible = !self.state.cursor_visible;
        let color = if self.state.cursor_visible { self.state.color } else { 0 };
        DrawOp::Fill { col: self.state.col, row: self.state.row, color }
    }
}

/// Printing a string in two pieces paints the same and ends in the same
/// state as printing it at once.
pub proof fn law_write_in_pieces(s: ConsoleState, a: Seq<char>, b: Seq<char>, cols: int, rows: int)
    ensures
        ({
            let (s1, o1) = sp_write(s, a, cols, rows);
            let (s2, o2) = sp_write(s1, b, cols, rows);
            sp_write(s, a + b, cols, rows) == (s2, o1 + o2)
        }),
    decreases b.len(),
{
    if b.len() == 0 {
        assert(a + b =~= a);
        let (s1, o1) = sp_write(s, a, cols, rows);
        assert(o1 + Seq::<DrawOp>::empty() =~= o1);
    } else {
        assert((a + b).drop_last() =~= a + b.drop_last());
        assert((a + b).last() == b.last());
        law_write_in_pieces(s, a, b.drop_last(), cols, rows);
        let (s1, o1) = sp_write(s, a, cols, rows);
        let (t, p) = sp_write(s1, b.drop_last(), cols, rows);
        let (u, q) = sp_write_char(t, b.last(), cols, rows);
        assert(o1 + p + q =~= o1 + (p + q));
    }
}

/// A string can be printed at once exactly when its first piece can be
/// printed and then the second piece from the state the first leaves, so
/// printing in pieces is allowed on the same strings as printing at once.
pub proof fn law_write_ok_in_pieces(s: ConsoleState, a: Seq<char>, b: Seq<char>, cols: int, rows: int)
    ensures
        write_ok(s, a + b, cols, rows) <==>
            write_ok(s, a, cols, rows) && write_ok(sp_write(s, a, cols, rows).0, b, cols, rows),
    decreases b.len(),
{
    if b.len() == 0 {
        assert(a + b =~= a);
    } else {
        assert((a + b).drop_last() =~= a + b.drop_last());
        assert((a + b).last() == b.last());
        law_write_ok_in_pieces(s, a, b.drop_last(), cols, rows);
        law_write_in_pieces(s, a, b.drop_last(), cols, rows);
    }
}

/// Printing one more character continues from where printing the rest
/// left off.
proof fn lemma_write_push(s: ConsoleState, cs: Seq<char>, c: char, cols: int, rows: int)
    ensures
        sp_write(s, cs.push(c), cols, rows) == ({
            let (s1, o1) = sp_write(s, cs, cols, rows);
            let (s2, o2) = sp_write_char(s1, c, cols, rows);
            (s2, o1 + o2)
        }),
{
    assert(cs.push(c).drop_last() =~= cs);
}

/// The colour escapes: from plain text, `ESC [ 3 d m` for a digit `d` from
/// 0 to 7 sets the text colour to black, red, green, yellow, blue, magenta,
/// cyan or white, whatever the colour was, and draws nothing; the cursor
/// and the rest of the state stay as they were.
pub proof fn law_colour_escape(s: ConsoleState, d: char, cols: int, rows: int)
    requires
        s.ansi == Ansi::Normal,
        '0' <= d <= '7',
    ensures
        sp_write(s, seq!['\x1b', '[', '3', d, 'm'], cols, rows) == (
            ConsoleState {
                color: if d == '0' { 0x000000u32 }
                    else if d == '1' { 0xFF0000u32 }
                    else if d == '2' { 0x00FF00u32 }
                    else if d == '3' { 0xFFFF00u32 }
                    else if d == '4' { 0x0000FFu32 }
                    else if d == '5' { 0xFF00FFu32 }
                    else if d == '6' { 0x00FFFFu32 }
                    else { 0xFFFFFFu32 },
                ..s
            },
            Seq::<DrawOp>::empty(),
        ),
{
    let e: Seq<char> = Seq::empty();
    assert(sp_write(s, e, cols, rows) == (s, Seq::<DrawOp>::empty()));
    lemma_write_push(s, e, '\x1b', cols, rows);
    lemma_write_push(s, e.push('\x1b'), '[', cols, rows);
    lemma_write_push(s, e.push('\x1b').push('['), '3', cols, rows);
    lemma_write_push(s, e.push('\x1b').push('[').push('3'), d, cols, rows);
    lemma_write_push(s, e.push('\x1b').push('[').push('3').push(d), 'm', cols, rows);
    assert(e.push('\x1b').push('[').push('3').push(d).push('m') =~= seq!['\x1b', '[', '3', d, 'm']);
    let n: u32 = (30 + (d as u32 - 48)) as u32;
    assert(sp_write(s, e.push('\x1b').push('[').push('3').push(d), cols, rows).0 == (ConsoleState { ansi: Ansi::Csi(n), ..s }));
}

/// `ESC [ 0 m` and `ESC [ m` reset the text colour to white and draw nothing.
pub proof fn law_colour_reset(s: ConsoleState, cols: int, rows: int)
    requires
        s.ansi == Ansi::Normal,
    ensures
        sp_write(s, seq!['\x1b', '[', '0', 'm'], cols, rows)
            == (ConsoleState { color: 0xFFFFFFu32, ..s }, Seq::<DrawOp>::empty()),
        sp_write(s, seq!['\x1b', '[', 'm'], cols, rows)
            == (ConsoleState { color: 0xFFFFFFu32, ..s }, Seq::<DrawOp>::empty()),
{
    let e: Seq<char> = Seq::empty();
    assert(sp_write(s, e, cols, rows) == (s, Seq::<DrawOp>::empty()));
    lemma_write_push(s, e, '\x1b', cols, rows);
    lemma_write_push(s, e.push('\x1b'), '[', cols, rows);
    lemma_write_push(s, e.push('\x1b').push('['), '0', cols, rows);
    lemma_write_push(s, e.push('\x1b').push('[').push('0'), 'm', cols, rows);
    lemma_write_push(s, e.push('\x1b').push('['), 'm', cols, rows);
    assert(e.push('\x1b').push('[').push('0').push('m') =~= seq!['\x1b', '[', '0', 'm']);
    assert(e.push('\x1b').push('[').push('m') =~= seq!['\x1b', '[', 'm']);
}

/// Each prefix of a string that writes without overflow also does.
proof fn lemma_write_ok_prefix(s: ConsoleState, cs: Seq<char>, k: int, cols: int, rows: int)
    requires
        write_ok(s, cs, cols, rows),
        0 <= k <= cs.len(),
    ensures
        write_ok(s, cs.take(k), cols, rows),
    decreases cs.len() - k,
{
    if k < cs.len() {
        assert(cs.drop_last().take(k) =~= cs.take(k));
        lemma_write_ok_prefix(s, cs.drop_last(), k, cols, rows);
    } else {
        assert(cs.take(k) =~= cs);
    }
}

/// A screen with room for one cell beyond the margins fits at least one
/// text column (or row).
proof fn lemma_area_nonempty(size: int, cell: int)
    requires
        cell >= 1,
        size >= 2 * MARGIN + cell,
    ensures
        (size - 2 * MARGIN) / cell >= 1,
{
    vstd::arithmetic::div_mod::lemma_div_is_ordered(cell, size - 2 * MARGIN, cell);
    vstd::arithmetic::div_mod::lemma_div_by_self(cell);
}

} // verus!
