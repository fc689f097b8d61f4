//! Painting console cells into the framebuffer.
//!
//! The screen is a slice of 32-bit pixels, `stride` pixels per row.  A cell
//! of the text grid starts `MARGIN` pixels in from the top left corner.  A
//! glyph is a bitmap of `bpg` bytes per character, each row taking
//! `(width + 7) / 8` bytes, most significant bit leftmost.

use vstd::prelude::*;
use crate::console::{DrawOp, MARGIN};
use crate::font::Font;
use crate::doom::{spec_source_index, source_index, DOOM_WIDTH, DOOM_HEIGHT};

verus! {

/// The pixel grid of the screen.
#[derive(Copy, Clone, PartialEq, Eq, Structural, Debug)]
pub struct Screen {
    pub width: usize,
    pub height: usize,
    pub stride: usize,
}

/// The frame after painting the pixels of a `w` by `h` box at (`px`,
/// `py`) row by row: rows before `rows_done` and the first `cols_done`
/// pixels of row `rows_done` take the colour `pick` gives, all other pixels
/// keep their colour.
pub open spec fn painted(
    old: Seq<u32>,
    stride: int,
    px: int,
    py: int,
    w: int,
    h: int,
    rows_done: int,
    cols_done: int,
    pick: spec_fn(int, int) -> u32,
) -> Seq<u32> {
    Seq::new(old.len(), |i: int| {
        let r = i / stride - py;
        let c = i % stride - px;
        if 0 <= r < h && 0 <= c < w && (r < rows_done || (r == rows_done && c < cols_done)) {
            pick(c, r)
        } else {
            old[i]
        }
    })
}

/// The whole box painted.
pub open spec fn boxed(old: Seq<u32>, stride: int, px: int, py: int, w: int, h: int, pick: spec_fn(int, int) -> u32) -> Seq<u32> {
    painted(old, stride, px, py, w, h, h, 0, pick)
}

/// Index of pixel (`px + x`, `py + y`).
pub open spec fn pixel_index(stride: int, px: int, py: int, x: int, y: int) -> int {
    (py + y) * stride + px + x
}

/// The box fits in its rows and in the frame.
pub open spec fn box_fits(len: int, stride: int, px: int, py: int, w: int, h: int) -> bool {
    &&& stride > 0
    &&& px >= 0
    &&& py >= 0
    &&& w >= 1
    &&& h >= 1
    &&& px + w <= stride
    &&& (py + h) * stride <= len
}

/// A box that fits starts inside its row and the frame.
proof fn lemma_box_fits_bounds(len: int, stride: int, px: int, py: int, w: int, h: int)
    ensures
        box_fits(len, stride, px, py, w, h) ==> px + w <= stride && py + h <= len,
{
    if box_fits(len, stride, px, py, w, h) {
        assert(py + h <= (py + h) * stride) by (nonlinear_arith) requires stride >= 1, py + h >= 0;
    }
}

proof fn lemma_index_coords(stride: int, px: int, py: int, x: int, y: int)
    requires
        stride > 0,
        px >= 0,
        py >= 0,
        0 <= x,
        0 <= y,
        px + x < stride,
    ensures
        pixel_index(stride, px, py, x, y) / stride == py + y,
        pixel_index(stride, px, py, x, y) % stride == px + x,
{
    vstd::arithmetic::div_mod::lemma_fundamental_div_mod_converse(
        pixel_index(stride, px, py, x, y), stride, py + y, px + x);
}

proof fn lemma_index_bound(len: int, stride: int, px: int, py: int, w: int, h: int, x: int, y: int)
    requires
        box_fits(len, stride, px, py, w, h),
        0 <= x < w,
        0 <= y < h,
    ensures
        0 <= pixel_index(stride, px, py, x, y) < len,
        (py + y) * stride <= pixel_index(stride, px, py, x, y),
{
    assert((py + y) * stride + stride <= (py + h) * stride) by (nonlinear_arith)
        requires y < h, stride > 0;
    assert((py + y) * stride >= 0) by (nonlinear_arith) requires py + y >= 0, stride > 0;
}

/// Painting one more pixel moves the frontier one pixel on.
proof fn lemma_paint_step(
    old: Seq<u32>, stride: int, px: int, py: int, w: int, h: int, x: int, y: int, pick: spec_fn(int, int) -> u32,
)
    requires
        box_fits(old.len() as int, stride, px, py, w, h),
        0 <= x < w,
        0 <= y < h,
    ensures
        painted(old, stride, px, py, w, h, y, x, pick).update(pixel_index(stride, px, py, x, y), pick(x, y))
            =~= painted(old, stride, px, py, w, h, y, x + 1, pick),
{
    lemma_index_coords(stride, px, py, x, y);
    lemma_index_bound(old.len() as int, stride, px, py, w, h, x, y);
    let idx = pixel_index(stride, px, py, x, y);
    let a = painted(old, stride, px, py, w, h, y, x, pick).update(idx, pick(x, y));
    let b = painted(old, stride, px, py, w, h, y, x + 1, pick);
    assert forall|i: int| 0 <= i < old.len() implies a[i] == b[i] by {
        if i != idx {
            vstd::arithmetic::div_mod::lemma_fundamental_div_mod(i, stride);
            if i / stride - py == y && i % stride - px == x {
                assert(i == (i / stride) * stride + i % stride);
                assert(false);
            }
        }
    }
}

/// Finishing a row is starting the next one.
proof fn lemma_row_step(old: Seq<u32>, stride: int, px: int, py: int, w: int, h: int, y: int, pick: spec_fn(int, int) -> u32)
    ensures
        painted(old, stride, px, py, w, h, y, w, pick) =~= painted(old, stride, px, py, w, h, y + 1, 0, pick),
{
}

/// Paints the box with the colours `pick` gives, reading them from
/// `colors` (row by row, `w` per row).
fn paint_box(frame: &mut [u32], stride: usize, px: usize, py: usize, w: usize, h: usize, colors: &Vec<u32>, Ghost(pick): Ghost<spec_fn(int, int) -> u32>)
    requires
        box_fits(old(frame)@.len() as int, stride as int, px as int, py as int, w as int, h as int),
        colors@.len() == w * h,
        forall|x: int, y: int| 0 <= x < w && 0 <= y < h ==> #[trigger] colors@[y * w + x] == pick(x, y),
    ensures
        final(frame)@ == boxed(old(frame)@, stride as int, px as int, py as int, w as int, h as int, pick),
{
    let ghost old_frame = frame@;
    let len = frame.len();
    let clen = colors.len();
    let mut y: usize = 0;
    assert(frame@ =~= painted(old_frame, stride as int, px as int, py as int, w as int, h as int, 0, 0, pick));
    while y < h
        invariant
            y <= h,
            len == old_frame.len(),
            clen == colors@.len(),
            box_fits(old_frame.len() as int, stride as int, px as int, py as int, w as int, h as int),
            colors@.len() == w * h,
            forall|x: int, yy: int| 0 <= x < w && 0 <= yy < h ==> #[trigger] colors@[yy * w + x] == pick(x, yy),
            frame@ == painted(old_frame, stride as int, px as int, py as int, w as int, h as int, y as int, 0, pick),
        decreases h - y,
    {
        let mut x: usize = 0;
        while x < w
            invariant
                x <= w,
                y < h,
                len == old_frame.len(),
                clen == colors@.len(),
                box_fits(old_frame.len() as int, stride as int, px as int, py as int, w as int, h as int),
                colors@.len() == w * h,
                forall|xx: int, yy: int| 0 <= xx < w && 0 <= yy < h ==> #[trigger] colors@[yy * w + xx] == pick(xx, yy),
                frame@ == painted(old_frame, stride as int, px as int, py as int, w as int, h as int, y as int, x as int, pick),
            decreases w - x,
        {
            proof {
                lemma_index_bound(old_frame.len() as int, stride as int, px as int, py as int, w as int, h as int, x as int, y as int);
                lemma_paint_step(old_frame, stride as int, px as int, py as int, w as int, h as int, x as int, y as int, pick);
                assert(y * w + x < w * h) by (nonlinear_arith) requires x < w, y < h;
                assert(y * w + x >= 0) by (nonlinear_arith) requires x >= 0, y >= 0, w >= 0;
                assert(py + y <= (py + y) * stride) by (nonlinear_arith) requires stride >= 1, py + y >= 0;
                assert(y * w <= y * w + x);
            }
            let idx = (py + y) * stride + px + x;
            let color = colors[y * w + x];
            frame[idx] = color;
            x = x + 1;
        }
        proof { lemma_row_step(old_frame, stride as int, px as int, py as int, w as int, h as int, y as int, pick); }
        y = y + 1;
    }
}

/// Bytes per glyph row.
pub open spec fn bytes_per_row(font: Font) -> int {
    (font.width + 7) / 8
}

/// Where the glyph of `ch` starts in the font file.
pub open spec fn glyph_start(font: Font, ch: char) -> int {
    font.glyph_start + (ch as int) * font.bpg
}

/// The glyph of `ch` lies inside a font file of `len` bytes and holds all
/// its rows.
pub open spec fn glyph_fits_len(len: int, font: Font, ch: char) -> bool {
    &&& glyph_start(font, ch) + font.bpg <= len
    &&& font.height * bytes_per_row(font) <= font.bpg
}

/// The glyph of `ch` lies inside the font file and holds all its rows.
pub open spec fn glyph_fits(font_bytes: Seq<u8>, font: Font, ch: char) -> bool {
    glyph_fits_len(font_bytes.len() as int, font, ch)
}

/// Bytes per glyph row, computed without overflow.
fn row_bytes(font: Font) -> (r: usize)
    ensures
        r == bytes_per_row(font),
{
    font.width / 8 + if font.width % 8 != 0 { 1 } else { 0 }
}

/// Pixel (`x`, `y`) of the glyph of `ch` is set.
pub open spec fn glyph_on(font_bytes: Seq<u8>, font: Font, ch: char, x: int, y: int) -> bool {
    (font_bytes[glyph_start(font, ch) + y * bytes_per_row(font) + x / 8] & (0x80u8 >> ((x % 8) as u8))) != 0
}

/// Colour of pixel (`x`, `y`) of a glyph drawn in `color` on black.
pub open spec fn glyph_pick(font_bytes: Seq<u8>, font: Font, ch: char, color: u32) -> spec_fn(int, int) -> u32 {
    |x: int, y: int| if glyph_on(font_bytes, font, ch, x, y) { color } else { 0u32 }
}

/// The same colour everywhere.
pub open spec fn solid(color: u32) -> spec_fn(int, int) -> u32 {
    |x: int, y: int| color
}

/// The colours of the glyph of `ch`, row by row.
fn glyph_colors(font_bytes: &[u8], font: Font, ch: char, color: u32) -> (r: Vec<u32>)
    requires
        glyph_fits(font_bytes@, font, ch),
        font.width >= 1,
        font.width * font.height <= usize::MAX,
    ensures
        r@.len() == font.width * font.height,
        forall|x: int, y: int| 0 <= x < font.width && 0 <= y < font.height ==>
            #[trigger] r@[y * font.width + x] == (glyph_pick(font_bytes@, font, ch, color))(x, y),
{
    let flen = font_bytes.len();
    proof {
        assert((ch as int) * font.bpg >= 0) by (nonlinear_arith) requires ch as int >= 0, font.bpg >= 0;
    }
    let start = font.glyph_start + ch as usize * font.bpg;
    let bpr = row_bytes(font);
    let ghost fw = font.width as int;
    let mut out: Vec<u32> = Vec::new();
    let mut y: usize = 0;
    while y < font.height
        invariant
            y <= font.height,
            fw == font.width,
            start == glyph_start(font, ch),
            bpr == bytes_per_row(font),
            flen == font_bytes@.len(),
            glyph_fits(font_bytes@, font, ch),
            font.width >= 1,
            font.width * font.height <= usize::MAX,
            out@.len() == y * fw,
            forall|x: int, yy: int| 0 <= x < fw && 0 <= yy < y ==>
                #[trigger] out@[yy * fw + x] == (glyph_pick(font_bytes@, font, ch, color))(x, yy),
        decreases font.height - y,
    {
        let mut x: usize = 0;
        while x < font.width
            invariant
                x <= font.width,
                y < font.height,
                fw == font.width,
                start == glyph_start(font, ch),
                bpr == bytes_per_row(font),
                flen == font_bytes@.len(),
                glyph_fits(font_bytes@, font, ch),
                font.width >= 1,
                font.width * font.height <= usize::MAX,
                out@.len() == y * fw + x,
                forall|xx: int, yy: int| 0 <= xx < fw && 0 <= yy < y ==>
                    #[trigger] out@[yy * fw + xx] == (glyph_pick(font_bytes@, font, ch, color))(xx, yy),
                forall|xx: int| 0 <= xx < x ==>
                    #[trigger] out@[y * fw + xx] == (glyph_pick(font_bytes@, font, ch, color))(xx, y as int),
            decreases font.width - x,
        {
            proof {
                assert(y * bpr + x / 8 < font.bpg) by (nonlinear_arith)
                    requires y < font.height, x < font.width, bpr == (font.width + 7) / 8,
                        font.height * bpr <= font.bpg;
                assert(y * bpr + x / 8 >= 0) by (nonlinear_arith) requires y >= 0, bpr >= 0, x >= 0;
                assert((y + 1) * fw <= font.width * font.height) by (nonlinear_arith)
                    requires y < font.height, fw == font.width, fw >= 0;
                assert((y + 1) * fw == y * fw + fw) by (nonlinear_arith);
            }
            let byte = font_bytes[start + y * bpr + x / 8];
            let on = byte & (0x80u8 >> ((x % 8) as u8)) != 0;
            let c = if on { color } else { 0 };
            let ghost before = out@;
            out.push(c);
            proof {
                assert forall|xx: int, yy: int| 0 <= xx < fw && 0 <= yy < y implies
                    #[trigger] out@[yy * fw + xx] == (glyph_pick(font_bytes@, font, ch, color))(xx, yy) by {
                    assert(yy * fw + xx < y * fw) by (nonlinear_arith) requires yy < y, xx < fw, yy >= 0, fw >= 0;
                    assert(yy * fw + xx >= 0) by (nonlinear_arith) requires yy >= 0, xx >= 0, fw >= 0;
                    assert(out@[yy * fw + xx] == before[yy * fw + xx]);
                }
            }
            x = x + 1;
        }
        proof {
            assert forall|xx: int, yy: int| 0 <= xx < fw && 0 <= yy < y + 1 implies
                #[trigger] out@[yy * fw + xx] == (glyph_pick(font_bytes@, font, ch, color))(xx, yy) by {
            }
            assert((y + 1) * fw == y * fw + fw) by (nonlinear_arith);
        }
        y = y + 1;
    }
    assert(y * fw == font.width * font.height) by (nonlinear_arith) requires y == font.height, fw == font.width;
    out
}

/// `n` pixels of one colour.
fn solid_colors(n: usize, color: u32) -> (r: Vec<u32>)
    ensures
        r@.len() == n,
        forall|i: int| 0 <= i < n ==> #[trigger] r@[i] == color,
{
    let mut out: Vec<u32> = Vec::new();
    let mut i: usize = 0;
    while i < n
        invariant
            i <= n,
            out@.len() == i,
            forall|k: int| 0 <= k < i ==> #[trigger] out@[k] == color,
        decreases n - i,
    {
        out.push(color);
        i = i + 1;
    }
    out
}

/// The frame after the text area of `rows` text rows of `fh` pixels moves
/// up one text row and its last text row is blanked.
pub open spec fn scrolled(old: Seq<u32>, stride: int, fh: int, rows: int) -> Seq<u32> {
    let top = MARGIN * stride;
    let line = fh * stride;
    let band = rows * fh * stride;
    Seq::new(old.len(), |i: int|
        if top <= i < top + band - line {
            old[i + line]
        } else if top + band - line <= i < top + band {
            0u32
        } else {
            old[i]
        })
}

/// The frame after its first `n` pixels are blanked.
pub open spec fn cleared(old: Seq<u32>, n: int) -> Seq<u32> {
    Seq::new(old.len(), |i: int| if i < n { 0u32 } else { old[i] })
}

/// Top left pixel of text cell (`col`, `row`).
pub open spec fn cell_origin(font: Font, col: int, row: int) -> (int, int) {
    (MARGIN + col * font.width, MARGIN + row * font.height)
}

/// The drawing operation can be carried out on this frame: the cell lies
/// inside its row and the frame, the glyph inside the font, and a scroll or
/// clear inside the frame.
pub open spec fn paint_ok(frame_len: int, scr: Screen, font: Font, font_bytes: Seq<u8>, rows: int, op: DrawOp) -> bool {
    &&& font.width >= 1
    &&& font.height >= 1
    &&& scr.stride >= 1
    &&& op is Glyph ==> {
        let (px, py) = cell_origin(font, op->Glyph_col as int, op->Glyph_row as int);
        &&& box_fits(frame_len, scr.stride as int, px, py, font.width as int, font.height as int)
        &&& glyph_fits(font_bytes, font, op->ch)
    }
    &&& op is Fill ==> {
        let (px, py) = cell_origin(font, op->Fill_col as int, op->Fill_row as int);
        box_fits(frame_len, scr.stride as int, px, py, font.width as int, font.height as int)
    }
    &&& op is Scroll ==> rows >= 1 && (MARGIN + rows * font.height) * scr.stride <= frame_len
    &&& op is Clear ==> scr.height * scr.stride <= frame_len
}

/// The frame after the drawing operation.
pub open spec fn painted_op(old: Seq<u32>, scr: Screen, font: Font, font_bytes: Seq<u8>, rows: int, op: DrawOp) -> Seq<u32> {
    if op is Glyph {
        let (px, py) = cell_origin(font, op->Glyph_col as int, op->Glyph_row as int);
        boxed(old, scr.stride as int, px, py, font.width as int, font.height as int,
            glyph_pick(font_bytes, font, op->ch, op->Glyph_color))
    } else if op is Fill {
        let (px, py) = cell_origin(font, op->Fill_col as int, op->Fill_row as int);
        boxed(old, scr.stride as int, px, py, font.width as int, font.height as int, solid(op->Fill_color))
    } else if op is Scroll {
        scrolled(old, scr.stride as int, font.height as int, rows)
    } else {
        cleared(old, scr.height * scr.stride)
    }
}

/// Checks `paint_ok` without overflowing.
pub fn can_paint(frame_len: usize, scr: Screen, font: Font, font_bytes: &[u8], rows: usize, op: DrawOp) -> (r: bool)
    ensures
        r == paint_ok(frame_len as int, scr, font, font_bytes@, rows as int, op),
{
    if font.width < 1 || font.height < 1 || scr.stride < 1 {
        return false;
    }
    match op {
        DrawOp::Glyph { col, row, ch, color } => {
            let fits = cell_fits(frame_len, scr.stride, font, col, row);
            let flen = font_bytes.len();
            let g = glyph_fits_checked(flen, font, ch);
            fits && g
        },
        DrawOp::Fill { col, row, color } => cell_fits(frame_len, scr.stride, font, col, row),
        DrawOp::Scroll => {
            if rows < 1 {
                return false;
            }
            proof {
                let a = rows * font.height;
                let st = scr.stride as int;
                assert((MARGIN + a) * st >= MARGIN + a) by (nonlinear_arith) requires st >= 1, a >= 0;
                assert(a >= 0) by (nonlinear_arith) requires rows >= 0, font.height >= 0, a == rows * font.height;
            }
            match rows.checked_mul(font.height) {
                None => false,
                Some(a) => match a.checked_add(MARGIN) {
                    None => false,
                    Some(b) => match b.checked_mul(scr.stride) {
                        None => false,
                        Some(c) => c <= frame_len,
                    },
                },
            }
        },
        DrawOp::Clear => match scr.height.checked_mul(scr.stride) {
            None => false,
            Some(n) => n <= frame_len,
        },
    }
}

fn cell_fits(frame_len: usize, stride: usize, font: Font, col: usize, row: usize) -> (r: bool)
    ensures
        r == ({
            let (px, py) = cell_origin(font, col as int, row as int);
            box_fits(frame_len as int, stride as int, px, py, font.width as int, font.height as int)
        }),
{
    proof {
        let (px, py) = cell_origin(font, col as int, row as int);
        lemma_box_fits_bounds(frame_len as int, stride as int, px, py, font.width as int, font.height as int);
    }
    match cell_origin_checked(font, col, row) {
        Some((px, py)) => box_fits_checked(frame_len, stride, px, py, font.width, font.height),
        None => false,
    }
}

fn cell_origin_checked(font: Font, col: usize, row: usize) -> (r: Option<(usize, usize)>)
    ensures
        match r {
            Some((px, py)) => (px as int, py as int) == cell_origin(font, col as int, row as int),
            None => cell_origin(font, col as int, row as int).0 > usize::MAX || cell_origin(font, col as int, row as int).1 > usize::MAX,
        },
{
    let a = match col.checked_mul(font.width) {
        Some(a) => a,
        None => {
            assert(col * font.width >= 0) by (nonlinear_arith) requires col >= 0, font.width >= 0;
            return None;
        },
    };
    let b = match row.checked_mul(font.height) {
        Some(b) => b,
        None => {
            assert(row * font.height >= 0) by (nonlinear_arith) requires row >= 0, font.height >= 0;
            return None;
        },
    };
    match (a.checked_add(MARGIN), b.checked_add(MARGIN)) {
        (Some(px), Some(py)) => Some((px, py)),
        _ => None,
    }
}

fn box_fits_checked(len: usize, stride: usize, px: usize, py: usize, w: usize, h: usize) -> (r: bool)
    ensures
        r == box_fits(len as int, stride as int, px as int, py as int, w as int, h as int),
{
    if stride == 0 || w < 1 || h < 1 {
        return false;
    }
    match px.checked_add(w) {
        None => false,
        Some(e) => {
            if e > stride {
                return false;
            }
            match py.checked_add(h) {
                None => {
                    assert((py + h) * stride > usize::MAX) by (nonlinear_arith) requires py + h > usize::MAX, stride >= 1;
                    false
                },
                Some(b) => match b.checked_mul(stride) {
                    None => false,
                    Some(n) => n <= len,
                },
            }
        },
    }
}

fn glyph_fits_checked(font_len: usize, font: Font, ch: char) -> (r: bool)
    ensures
        r == glyph_fits_len(font_len as int, font, ch),
{
    let bpr = row_bytes(font);
    let fits_rows = match font.height.checked_mul(bpr) {
        None => false,
        Some(n) => n <= font.bpg,
    };
    if !fits_rows {
        return false;
    }
    match (ch as usize).checked_mul(font.bpg) {
        None => {
            assert((ch as int) * font.bpg >= 0) by (nonlinear_arith) requires ch as int >= 0, font.bpg >= 0;
            false
        },
        Some(a) => match a.checked_add(font.glyph_start) {
            None => false,
            Some(b) => match b.checked_add(font.bpg) {
                None => false,
                Some(e) => e <= font_len,
            },
        },
    }
}

/// Moves the text area up one text row and blanks the last text row.
fn scroll(frame: &mut [u32], stride: usize, fh: usize, rows: usize)
    requires
        rows >= 1,
        stride >= 1,
        (MARGIN + rows * fh) * stride <= old(frame)@.len(),
    ensures
        final(frame)@ == scrolled(old(frame)@, stride as int, fh as int, rows as int),
{
    let ghost old_frame = frame@;
    let len = frame.len();
    proof {
        assert(rows * fh * stride >= fh * stride) by (nonlinear_arith) requires rows >= 1, fh >= 0, stride >= 0;
        assert((MARGIN + rows * fh) * stride == MARGIN * stride + rows * fh * stride) by (nonlinear_arith);
        assert(fh * stride >= 0) by (nonlinear_arith) requires fh >= 0, stride >= 0;
        assert(rows * fh <= rows * fh * stride) by (nonlinear_arith) requires stride >= 1, rows >= 0, fh >= 0;
    }
    let top = MARGIN * stride;
    let line = fh * stride;
    let band = rows * fh * stride;
    let mut k: usize = 0;
    while k < band - line
        invariant
            k <= band - line,
            line <= band,
            top + band <= len,
            len == old_frame.len(),
            frame@.len() == len,
            forall|i: int| top <= i < top + k ==> #[trigger] frame@[i] == old_frame[i + line],
            forall|i: int| 0 <= i < len && !(top <= i < top + k) ==> #[trigger] frame@[i] == old_frame[i],
        decreases band - line - k,
    {
        let v = frame[top + k + line];
        frame[top + k] = v;
        k = k + 1;
    }
    while k < band
        invariant
            band - line <= k <= band,
            line <= band,
            top + band <= len,
            len == old_frame.len(),
            frame@.len() == len,
            forall|i: int| top <= i < top + band - line ==> #[trigger] frame@[i] == old_frame[i + line],
            forall|i: int| top + band - line <= i < top + k ==> #[trigger] frame@[i] == 0,
            forall|i: int| 0 <= i < len && !(top <= i < top + k) ==> #[trigger] frame@[i] == old_frame[i],
        decreases band - k,
    {
        frame[top + k] = 0;
        k = k + 1;
    }
    assert(frame@ =~= scrolled(old_frame, stride as int, fh as int, rows as int));
}

/// Blanks the first `n` pixels.
fn clear_pixels(frame: &mut [u32], n: usize)
    requires
        n <= old(frame)@.len(),
    ensures
        final(frame)@ == cleared(old(frame)@, n as int),
{
    let ghost old_frame = frame@;
    let mut i: usize = 0;
    while i < n
        invariant
            i <= n,
            n <= old_frame.len(),
            frame@.len() == old_frame.len(),
            forall|k: int| 0 <= k < i ==> #[trigger] frame@[k] == 0,
            forall|k: int| i <= k < old_frame.len() ==> #[trigger] frame@[k] == old_frame[k],
        decreases n - i,
    {
        frame[i] = 0;
        i = i + 1;
    }
    assert(frame@ =~= cleared(old_frame, n as int));
}

/// Carries out one drawing operation of the console on the frame: draws a
/// glyph or fills a cell, scrolls the text area of `rows` text rows, or
/// blanks the screen.
pub fn paint(frame: &mut [u32], scr: Screen, font: Font, font_bytes: &[u8], rows: usize, op: DrawOp)
    requires
        paint_ok(old(frame)@.len() as int, scr, font, font_bytes@, rows as int, op),
    ensures
        final(frame)@ == painted_op(old(frame)@, scr, font, font_bytes@, rows as int, op),
{
    let len = frame.len();
    match op {
        DrawOp::Glyph { col, row, ch, color } => {
            let ghost (gx, gy) = cell_origin(font, col as int, row as int);
            proof {
                lemma_box_fits_bounds(len as int, scr.stride as int, gx, gy, font.width as int, font.height as int);
                let w = font.width as int;
                let h = font.height as int;
                let st = scr.stride as int;
                assert(w * h <= st * (gy + h)) by (nonlinear_arith) requires w <= st, h <= gy + h, w >= 0, h >= 0;
                assert(st * (gy + h) == (gy + h) * st) by (nonlinear_arith);
                assert(col * font.width >= 0) by (nonlinear_arith) requires col >= 0, font.width >= 0;
                assert(row * font.height >= 0) by (nonlinear_arith) requires row >= 0, font.height >= 0;
            }
            let px = MARGIN + col * font.width;
            let py = MARGIN + row * font.height;
            let colors = glyph_colors(font_bytes, font, ch, color);
            paint_box(frame, scr.stride, px, py, font.width, font.height, &colors,
                Ghost(glyph_pick(font_bytes@, font, ch, color)));
        },
        DrawOp::Fill { col, row, color } => {
            let ghost (gx, gy) = cell_origin(font, col as int, row as int);
            proof {
                lemma_box_fits_bounds(len as int, scr.stride as int, gx, gy, font.width as int, font.height as int);
                let w = font.width as int;
                let h = font.height as int;
                let st = scr.stride as int;
                assert(w * h <= st * (gy + h)) by (nonlinear_arith) requires w <= st, h <= gy + h, w >= 0, h >= 0;
                assert(st * (gy + h) == (gy + h) * st) by (nonlinear_arith);
                assert(col * font.width >= 0) by (nonlinear_arith) requires col >= 0, font.width >= 0;
                assert(row * font.height >= 0) by (nonlinear_arith) requires row >= 0, font.height >= 0;
            }
            let px = MARGIN + col * font.width;
            let py = MARGIN + row * font.height;
            let colors = solid_colors(font.width * font.height, color);
            proof {
                let w = font.width as int;
                let h = font.height as int;
                assert forall|x: int, y: int| 0 <= x < w && 0 <= y < h implies #[trigger] colors@[y * w + x] == (solid(color))(x, y) by {
                    assert(y * w + x < w * h) by (nonlinear_arith) requires 0 <= x < w, 0 <= y < h;
                    assert(y * w + x >= 0) by (nonlinear_arith) requires x >= 0, y >= 0, w >= 0;
                }
            }
            paint_box(frame, scr.stride, px, py, font.width, font.height, &colors, Ghost(solid(color)));
        },
        DrawOp::Scroll => {
            scroll(frame, scr.stride, font.height, rows);
        },
        DrawOp::Clear => {
            clear_pixels(frame, scr.height * scr.stride);
        },
    }
}

/// Fills the `w` by `h` box at (`px`, `py`) with `color`.
pub fn fill_rect(frame: &mut [u32], stride: usize, px: usize, py: usize, w: usize, h: usize, color: u32)
    requires
        box_fits(old(frame)@.len() as int, stride as int, px as int, py as int, w as int, h as int),
    ensures
        final(frame)@ == boxed(old(frame)@, stride as int, px as int, py as int, w as int, h as int, solid(color)),
{
    let ghost old_frame = frame@;
    let ghost pick = solid(color);
    let len = frame.len();
    let mut y: usize = 0;
    assert(frame@ =~= painted(old_frame, stride as int, px as int, py as int, w as int, h as int, 0, 0, pick));
    while y < h
        invariant
            y <= h,
            len == old_frame.len(),
            pick == solid(color),
            box_fits(old_frame.len() as int, stride as int, px as int, py as int, w as int, h as int),
            frame@ == painted(old_frame, stride as int, px as int, py as int, w as int, h as int, y as int, 0, pick),
        decreases h - y,
    {
        let mut x: usize = 0;
        while x < w
            invariant
                x <= w,
                y < h,
                len == old_frame.len(),
                pick == solid(color),
                box_fits(old_frame.len() as int, stride as int, px as int, py as int, w as int, h as int),
                frame@ == painted(old_frame, stride as int, px as int, py as int, w as int, h as int, y as int, x as int, pick),
            decreases w - x,
        {
            proof {
                lemma_index_bound(old_frame.len() as int, stride as int, px as int, py as int, w as int, h as int, x as int, y as int);
                lemma_paint_step(old_frame, stride as int, px as int, py as int, w as int, h as int, x as int, y as int, pick);
                assert(py + y <= (py + y) * stride) by (nonlinear_arith) requires stride >= 1, py + y >= 0;
            }
            let idx = (py + y) * stride + px + x;
            frame[idx] = color;
            x = x + 1;
        }
        proof { lemma_row_step(old_frame, stride as int, px as int, py as int, w as int, h as int, y as int, pick); }
        y = y + 1;
    }
}

/// Colour of screen pixel (`x`, `y`) when the game's picture is stretched
/// over a `width` by `height` screen.
pub open spec fn frame_pick(doom: Seq<u32>, width: int, height: int) -> spec_fn(int, int) -> u32 {
    |x: int, y: int| doom[spec_source_index(x, y, width, height)]
}

/// Shows the game's 640 by 400 picture `doom` on the whole screen,
/// stretched to its size (a screen of exactly that size takes the picture
/// pixel for pixel).
pub fn draw_frame(frame: &mut [u32], scr: Screen, doom: &[u32])
    requires
        doom@.len() >= DOOM_WIDTH * DOOM_HEIGHT,
        scr.width * 640 <= usize::MAX,
        scr.height * 400 <= usize::MAX,
        box_fits(old(frame)@.len() as int, scr.stride as int, 0, 0, scr.width as int, scr.height as int),
    ensures
        final(frame)@ == boxed(old(frame)@, scr.stride as int, 0, 0, scr.width as int, scr.height as int,
            frame_pick(doom@, scr.width as int, scr.height as int)),
{
    let ghost old_frame = frame@;
    let ghost pick = frame_pick(doom@, scr.width as int, scr.height as int);
    let w = scr.width;
    let h = scr.height;
    let stride = scr.stride;
    let len = frame.len();
    let mut y: usize = 0;
    assert(frame@ =~= painted(old_frame, stride as int, 0, 0, w as int, h as int, 0, 0, pick));
    while y < h
        invariant
            y <= h,
            w == scr.width,
            h == scr.height,
            stride == scr.stride,
            len == old_frame.len(),
            doom@.len() >= DOOM_WIDTH * DOOM_HEIGHT,
            scr.width * 640 <= usize::MAX,
            scr.height * 400 <= usize::MAX,
            pick == frame_pick(doom@, scr.width as int, scr.height as int),
            box_fits(old_frame.len() as int, stride as int, 0, 0, w as int, h as int),
            frame@ == painted(old_frame, stride as int, 0, 0, w as int, h as int, y as int, 0, pick),
        decreases h - y,
    {
        let mut x: usize = 0;
        while x < w
            invariant
                x <= w,
                y < h,
                w == scr.width,
                h == scr.height,
                stride == scr.stride,
                len == old_frame.len(),
                doom@.len() >= DOOM_WIDTH * DOOM_HEIGHT,
                scr.width * 640 <= usize::MAX,
                scr.height * 400 <= usize::MAX,
                pick == frame_pick(doom@, scr.width as int, scr.height as int),
                box_fits(old_frame.len() as int, stride as int, 0, 0, w as int, h as int),
                frame@ == painted(old_frame, stride as int, 0, 0, w as int, h as int, y as int, x as int, pick),
            decreases w - x,
        {
            proof {
                lemma_index_bound(old_frame.len() as int, stride as int, 0, 0, w as int, h as int, x as int, y as int);
                lemma_paint_step(old_frame, stride as int, 0, 0, w as int, h as int, x as int, y as int, pick);
                assert(y <= y * stride) by (nonlinear_arith) requires stride >= 1, y >= 0;
            }
            let src = source_index(x, y, w, h);
            let color = doom[src];
            let idx = y * stride + x;
            frame[idx] = color;
            x = x + 1;
        }
        proof { lemma_row_step(old_frame, stride as int, 0, 0, w as int, h as int, y as int, pick); }
        y = y + 1;
    }
}

/// Drawing a glyph shows the character's bitmap from the font file: the
/// bitmap of `ch` starts `font.glyph_start + ch * font.bpg` bytes into the
/// file, each row takes `(width + 7) / 8` bytes, and pixel (`x`, `y`) of the
/// cell whose top left corner is at (`MARGIN + col * width`, `MARGIN + row
/// * height`) takes `color` when bit `7 - x % 8` of its byte is set, black
/// otherwise.
pub proof fn law_glyph_pixels(
    old: Seq<u32>,
    scr: Screen,
    font: Font,
    font_bytes: Seq<u8>,
    rows: int,
    col: usize,
    row: usize,
    ch: char,
    color: u32,
    x: int,
    y: int,
)
    requires
        paint_ok(old.len() as int, scr, font, font_bytes, rows, DrawOp::Glyph { col, row, ch, color }),
        0 <= x < font.width,
        0 <= y < font.height,
    ensures
        ({
            let byte = font_bytes[font.glyph_start + (ch as int) * font.bpg + y * ((font.width + 7) / 8) + x / 8];
            let index = (MARGIN + row * font.height + y) * scr.stride + MARGIN + col * font.width + x;
            &&& 0 <= index < old.len()
            &&& painted_op(old, scr, font, font_bytes, rows, DrawOp::Glyph { col, row, ch, color })[index]
                == if byte & (0x80u8 >> ((x % 8) as u8)) != 0 { color } else { 0u32 }
        }),
{
    let px = MARGIN + col * font.width;
    let py = MARGIN + row * font.height;
    assert(col * font.width >= 0) by (nonlinear_arith) requires col >= 0, font.width >= 0;
    assert(row * font.height >= 0) by (nonlinear_arith) requires row >= 0, font.height >= 0;
    lemma_index_coords(scr.stride as int, px, py, x, y);
    lemma_index_bound(old.len() as int, scr.stride as int, px, py, font.width as int, font.height as int, x, y);
    assert(pixel_index(scr.stride as int, px, py, x, y) == (py + y) * scr.stride + px + x);
}

} // verus!
