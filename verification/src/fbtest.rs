//! A tiny full-screen test program: a 32-pixel square that W, A, S and D
//! move one pixel per frame while held, kept on screen, until Escape.

use vstd::prelude::*;
use crate::rawkeys::{KeyCode, RawKey};

verus! {

/// Position of the square and which movement keys are held.
#[derive(Copy, Clone, PartialEq, Eq, Structural, Debug)]
pub struct FbTest {
    pub x: i32,
    pub y: i32,
    pub up: bool,
    pub down: bool,
    pub left: bool,
    pub right: bool,
}

/// `v` limited to `lo..=hi`.
pub open spec fn spec_clamp(v: int, lo: int, hi: int) -> int {
    if v < lo { lo } else if v > hi { hi } else { v }
}

/// Half of `v`, rounded toward zero as integer division does.
pub open spec fn half(v: i32) -> int {
    if v >= 0 { v / 2 } else { -((-v) / 2) }
}

/// A screen `w` pixels wide (or high) leaves room for the square's range.
pub open spec fn fits(w: usize) -> bool {
    (w as i32) >= 16
}

impl FbTest {
    /// Coordinates stay clear of the ends of `i32`.
    pub open spec fn wf(&self) -> bool {
        &&& i32::MIN < self.x < i32::MAX
        &&& i32::MIN < self.y < i32::MAX
    }

    /// The square a little up and left of the centre, nothing held.
    pub fn new(width: usize, height: usize) -> (r: Self)
        ensures
            r.wf(),
            r.x == half(width as i32) - 16,
            r.y == half(height as i32) - 16,
            !r.up && !r.down && !r.left && !r.right,
    {
        FbTest {
            x: width as i32 / 2 - 16,
            y: height as i32 / 2 - 16,
            up: false,
            down: false,
            left: false,
            right: false,
        }
    }

    /// Takes one key event; returns `true` when the program should end
    /// (Escape went down or up).
    pub fn handle_key(&mut self, key: RawKey) -> (quit: bool)
        ensures
            final(self).x == old(self).x,
            final(self).y == old(self).y,
            ({
                let (code, pressed) = match key {
                    RawKey::Press(c) => (c, true),
                    RawKey::Release(c) => (c, false),
                };
                &&& quit == (code == KeyCode::Escape)
                &&& final(self).up == (if code == KeyCode::W { pressed } else { old(self).up })
                &&& final(self).down == (if code == KeyCode::S { pressed } else { old(self).down })
                &&& final(self).left == (if code == KeyCode::A { pressed } else { old(self).left })
                &&& final(self).right == (if code == KeyCode::D { pressed } else { old(self).right })
            }),
    {
        let (code, pressed) = match key {
            RawKey::Press(c) => (c, true),
            RawKey::Release(c) => (c, false),
        };
        match code {
            KeyCode::W => { self.up = pressed; false },
            KeyCode::S => { self.down = pressed; false },
            KeyCode::A => { self.left = pressed; false },
            KeyCode::D => { self.right = pressed; false },
            KeyCode::Escape => true,
            _ => false,
        }
    }

    /// Moves the square one pixel in each held direction and keeps its
    /// corner within `0..=width - 16` by `0..=height - 16`.
    pub fn step(&mut self, width: usize, height: usize)
        requires
            old(self).wf(),
            fits(width),
            fits(height),
        ensures
            final(self).wf(),
            final(self).up == old(self).up && final(self).down == old(self).down,
            final(self).left == old(self).left && final(self).right == old(self).right,
            final(self).x == spec_clamp(
                old(self).x + (if old(self).right { 1int } else { 0 }) - (if old(self).left { 1int } else { 0 }),
                0, (width as i32) - 16),
            final(self).y == spec_clamp(
                old(self).y + (if old(self).down { 1int } else { 0 }) - (if old(self).up { 1int } else { 0 }),
                0, (height as i32) - 16),
            0 <= final(self).x <= (width as i32) - 16,
            0 <= final(self).y <= (height as i32) - 16,
    {
        let mut x = self.x;
        let mut y = self.y;
        if self.up {
            y = y - 1;
        }
        if self.down {
            y = y + 1;
        }
        if self.left {
            x = x - 1;
        }
        if self.right {
            x = x + 1;
        }
        self.x = clamp(x, 0, width as i32 - 16);
        self.y = clamp(y, 0, height as i32 - 16);
    }
}

/// `v` limited to `lo..=hi`.
pub fn clamp(v: i32, lo: i32, hi: i32) -> (r: i32)
    requires
        lo <= hi,
    ensures
        r == spec_clamp(v as int, lo as int, hi as int),
{
    if v < lo {
        lo
    } else if v > hi {
        hi
    } else {
        v
    }
}

} // verus!
