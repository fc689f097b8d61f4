//! What the game asks of the kernel that is not I/O: its key codes,
//! reading key events from the raw queue, its millisecond clock, and how
//! its fixed 640 by 400 picture is scaled onto the screen.

use vstd::prelude::*;
use crate::rawkeys::{KeyCode, RawKey, RawBuffer};
use crate::tasks::TICK_HZ;

verus! {

/// Width and height of the game's picture.
pub const DOOM_WIDTH: usize = 640;
pub const DOOM_HEIGHT: usize = 400;

/// The game's code for a key it uses.
pub open spec fn spec_doom_key(code: KeyCode) -> Option<u8> {
    match code {
        KeyCode::W | KeyCode::ArrowUp => Some(0xADu8),
        KeyCode::S | KeyCode::ArrowDown => Some(0xAFu8),
        KeyCode::A | KeyCode::ArrowLeft => Some(0xACu8),
        KeyCode::D | KeyCode::ArrowRight => Some(0xAEu8),
        KeyCode::LControl | KeyCode::RControl => Some(0xA3u8),
        KeyCode::Spacebar => Some(0xA2u8),
        KeyCode::LShift | KeyCode::RShift => Some(0xB6u8),
        KeyCode::Escape => Some(27u8),
        KeyCode::Return => Some(13u8),
        KeyCode::Tab => Some(9u8),
        KeyCode::Key1 => Some(49u8),
        KeyCode::Key2 => Some(50u8),
        KeyCode::Key3 => Some(51u8),
        KeyCode::Key4 => Some(52u8),
        KeyCode::Key5 => Some(53u8),
        KeyCode::Key6 => Some(54u8),
        KeyCode::Key7 => Some(55u8),
        KeyCode::Y => Some(121u8),
        KeyCode::N => Some(110u8),
        KeyCode::Other => None,
    }
}

/// Translates a key into the game's code: movement on WASD and the arrows,
/// fire on Control, use on Space, run on Shift, menu keys, weapon digits
/// and the Y/N answers.  Other keys mean nothing to the game.
pub fn doom_key(code: KeyCode) -> (r: Option<u8>)
    ensures
        r == spec_doom_key(code),
{
    match code {
        KeyCode::W | KeyCode::ArrowUp => Some(0xAD),
        KeyCode::S | KeyCode::ArrowDown => Some(0xAF),
        KeyCode::A | KeyCode::ArrowLeft => Some(0xAC),
        KeyCode::D | KeyCode::ArrowRight => Some(0xAE),
        KeyCode::LControl | KeyCode::RControl => Some(0xA3),
        KeyCode::Spacebar => Some(0xA2),
        KeyCode::LShift | KeyCode::RShift => Some(0x80 + 0x36),
        KeyCode::Escape => Some(27),
        KeyCode::Return => Some(13),
        KeyCode::Tab => Some(9),
        KeyCode::Key1 => Some(49),
        KeyCode::Key2 => Some(50),
        KeyCode::Key3 => Some(51),
        KeyCode::Key4 => Some(52),
        KeyCode::Key5 => Some(53),
        KeyCode::Key6 => Some(54),
        KeyCode::Key7 => Some(55),
        KeyCode::Y => Some(121),
        KeyCode::N => Some(110),
        KeyCode::Other => None,
    }
}

/// The key of a raw event and whether it went down (1) or up (0).
pub open spec fn event_parts(e: RawKey) -> (KeyCode, i32) {
    match e {
        RawKey::Press(c) => (c, 1i32),
        RawKey::Release(c) => (c, 0i32),
    }
}

/// Index of the first queued event whose key the game knows.
pub open spec fn first_game_event(q: Seq<RawKey>) -> Option<int>
    decreases q.len(),
{
    if q.len() == 0 {
        None
    } else if spec_doom_key(event_parts(q[0]).0) is Some {
        Some(0)
    } else {
        match first_game_event(q.drop_first()) {
            Some(i) => Some(i + 1),
            None => None,
        }
    }
}

/// The game's next key event: events for keys it does not know are taken
/// off the queue and dropped; the first known one comes back as (down,
/// game code).  An exhausted queue gives `None`.
pub fn get_key(raw: &mut RawBuffer) -> (r: Option<(i32, u8)>)
    requires
        old(raw).wf(),
    ensures
        final(raw).wf(),
        match first_game_event(old(raw)@) {
            None => r is None && final(raw)@ == Seq::<RawKey>::empty(),
            Some(i) => {
                let (code, down) = event_parts(old(raw)@[i]);
                &&& r == Some((down, spec_doom_key(code)->0))
                &&& final(raw)@ == old(raw)@.skip(i + 1)
            },
        },
{
    let ghost q0 = raw@;
    let ghost mut dropped: int = 0;
    loop
        invariant
            raw.wf(),
            q0 == old(raw)@,
            0 <= dropped <= q0.len(),
            raw@ == q0.skip(dropped),
            first_game_event(q0) == match first_game_event(raw@) {
                Some(i) => Some(i + dropped),
                None => None,
            },
        decreases raw@.len(),
    {
        let ghost q = raw@;
        match raw.pop_raw() {
            None => {
                return None;
            },
            Some(event) => {
                let (code, down) = match event {
                    RawKey::Press(c) => (c, 1i32),
                    RawKey::Release(c) => (c, 0i32),
                };
                proof {
                    assert(q0.skip(dropped + 1) =~= q.drop_first());
                    assert(q[0] == q0[dropped]);
                    assert(event_parts(event) == (code, down));
                }
                if let Some(k) = doom_key(code) {
                    return Some((down, k));
                }
                proof {
                    dropped = dropped + 1;
                }
            },
        }
    }
}

/// The game's clock in milliseconds at timer tick `ticks`: the tick count
/// cut to 32 bits, times the milliseconds per tick.
pub fn ticks_ms(ticks: u64) -> (r: u32)
    requires
        (ticks as u32) * (1000u64 / TICK_HZ) <= u32::MAX,
    ensures
        r == (ticks as u32) * (1000u64 / TICK_HZ),
{
    ticks as u32 * (1000 / TICK_HZ as u32)
}

/// Where in the game's picture the screen pixel (`x`, `y`) of a `width` by
/// `height` screen takes its colour from.
pub open spec fn spec_source_index(x: int, y: int, width: int, height: int) -> int {
    (y * 400 / height) * 640 + x * 640 / width
}

/// Index into the game's picture of the pixel shown at (`x`, `y`) when the
/// picture is stretched over a `width` by `height` screen.
pub fn source_index(x: usize, y: usize, width: usize, height: usize) -> (r: usize)
    requires
        x < width,
        y < height,
        width * 640 <= usize::MAX,
        height * 400 <= usize::MAX,
    ensures
        r == spec_source_index(x as int, y as int, width as int, height as int),
        r < DOOM_WIDTH * DOOM_HEIGHT,
{
    proof {
        assert(x * 640 < width * 640) by (nonlinear_arith) requires x < width;
        assert(y * 400 < height * 400) by (nonlinear_arith) requires y < height;
        assert((x * 640) as int / (width as int) < 640) by (nonlinear_arith) requires x < width, x >= 0;
        assert((y * 400) as int / (height as int) < 400) by (nonlinear_arith) requires y < height, y >= 0;
    }
    let sx = x * DOOM_WIDTH / width;
    let sy = y * DOOM_HEIGHT / height;
    proof {
        assert(sy * 640 + sx < 640 * 400) by (nonlinear_arith) requires sy < 400, sx < 640, sx >= 0, sy >= 0;
    }
    sy * DOOM_WIDTH + sx
}

/// The game's key codes, key by key: the arrow codes for W/A/S/D and the
/// arrows (up 0xAD, down 0xAF, left 0xAC, right 0xAE), fire 0xA3 on either
/// Control, use 0xA2 on Space, run 0xB6 on either Shift, Escape 27, Return
/// 13, Tab 9, the digits 1 to 7 and the letters y and n as their ASCII
/// codes; no other key has a code.
pub proof fn law_doom_key_table()
    ensures
        spec_doom_key(KeyCode::W) == Some(0xADu8),
        spec_doom_key(KeyCode::ArrowUp) == Some(0xADu8),
        spec_doom_key(KeyCode::S) == Some(0xAFu8),
        spec_doom_key(KeyCode::ArrowDown) == Some(0xAFu8),
        spec_doom_key(KeyCode::A) == Some(0xACu8),
        spec_doom_key(KeyCode::ArrowLeft) == Some(0xACu8),
        spec_doom_key(KeyCode::D) == Some(0xAEu8),
        spec_doom_key(KeyCode::ArrowRight) == Some(0xAEu8),
        spec_doom_key(KeyCode::LControl) == Some(0xA3u8),
        spec_doom_key(KeyCode::RControl) == Some(0xA3u8),
        spec_doom_key(KeyCode::Spacebar) == Some(0xA2u8),
        spec_doom_key(KeyCode::LShift) == Some(0xB6u8),
        spec_doom_key(KeyCode::RShift) == Some(0xB6u8),
        spec_doom_key(KeyCode::Escape) == Some(27u8),
        spec_doom_key(KeyCode::Return) == Some(13u8),
        spec_doom_key(KeyCode::Tab) == Some(9u8),
        spec_doom_key(KeyCode::Key1) == Some(0x31u8),
        spec_doom_key(KeyCode::Key2) == Some(0x32u8),
        spec_doom_key(KeyCode::Key3) == Some(0x33u8),
        spec_doom_key(KeyCode::Key4) == Some(0x34u8),
        spec_doom_key(KeyCode::Key5) == Some(0x35u8),
        spec_doom_key(KeyCode::Key6) == Some(0x36u8),
        spec_doom_key(KeyCode::Key7) == Some(0x37u8),
        spec_doom_key(KeyCode::Y) == Some(0x79u8),
        spec_doom_key(KeyCode::N) == Some(0x6Eu8),
        spec_doom_key(KeyCode::Other) is None,
{
}

/// The four movement directions give four different codes, and a key and
/// its arrow give the same one.
pub proof fn law_doom_directions_distinct()
    ensures
        spec_doom_key(KeyCode::W) != spec_doom_key(KeyCode::S),
        spec_doom_key(KeyCode::W) != spec_doom_key(KeyCode::A),
        spec_doom_key(KeyCode::W) != spec_doom_key(KeyCode::D),
        spec_doom_key(KeyCode::S) != spec_doom_key(KeyCode::A),
        spec_doom_key(KeyCode::S) != spec_doom_key(KeyCode::D),
        spec_doom_key(KeyCode::A) != spec_doom_key(KeyCode::D),
        spec_doom_key(KeyCode::W) == spec_doom_key(KeyCode::ArrowUp),
        spec_doom_key(KeyCode::S) == spec_doom_key(KeyCode::ArrowDown),
        spec_doom_key(KeyCode::A) == spec_doom_key(KeyCode::ArrowLeft),
        spec_doom_key(KeyCode::D) == spec_doom_key(KeyCode::ArrowRight),
{
}

} // verus!
