//! PC Screen Font headers.  A PSF2 file starts with the magic number
//! 0x864ab572 and keeps the glyph offset, bytes per glyph, height and width
//! as little-endian 32-bit words at bytes 8, 20, 24 and 28.  Anything else
//! is read as PSF1: four header bytes, byte 3 giving the glyph height (and
//! bytes per glyph), eight pixels wide.

use vstd::prelude::*;

verus! {

/// Magic number of a PSF2 font.
pub const PSF2_MAGIC: u32 = 0x864a_b572;

/// Where the glyphs start and how big they are.
#[derive(Copy, Clone, PartialEq, Eq, Structural, Debug)]
pub struct Font {
    pub glyph_start: usize,
    pub bpg: usize,
    pub height: usize,
    pub width: usize,
}

/// The little-endian 32-bit word at `offset`.
pub open spec fn le_u32(s: Seq<u8>, offset: int) -> int {
    s[offset] + s[offset + 1] * 256 + s[offset + 2] * 65536 + s[offset + 3] * 16777216
}

/// Reads the little-endian 32-bit word at `offset`.
pub fn u32(font: &[u8], offset: usize) -> (r: u32)
    requires
        offset + 4 <= font@.len(),
    ensures
        r == le_u32(font@, offset as int),
{
    font[offset] as u32 + font[offset + 1] as u32 * 256 + font[offset + 2] as u32 * 65536
        + font[offset + 3] as u32 * 16777216
}

/// The header fields that `parse_font` reads lie inside the file.
pub open spec fn header_fits(font: Seq<u8>) -> bool {
    &&& font.len() >= 4
    &&& le_u32(font, 0) == PSF2_MAGIC ==> font.len() >= 32
}

/// The layout of the font in `font`.
pub fn parse_font(font: &[u8]) -> (f: Font)
    requires
        header_fits(font@),
    ensures
        le_u32(font@, 0) == PSF2_MAGIC ==> f == (Font {
            glyph_start: le_u32(font@, 8) as usize,
            bpg: le_u32(font@, 20) as usize,
            height: le_u32(font@, 24) as usize,
            width: le_u32(font@, 28) as usize,
        }),
        le_u32(font@, 0) != PSF2_MAGIC ==> f == (Font {
            glyph_start: 4,
            bpg: font@[3] as usize,
            height: font@[3] as usize,
            width: 8,
        }),
{
    if u32(font, 0) == PSF2_MAGIC {
        Font {
            glyph_start: u32(font, 8) as usize,
            bpg: u32(font, 20) as usize,
            height: u32(font, 24) as usize,
            width: u32(font, 28) as usize,
        }
    } else {
        let charsize = font[3] as usize;
        Font { glyph_start: 4, bpg: charsize, height: charsize, width: 8 }
    }
}

} // verus!
