//! The fixed-pitch bitmap font consumed by the glyph renderer: each
//! supported character maps to a 5-by-7 grid of coverage values,
//! packed into one 64-bit word (row 0 in the lowest five bits, the
//! leftmost column in the highest bit of each row).

use vstd::prelude::*;

verus! {

/// Packs seven 5-bit glyph rows into one word, row 0 lowest.
pub open spec fn spec_pack7(r0: u8, r1: u8, r2: u8, r3: u8, r4: u8, r5: u8, r6: u8) -> u64 {
    (r0 as u64) | ((r1 as u64) << 5) | ((r2 as u64) << 10) | ((r3 as u64) << 15) | ((
    r4 as u64) << 20) | ((r5 as u64) << 25) | ((r6 as u64) << 30)
}

/// Packs seven 5-bit glyph rows into one word, row 0 lowest.
pub fn pack7(r0: u8, r1: u8, r2: u8, r3: u8, r4: u8, r5: u8, r6: u8) -> (r: u64)
    ensures
        r == spec_pack7(r0, r1, r2, r3, r4, r5, r6),
{
    (r0 as u64) | ((r1 as u64) << 5) | ((r2 as u64) << 10) | ((r3 as u64) << 15) | ((
    r4 as u64) << 20) | ((r5 as u64) << 25) | ((r6 as u64) << 30)
}

/// The character a byte is rendered as: anything outside the
/// printable range becomes a space, and lowercase letters fold to
/// their capitals (the table carries one case).
pub open spec fn spec_glyph_key(ch: u8) -> u8 {
    if ch < 0x20 || ch > 0x7e {
        0x20
    } else if 0x61 <= ch <= 0x7a {
        (ch - 0x20) as u8
    } else {
        ch
    }
}

/// The character a byte is rendered as.
pub fn glyph_key(ch: u8) -> (r: u8)
    ensures
        r == spec_glyph_key(ch),
{
    if ch < 0x20 || ch > 0x7e {
        0x20
    } else if 0x61 <= ch && ch <= 0x7a {
        ch - 0x20
    } else {
        ch
    }
}

/// The packed coverage rows of a glyph-table key; characters the
/// table does not carry are blank.
pub open spec fn spec_glyph_bits(ch: u8) -> u64 {
    match ch {
        0x30u8 => spec_pack7(0b01110, 0b10001, 0b10011, 0b10101, 0b11001, 0b10001, 0b01110),
        0x31u8 => spec_pack7(0b00100, 0b01100, 0b00100, 0b00100, 0b00100, 0b00100, 0b01110),
        0x32u8 => spec_pack7(0b01110, 0b10001, 0b00001, 0b00010, 0b00100, 0b01000, 0b11111),
        0x33u8 => spec_pack7(0b11111, 0b00010, 0b00100, 0b00010, 0b00001, 0b10001, 0b01110),
        0x34u8 => spec_pack7(0b00010, 0b00110, 0b01010, 0b10010, 0b11111, 0b00010, 0b00010),
        0x35u8 => spec_pack7(0b11111, 0b10000, 0b11110, 0b00001, 0b00001, 0b10001, 0b01110),
        0x36u8 => spec_pack7(0b00110, 0b01000, 0b10000, 0b11110, 0b10001, 0b10001, 0b01110),
        0x37u8 => spec_pack7(0b11111, 0b00001, 0b00010, 0b00100, 0b01000, 0b01000, 0b01000),
        0x38u8 => spec_pack7(0b01110, 0b10001, 0b10001, 0b01110, 0b10001, 0b10001, 0b01110),
        0x39u8 => spec_pack7(0b01110, 0b10001, 0b10001, 0b01111, 0b00001, 0b00010, 0b01100),
        0x41u8 => spec_pack7(0b01110, 0b10001, 0b10001, 0b11111, 0b10001, 0b10001, 0b10001),
        0x42u8 => spec_pack7(0b11110, 0b10001, 0b10001, 0b11110, 0b10001, 0b10001, 0b11110),
        0x43u8 => spec_pack7(0b01110, 0b10001, 0b10000, 0b10000, 0b10000, 0b10001, 0b01110),
        0x44u8 => spec_pack7(0b11100, 0b10010, 0b10001, 0b10001, 0b10001, 0b10010, 0b11100),
        0x45u8 => spec_pack7(0b11111, 0b10000, 0b10000, 0b11110, 0b10000, 0b10000, 0b11111),
        0x46u8 => spec_pack7(0b11111, 0b10000, 0b10000, 0b11110, 0b10000, 0b10000, 0b10000),
        0x47u8 => spec_pack7(0b01110, 0b10001, 0b10000, 0b10111, 0b10001, 0b10001, 0b01111),
        0x48u8 => spec_pack7(0b10001, 0b10001, 0b10001, 0b11111, 0b10001, 0b10001, 0b10001),
        0x49u8 => spec_pack7(0b01110, 0b00100, 0b00100, 0b00100, 0b00100, 0b00100, 0b01110),
        0x4au8 => spec_pack7(0b00111, 0b00010, 0b00010, 0b00010, 0b00010, 0b10010, 0b01100),
        0x4bu8 => spec_pack7(0b10001, 0b10010, 0b10100, 0b11000, 0b10100, 0b10010, 0b10001),
        0x4cu8 => spec_pack7(0b10000, 0b10000, 0b10000, 0b10000, 0b10000, 0b10000, 0b11111),
        0x4du8 => spec_pack7(0b10001, 0b11011, 0b10101, 0b10101, 0b10001, 0b10001, 0b10001),
        0x4eu8 => spec_pack7(0b10001, 0b10001, 0b11001, 0b10101, 0b10011, 0b10001, 0b10001),
        0x4fu8 => spec_pack7(0b01110, 0b10001, 0b10001, 0b10001, 0b10001, 0b10001, 0b01110),
        0x50u8 => spec_pack7(0b11110, 0b10001, 0b10001, 0b11110, 0b10000, 0b10000, 0b10000),
        0x51u8 => spec_pack7(0b01110, 0b10001, 0b10001, 0b10001, 0b10101, 0b10010, 0b01101),
        0x52u8 => spec_pack7(0b11110, 0b10001, 0b10001, 0b11110, 0b10100, 0b10010, 0b10001),
        0x53u8 => spec_pack7(0b01111, 0b10000, 0b10000, 0b01110, 0b00001, 0b00001, 0b11110),
        0x54u8 => spec_pack7(0b11111, 0b00100, 0b00100, 0b00100, 0b00100, 0b00100, 0b00100),
        0x55u8 => spec_pack7(0b10001, 0b10001, 0b10001, 0b10001, 0b10001, 0b10001, 0b01110),
        0x56u8 => spec_pack7(0b10001, 0b10001, 0b10001, 0b10001, 0b10001, 0b01010, 0b00100),
        0x57u8 => spec_pack7(0b10001, 0b10001, 0b10001, 0b10101, 0b10101, 0b10101, 0b01010),
        0x58u8 => spec_pack7(0b10001, 0b10001, 0b01010, 0b00100, 0b01010, 0b10001, 0b10001),
        0x59u8 => spec_pack7(0b10001, 0b10001, 0b01010, 0b00100, 0b00100, 0b00100, 0b00100),
        0x5au8 => spec_pack7(0b11111, 0b00001, 0b00010, 0b00100, 0b01000, 0b10000, 0b11111),
        0x2eu8 => spec_pack7(0b00000, 0b00000, 0b00000, 0b00000, 0b00000, 0b01100, 0b01100),
        0x2cu8 => spec_pack7(0b00000, 0b00000, 0b00000, 0b00000, 0b01100, 0b00100, 0b01000),
        0x3au8 => spec_pack7(0b00000, 0b01100, 0b01100, 0b00000, 0b01100, 0b01100, 0b00000),
        0x2du8 => spec_pack7(0b00000, 0b00000, 0b00000, 0b11111, 0b00000, 0b00000, 0b00000),
        0x2bu8 => spec_pack7(0b00000, 0b00100, 0b00100, 0b11111, 0b00100, 0b00100, 0b00000),
        0x25u8 => spec_pack7(0b11001, 0b11010, 0b00010, 0b00100, 0b01000, 0b01011, 0b10011),
        0x28u8 => spec_pack7(0b00010, 0b00100, 0b01000, 0b01000, 0b01000, 0b00100, 0b00010),
        0x29u8 => spec_pack7(0b01000, 0b00100, 0b00010, 0b00010, 0b00010, 0b00100, 0b01000),
        0x2fu8 => spec_pack7(0b00001, 0b00010, 0b00010, 0b00100, 0b01000, 0b01000, 0b10000),
        _ => 0u64,
    }
}

/// The packed coverage rows of a glyph-table key.
pub fn glyph_bits(ch: u8) -> (r: u64)
    ensures
        r == spec_glyph_bits(ch),
{
    match ch {
        0x30u8 => pack7(0b01110, 0b10001, 0b10011, 0b10101, 0b11001, 0b10001, 0b01110),
        0x31u8 => pack7(0b00100, 0b01100, 0b00100, 0b00100, 0b00100, 0b00100, 0b01110),
        0x32u8 => pack7(0b01110, 0b10001, 0b00001, 0b00010, 0b00100, 0b01000, 0b11111),
        0x33u8 => pack7(0b11111, 0b00010, 0b00100, 0b00010, 0b00001, 0b10001, 0b01110),
        0x34u8 => pack7(0b00010, 0b00110, 0b01010, 0b10010, 0b11111, 0b00010, 0b00010),
        0x35u8 => pack7(0b11111, 0b10000, 0b11110, 0b00001, 0b00001, 0b10001, 0b01110),
        0x36u8 => pack7(0b00110, 0b01000, 0b10000, 0b11110, 0b10001, 0b10001, 0b01110),
        0x37u8 => pack7(0b11111, 0b00001, 0b00010, 0b00100, 0b01000, 0b01000, 0b01000),
        0x38u8 => pack7(0b01110, 0b10001, 0b10001, 0b01110, 0b10001, 0b10001, 0b01110),
        0x39u8 => pack7(0b01110, 0b10001, 0b10001, 0b01111, 0b00001, 0b00010, 0b01100),
        0x41u8 => pack7(0b01110, 0b10001, 0b10001, 0b11111, 0b10001, 0b10001, 0b10001),
        0x42u8 => pack7(0b11110, 0b10001, 0b10001, 0b11110, 0b10001, 0b10001, 0b11110),
        0x43u8 => pack7(0b01110, 0b10001, 0b10000, 0b10000, 0b10000, 0b10001, 0b01110),
        0x44u8 => pack7(0b11100, 0b10010, 0b10001, 0b10001, 0b10001, 0b10010, 0b11100),
        0x45u8 => pack7(0b11111, 0b10000, 0b10000, 0b11110, 0b10000, 0b10000, 0b11111),
        0x46u8 => pack7(0b11111, 0b10000, 0b10000, 0b11110, 0b10000, 0b10000, 0b10000),
        0x47u8 => pack7(0b01110, 0b10001, 0b10000, 0b10111, 0b10001, 0b10001, 0b01111),
        0x48u8 => pack7(0b10001, 0b10001, 0b10001, 0b11111, 0b10001, 0b10001, 0b10001),
        0x49u8 => pack7(0b01110, 0b00100, 0b00100, 0b00100, 0b00100, 0b00100, 0b01110),
        0x4au8 => pack7(0b00111, 0b00010, 0b00010, 0b00010, 0b00010, 0b10010, 0b01100),
        0x4bu8 => pack7(0b10001, 0b10010, 0b10100, 0b11000, 0b10100, 0b10010, 0b10001),
        0x4cu8 => pack7(0b10000, 0b10000, 0b10000, 0b10000, 0b10000, 0b10000, 0b11111),
        0x4du8 => pack7(0b10001, 0b11011, 0b10101, 0b10101, 0b10001, 0b10001, 0b10001),
        0x4eu8 => pack7(0b10001, 0b10001, 0b11001, 0b10101, 0b10011, 0b10001, 0b10001),
        0x4fu8 => pack7(0b01110, 0b10001, 0b10001, 0b10001, 0b10001, 0b10001, 0b01110),
        0x50u8 => pack7(0b11110, 0b10001, 0b10001, 0b11110, 0b10000, 0b10000, 0b10000),
        0x51u8 => pack7(0b01110, 0b10001, 0b10001, 0b10001, 0b10101, 0b10010, 0b01101),
        0x52u8 => pack7(0b11110, 0b10001, 0b10001, 0b11110, 0b10100, 0b10010, 0b10001),
        0x53u8 => pack7(0b01111, 0b10000, 0b10000, 0b01110, 0b00001, 0b00001, 0b11110),
        0x54u8 => pack7(0b11111, 0b00100, 0b00100, 0b00100, 0b00100, 0b00100, 0b00100),
        0x55u8 => pack7(0b10001, 0b10001, 0b10001, 0b10001, 0b10001, 0b10001, 0b01110),
        0x56u8 => pack7(0b10001, 0b10001, 0b10001, 0b10001, 0b10001, 0b01010, 0b00100),
        0x57u8 => pack7(0b10001, 0b10001, 0b10001, 0b10101, 0b10101, 0b10101, 0b01010),
        0x58u8 => pack7(0b10001, 0b10001, 0b01010, 0b00100, 0b01010, 0b10001, 0b10001),
        0x59u8 => pack7(0b10001, 0b10001, 0b01010, 0b00100, 0b00100, 0b00100, 0b00100),
        0x5au8 => pack7(0b11111, 0b00001, 0b00010, 0b00100, 0b01000, 0b10000, 0b11111),
        0x2eu8 => pack7(0b00000, 0b00000, 0b00000, 0b00000, 0b00000, 0b01100, 0b01100),
        0x2cu8 => pack7(0b00000, 0b00000, 0b00000, 0b00000, 0b01100, 0b00100, 0b01000),
        0x3au8 => pack7(0b00000, 0b01100, 0b01100, 0b00000, 0b01100, 0b01100, 0b00000),
        0x2du8 => pack7(0b00000, 0b00000, 0b00000, 0b11111, 0b00000, 0b00000, 0b00000),
        0x2bu8 => pack7(0b00000, 0b00100, 0b00100, 0b11111, 0b00100, 0b00100, 0b00000),
        0x25u8 => pack7(0b11001, 0b11010, 0b00010, 0b00100, 0b01000, 0b01011, 0b10011),
        0x28u8 => pack7(0b00010, 0b00100, 0b01000, 0b01000, 0b01000, 0b00100, 0b00010),
        0x29u8 => pack7(0b01000, 0b00100, 0b00010, 0b00010, 0b00010, 0b00100, 0b01000),
        0x2fu8 => pack7(0b00001, 0b00010, 0b00010, 0b00100, 0b01000, 0b01000, 0b10000),
        _ => 0u64,
    }
}

/// The ink coverage of one glyph pixel: fully ink where the bitmap
/// has the bit set, fully background elsewhere.
pub open spec fn spec_coverage(ch: u8, row: int, col: int) -> u8 {
    if 0 <= row < 7 && 0 <= col < 5 {
        if (spec_glyph_bits(spec_glyph_key(ch)) >> (row * 5 + 4 - col) as u64) & 1 == 1 {
            255
        } else {
            0
        }
    } else {
        0
    }
}

/// The ink coverage of one glyph pixel of the byte `ch`.
pub fn coverage(ch: u8, row: usize, col: usize) -> (r: u8)
    requires
        row < 7,
        col < 5,
    ensures
        r == spec_coverage(ch, row as int, col as int),
{
    let bits = glyph_bits(glyph_key(ch));
    let shift: u64 = (row * 5 + 4 - col) as u64;
    if (bits >> shift) & 1 == 1 {
        255
    } else {
        0
    }
}

} // verus!
