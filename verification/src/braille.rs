//! Packing eight cells into one braille glyph.

use vstd::prelude::*;

verus! {

/// The code point of the braille pattern with no dot raised.
pub const BRAILLE_BASE: u32 = 0x2800;

/// `char::from_u32` of std: every code point outside the surrogate range and
/// up to U+10FFFF is a `char` with that very value; anything else is `None`.
pub assume_specification[ char::from_u32 ](i: u32) -> (r: Option<char>)
    ensures
        r == (if i <= 0xD7FF || (0xE000 <= i && i <= 0x10FFFF) {
            Some(i as char)
        } else {
            None
        }),
;

/// The bit that the cell at `position` of a block raises. A block lists its
/// cells row by row, two per row, so the positions run through the dots
/// 1, 4, 2, 5, 3, 6, 7, 8, and dot `n` is bit `n - 1`.
pub open spec fn dot_bit(position: int) -> nat {
    if position == 0 {
        0x01
    } else if position == 1 {
        0x08
    } else if position == 2 {
        0x02
    } else if position == 3 {
        0x10
    } else if position == 4 {
        0x04
    } else if position == 5 {
        0x20
    } else if position == 6 {
        0x40
    } else if position == 7 {
        0x80
    } else {
        0
    }
}

/// What the cell at `position` adds to the glyph's bit mask.
pub open spec fn dot_term(block: Seq<bool>, position: int) -> nat {
    if block[position] {
        dot_bit(position)
    } else {
        0
    }
}

/// The bit mask of a block of eight cells.
pub open spec fn braille_mask(block: Seq<bool>) -> nat {
    dot_term(block, 0) + dot_term(block, 1) + dot_term(block, 2) + dot_term(block, 3)
        + dot_term(block, 4) + dot_term(block, 5) + dot_term(block, 6) + dot_term(block, 7)
}

/// The braille glyph that shows a block of eight cells.
pub fn braillize(cc: &[bool]) -> (glyph: char)
    requires
        cc@.len() == 8,
    ensures
        glyph as nat == BRAILLE_BASE as nat + braille_mask(cc@),
        0x2800 <= glyph as nat <= 0x28FF,
{
    let mut cell_value: u32 = BRAILLE_BASE;
    if cc[0] {
        cell_value += 0x1;
    }
    if cc[2] {
        cell_value += 0x2;
    }
    if cc[4] {
        cell_value += 0x4;
    }
    if cc[1] {
        cell_value += 0x8;
    }
    if cc[3] {
        cell_value += 0x10;
    }
    if cc[5] {
        cell_value += 0x20;
    }
    if cc[6] {
        cell_value += 0x40;
    }
    if cc[7] {
        cell_value += 0x80;
    }
    char::from_u32(cell_value).unwrap()
}

} // verus!
