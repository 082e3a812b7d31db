//! Colors: one canvas cell's value, the fixed four-entry palette, and
//! the circular palette index.
use vstd::prelude::*;

verus! {

/// One canvas cell: red, green, blue and alpha channels, each 0-255.
#[derive(Clone, Copy, PartialEq, Eq, Structural, Debug)]
pub struct Color {
    pub r: u8,
    pub g: u8,
    pub b: u8,
    pub a: u8,
}

/// The fully transparent erase color.
pub open spec fn blank_spec() -> Color {
    Color { r: 0, g: 0, b: 0, a: 0 }
}

/// Opaque black, the preview swatch's background.
pub open spec fn black_spec() -> Color {
    Color { r: 0, g: 0, b: 0, a: 255 }
}

/// Opaque white, the palette's first entry.
pub open spec fn white_spec() -> Color {
    Color { r: 255, g: 255, b: 255, a: 255 }
}

pub fn blank() -> (c: Color)
    ensures
        c == blank_spec(),
{
    Color { r: 0, g: 0, b: 0, a: 0 }
}

pub fn black() -> (c: Color)
    ensures
        c == black_spec(),
{
    Color { r: 0, g: 0, b: 0, a: 255 }
}

pub fn white() -> (c: Color)
    ensures
        c == white_spec(),
{
    Color { r: 255, g: 255, b: 255, a: 255 }
}

/// How many colors the palette holds.
pub const PALETTE_LEN: u32 = 4;

/// The fixed palette: white, red, green, blue.
pub open spec fn palette_spec(i: int) -> Color {
    if i == 0 {
        white_spec()
    } else if i == 1 {
        Color { r: 184, g: 55, b: 55, a: 255 }
    } else if i == 2 {
        Color { r: 75, g: 173, b: 64, a: 255 }
    } else {
        Color { r: 53, g: 41, b: 186, a: 255 }
    }
}

pub fn palette_color(i: u32) -> (c: Color)
    requires
        i < PALETTE_LEN,
    ensures
        c == palette_spec(i as int),
{
    if i == 0 {
        Color { r: 255, g: 255, b: 255, a: 255 }
    } else if i == 1 {
        Color { r: 184, g: 55, b: 55, a: 255 }
    } else if i == 2 {
        Color { r: 75, g: 173, b: 64, a: 255 }
    } else {
        Color { r: 53, g: 41, b: 186, a: 255 }
    }
}

/// The palette index one step to the right, wrapping past the end.
pub open spec fn next_color_index_spec(i: int) -> int {
    if i + 1 >= PALETTE_LEN { 0 } else { i + 1 }
}

/// The palette index one step to the left, wrapping past the start.
pub open spec fn prev_color_index_spec(i: int) -> int {
    if i - 1 < 0 { PALETTE_LEN - 1 } else { i - 1 }
}

pub fn next_color_index(i: u32) -> (j: u32)
    requires
        i < PALETTE_LEN,
    ensures
        j == next_color_index_spec(i as int),
        j < PALETTE_LEN,
{
    if i + 1 >= PALETTE_LEN { 0 } else { i + 1 }
}

pub fn prev_color_index(i: u32) -> (j: u32)
    requires
        i < PALETTE_LEN,
    ensures
        j == prev_color_index_spec(i as int),
        j < PALETTE_LEN,
{
    if i == 0 { PALETTE_LEN - 1 } else { i - 1 }
}

/// The palette is circular: from any index, four steps to the right
/// come back to it, and so do four steps to the left. A single step to
/// the left from index 0 lands on the last entry.
pub proof fn lemma_color_cycle_circular(i: int)
    requires
        0 <= i < PALETTE_LEN,
    ensures
        next_color_index_spec(next_color_index_spec(next_color_index_spec(next_color_index_spec(i)))) == i,
        prev_color_index_spec(prev_color_index_spec(prev_color_index_spec(prev_color_index_spec(i)))) == i,
        prev_color_index_spec(0) == PALETTE_LEN - 1,
{
}

} // verus!
