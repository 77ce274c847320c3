//! Conversions between the units of the crate.
//!
//! Pixel and cell positions and lengths are `u16`, indices and lengths of cell
//! arrays are `usize`, pixel positions inside a cell and pixel offsets are `u8`.
use crate::cell::{PIXEL_HEIGHT, PIXEL_WIDTH};
use vstd::prelude::*;

verus! {

/// The product of two cell lengths fits in 32 bits, and a position inside a
/// grid has its row-major index inside the grid's array.
pub proof fn lemma_index_in_grid(x: int, y: int, width: int, height: int)
    requires
        0 <= x < width <= 0xffff,
        0 <= y < height <= 0xffff,
    ensures
        0 <= y * width + x < width * height <= 0xfffe_0001,
{
    assert(y * width + x < width * height && 0 <= y * width && width * height <= 0xfffe_0001)
        by (nonlinear_arith)
        requires
            0 <= x < width <= 0xffff,
            0 <= y < height <= 0xffff,
    ;
}

/// A position inside a grid of any size has its row-major index inside the
/// grid's array.
pub proof fn lemma_index_in_grid_int(x: int, y: int, width: int, height: int)
    requires
        0 <= x < width,
        0 <= y < height,
    ensures
        0 <= y * width + x < width * height,
{
    assert(y * width + x < width * height && 0 <= y * width) by (nonlinear_arith)
        requires
            0 <= x < width,
            0 <= y < height,
    ;
}

/// The row-major index of a position gives the position back.
pub proof fn lemma_index_parts(x: int, y: int, width: int)
    requires
        0 <= x < width,
    ensures
        (y * width + x) % width == x,
        (y * width + x) / width == y,
{
    vstd::arithmetic::div_mod::lemma_fundamental_div_mod_converse(y * width + x, width, y, x);
}

/// Computes an array length from its (x, y) dimensions.
pub(crate) fn cell_length(width: u16, height: u16) -> (r: usize)
    ensures
        r == width * height,
{
    assert(width * height <= 0xfffe_0001) by (nonlinear_arith)
        requires
            0 <= width <= 0xffff,
            0 <= height <= 0xffff,
    ;
    (width as u32 * height as u32) as usize
}

/// Converts from a (x, y) pixel position inside a cell to a pixel offset.
pub(crate) fn px_offset(x: u8, y: u8) -> (r: u8)
    requires
        2 * y + x <= 0xff,
    ensures
        r == 2 * y + x,
{
    PIXEL_WIDTH * y + x
}

/// Converts from a pixel offset to a (x, y) pixel position inside a cell.
pub(crate) fn offset_px(offset: u8) -> (r: (u8, u8))
    ensures
        r.0 == offset % 2,
        r.1 == offset / 2,
{
    (offset % PIXEL_WIDTH, offset / PIXEL_WIDTH)
}

/// Converts from a (x, y) pixel position to its components:
/// `((x cell coordinate, x inside the cell), (y cell coordinate, y inside the cell))`.
pub(crate) fn pos_components(x: u16, y: u16) -> (r: ((u16, u8), (u16, u8)))
    ensures
        r.0.0 == x / 2,
        r.0.1 == x % 2,
        r.1.0 == y / 4,
        r.1.1 == y % 4,
{
    ((x / PIXEL_WIDTH as u16, (x % PIXEL_WIDTH as u16) as u8), (
        y / PIXEL_HEIGHT as u16,
        (y % PIXEL_HEIGHT as u16) as u8,
    ))
}

/// Converts from a (x, y) position to a row-major array index.
pub(crate) fn index(x: u16, y: u16, width: u16) -> (r: usize)
    ensures
        r == y * width + x,
{
    assert(y * width <= 0xfffe_0001) by (nonlinear_arith)
        requires
            0 <= y <= 0xffff,
            0 <= width <= 0xffff,
    ;
    (y as u32 * width as u32 + x as u32) as usize
}

/// The (x, y) position of a row-major array index in a grid of the given
/// width. Only the low 32 bits of the index count, and of the row only its low
/// 16 bits.
pub open spec fn spec_from_index(i: usize, width: int) -> (u16, u16) {
    (
        (((i as int) % 0x1_0000_0000) % width) as u16,
        ((((i as int) % 0x1_0000_0000) / width) % 0x1_0000) as u16,
    )
}

/// Converts from a row-major array index to a (x, y) position. Only the low
/// 32 bits of the index count, and of the row only its low 16 bits.
pub fn from_index(i: usize, width: u16) -> (r: (u16, u16))
    requires
        width > 0,
    ensures
        r == spec_from_index(i, width as int),
        i < width * 0x1_0000 ==> r.0 == (i as int) % (width as int) && r.1 == (i as int) / (
        width as int),
{
    let wide: u64 = i as u64;
    let low: u32 = #[verifier::truncate]
    (wide as u32);
    let row: u32 = low / width as u32;
    proof {
        assert(wide as u32 == wide % 0x1_0000_0000) by (bit_vector);
        assert(row as u16 == row % 0x1_0000) by (bit_vector);
        assert((i as int) < width * 0x1_0000 ==> (i as int) < 0x1_0000_0000 && (i as int) / (
        width as int) < 0x1_0000) by (nonlinear_arith)
            requires
                0 < width <= 0xffff,
                0 <= i,
        ;
    }
    ((low % width as u32) as u16, #[verifier::truncate]
    (row as u16))
}

} // verus!
