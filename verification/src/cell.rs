//! A [`Cell`] is the atomic unit of rendering: a 2x4 bitmap that is drawn to the
//! terminal as one Braille character.
use vstd::prelude::*;
use vstd::utf8::*;

verus! {

/// The unicode scalar value of the first ("empty") braille codepoint.
pub const BRAILLE_BASE_CODEPOINT: u32 = 0x2800;

/// The number of bytes in the UTF-8 encoding of a braille character.
pub const BRAILLE_UTF8_BYTES: usize = 3;

/// A cell is exactly 2 pixels wide.
pub const PIXEL_WIDTH: u8 = 2;

/// A cell is exactly 4 pixels tall.
pub const PIXEL_HEIGHT: u8 = 4;

/// A cell has exactly 2 * 4 = 8 pixel positions.
pub const PIXEL_OFFSETS: u8 = 8;

/// Eight pixels, one bit each. Bit `2 * y + x` is the pixel in column `x` and
/// row `y` of the block:
/// ```txt
/// 0 1
/// 2 3
/// 4 5
/// 6 7
/// ```
/// The Unicode braille block numbers its dots differently:
/// ```txt
/// 0 3
/// 1 4
/// 2 5
/// 6 7
/// ```
/// so a cell's bits are permuted on the way to and from a character.
#[derive(Clone, Copy, Default, Debug, PartialEq, Eq, Structural)]
pub struct Cell {
    /// The internal storage bits.
    pub bits: u8,
}

/// What becomes of a cell that is drawn at a pixel position which is not a
/// multiple of the cell size: its pixels spill into up to four grid cells.
#[derive(Debug, Clone, Copy)]
pub enum OffsetCell {
    /// The cell is aligned to the grid.
    Aligned { cell: Cell },
    /// The cell occupies space in two horizontally adjacent cells.
    Horizontal { left: Cell, right: Cell },
    /// The cell occupies space in two vertically adjacent cells.
    Vertical { up: Cell, down: Cell },
    /// The cell occupies space in four cells around a corner.
    Corner { ul: Cell, ur: Cell, dl: Cell, dr: Cell },
}

/// The braille dot pattern (offset into the braille block) of a pixel bitmap.
pub open spec fn offset_of_bits(bits: u8) -> u8 {
    (bits & 0b1110_0001) | ((bits & 0b10) << 2) | ((bits & 0b100) >> 1) | ((bits & 0b1000) << 1) | (
    (bits & 0b10000) >> 2)
}

/// The pixel bitmap of a braille dot pattern.
pub open spec fn bits_of_offset(offset: u8) -> u8 {
    (offset & 0b1110_0001) | ((offset & 0b10) << 1) | ((offset & 0b100) << 2) | ((offset & 0b1000)
        >> 2) | ((offset & 0b10000) >> 1)
}

/// The braille dot that shows pixel bit `i`.
pub open spec fn dot_of_pixel(i: u8) -> u8 {
    if i == 1 {
        3
    } else if i == 2 {
        1
    } else if i == 3 {
        4
    } else if i == 4 {
        2
    } else {
        i
    }
}

/// Whether bit `i` of `bits` is set.
pub open spec fn bit_is_set(bits: u8, i: u8) -> bool {
    (bits >> i) & 1 == 1
}

/// The part of a bitmap moved one pixel right that stays in its own cell.
pub open spec fn x_stay(bits: u8) -> u8 {
    (bits & 0b0101_0101) << 1
}

/// The part of a bitmap moved one pixel right that lands in the cell to the right.
pub open spec fn x_spill(bits: u8) -> u8 {
    (bits & 0b1010_1010) >> 1
}

/// The part of a bitmap moved `dy` pixels down that stays in its own cell.
pub open spec fn y_stay(bits: u8, dy: u8) -> u8
    recommends
        1 <= dy < 4,
{
    (bits & (((1u8 << ((8 - 2 * dy) as u8)) - 1) as u8)) << ((2 * dy) as u8)
}

/// The part of a bitmap moved `dy` pixels down that lands in the cell below.
pub open spec fn y_spill(bits: u8, dy: u8) -> u8
    recommends
        1 <= dy < 4,
{
    (bits & !(((1u8 << ((8 - 2 * dy) as u8)) - 1) as u8)) >> ((8 - 2 * dy) as u8)
}

/// A cell's pixels on a canvas of 2x2 cells (4 pixels wide, 8 tall; the pixel in
/// column `x` and row `y` of the canvas is bit `4 * y + x`), with the cell in
/// cell column `col` and cell row `row` of the canvas.
pub open spec fn on_canvas(bits: u8, col: u32, row: u32) -> u32 {
    (((bits as u32) & 0x03) | (((bits as u32) & 0x0c) << 2) | (((bits as u32) & 0x30) << 4) | (((
    bits as u32) & 0xc0) << 6)) << ((2 * col + 16 * row) as u32)
}

impl OffsetCell {
    /// The four grid cells that the pieces occupy, as (upper left, upper right,
    /// lower left, lower right); a cell that gets no piece is empty.
    pub open spec fn quad(self) -> (Cell, Cell, Cell, Cell) {
        match self {
            OffsetCell::Aligned { cell } => (cell, Cell { bits: 0 }, Cell { bits: 0 }, Cell {
                bits: 0,
            }),
            OffsetCell::Horizontal { left, right } => (left, right, Cell { bits: 0 }, Cell {
                bits: 0,
            }),
            OffsetCell::Vertical { up, down } => (up, Cell { bits: 0 }, down, Cell { bits: 0 }),
            OffsetCell::Corner { ul, ur, dl, dr } => (ul, ur, dl, dr),
        }
    }

    /// Whether the pixel in column `x` and row `y` of the 2x2 cells is set:
    /// that is a pixel of the cell in cell column `x / 2` and cell row `y / 4`.
    pub open spec fn pixel(self, x: u8, y: u8) -> bool
        recommends
            x < 4,
            y < 8,
    {
        (if y < 4 {
            if x < 2 {
                self.quad().0
            } else {
                self.quad().1
            }
        } else {
            if x < 2 {
                self.quad().2
            } else {
                self.quad().3
            }
        }).pixel(x % 2, y % 4)
    }

    /// All pieces drawn on one canvas of 2x2 cells.
    pub open spec fn canvas(self) -> u32 {
        on_canvas(self.quad().0.bits, 0, 0) | on_canvas(self.quad().1.bits, 1, 0) | on_canvas(
            self.quad().2.bits,
            0,
            1,
        ) | on_canvas(self.quad().3.bits, 1, 1)
    }
}

/// `char::from_u32`: a Unicode scalar value (anything up to 0x10FFFF outside the
/// surrogate range) is returned as that character, any other number gives `None`.
#[verifier::external_body]
fn char_from_u32(value: u32) -> (r: Option<char>)
    ensures
        is_scalar(value) ==> r == Some(value as char),
        !is_scalar(value) ==> r is None,
{
    char::from_u32(value)
}

impl Cell {
    /// The cell that `with_offset` splits `self` into, for offsets already
    /// reduced to `dx < 2` and `dy < 4`.
    pub open spec fn split(self, dx: u8, dy: u8) -> OffsetCell
        recommends
            dx < 2,
            dy < 4,
    {
        if dx == 0 && dy == 0 {
            OffsetCell::Aligned { cell: self }
        } else if dy == 0 {
            OffsetCell::Horizontal {
                left: Cell { bits: x_stay(self.bits) },
                right: Cell { bits: x_spill(self.bits) },
            }
        } else if dx == 0 {
            OffsetCell::Vertical {
                up: Cell { bits: y_stay(self.bits, dy) },
                down: Cell { bits: y_spill(self.bits, dy) },
            }
        } else {
            OffsetCell::Corner {
                ul: Cell { bits: x_stay(y_stay(self.bits, dy)) },
                ur: Cell { bits: x_spill(y_stay(self.bits, dy)) },
                dl: Cell { bits: x_stay(y_spill(self.bits, dy)) },
                dr: Cell { bits: x_spill(y_spill(self.bits, dy)) },
            }
        }
    }

    /// The braille character that shows this cell.
    pub open spec fn braille_char(self) -> char {
        ((0x2800 + offset_of_bits(self.bits)) as u32) as char
    }

    /// The cell that a character shows, if it is a braille character.
    pub open spec fn of_braille_char(c: char) -> Option<Cell> {
        if 0x2800 <= (c as u32) < 0x2900 {
            Some(Cell { bits: bits_of_offset(((c as u32) - 0x2800) as u8) })
        } else {
            None
        }
    }

    /// Whether the pixel in column `x` and row `y` is set.
    pub open spec fn pixel(self, x: u8, y: u8) -> bool
        recommends
            x < 2,
            y < 4,
    {
        bit_is_set(self.bits, (2 * y + x) as u8)
    }

    /// Creates a new empty cell.
    pub fn empty() -> (r: Self)
        ensures
            r.bits == 0,
    {
        Self::new(0)
    }

    /// Returns true whenever the cell is empty.
    pub fn is_empty(&self) -> (r: bool)
        ensures
            r == (self.bits == 0),
    {
        self.bits == 0
    }

    /// Creates a new full cell.
    pub fn full() -> (r: Self)
        ensures
            r.bits == 0xff,
    {
        Self::new(0xff)
    }

    /// Returns true whenever the cell is full.
    pub fn is_full(&self) -> (r: bool)
        ensures
            r == (self.bits == 0xff),
    {
        self.bits == 0xff
    }

    /// Create a new cell with the specified internal bits.
    pub fn new(bits: u8) -> (r: Self)
        ensures
            r.bits == bits,
    {
        Self { bits }
    }

    /// Create a new cell with a single pixel set, in column `x` and row `y`.
    ///
    /// Returns `Some` when the position fits within a single cell, `None` otherwise.
    pub fn from_bit_position(x: u8, y: u8) -> (r: Option<Self>)
        ensures
            r is Some <==> x < 2 && y < 4,
            r is Some ==> r->0.bits == 1u8 << ((2 * y + x) as u8),
            r is Some ==> forall|px: u8, py: u8|
                px < 2 && py < 4 ==> (#[trigger] r->0.pixel(px, py) <==> px == x && py == y),
    {
        if x < PIXEL_WIDTH && y < PIXEL_HEIGHT {
            let shift: u8 = PIXEL_WIDTH * y + x;
            let bits: u8 = 1u8 << shift;
            proof {
                let cell = Cell { bits };
                assert forall|px: u8, py: u8| px < 2 && py < 4 implies (#[trigger] cell.pixel(
                    px,
                    py,
                ) <==> px == x && py == y) by {
                    let i: u8 = (2 * py + px) as u8;
                    assert(shift < 8 && i < 8 && bits == 1u8 << shift ==> (((bits >> i) & 1 == 1)
                        <==> i == shift)) by (bit_vector);
                }
            }
            Some(Self::new(bits))
        } else {
            None
        }
    }

    /// Computes the Unicode codepoint offset format of the braille character:
    /// every pixel bit moved to the bit of the dot that shows it.
    pub fn braille_offset(self) -> (r: u8)
        ensures
            r == offset_of_bits(self.bits),
    {
        (self.bits & 0b1110_0001) | ((self.bits & 0b10) << 2) | ((self.bits & 0b100) >> 1) | ((
        self.bits & 0b1000) << 1) | ((self.bits & 0b10000) >> 2)
    }

    /// Creates a cell from its corresponding braille character.
    /// If the given character is not a braille character, returns `None`.
    pub fn from_braille(c: char) -> (r: Option<Self>)
        ensures
            r == Self::of_braille_char(c),
    {
        let codepoint: u32 = c as u32;
        if BRAILLE_BASE_CODEPOINT <= codepoint && codepoint < BRAILLE_BASE_CODEPOINT + 256 {
            let offset: u8 = (codepoint - BRAILLE_BASE_CODEPOINT) as u8;
            let bits: u8 = (offset & 0b1110_0001) | ((offset & 0b10) << 1) | ((offset & 0b100)
                << 2) | ((offset & 0b1000) >> 2) | ((offset & 0b10000) >> 1);
            Some(Self::new(bits))
        } else {
            None
        }
    }

    /// Returns the braille character represented by this cell.
    pub fn to_braille_char(self) -> (c: char)
        ensures
            c == self.braille_char(),
            c as u32 == 0x2800 + offset_of_bits(self.bits),
            Self::of_braille_char(c) == Some(self),
    {
        let offset: u8 = self.braille_offset();
        proof {
            lemma_offset_inverse(self.bits);
        }
        char_from_u32(BRAILLE_BASE_CODEPOINT + offset as u32).unwrap()
    }

    /// Encodes the cell as the UTF-8 bytes of its braille character.
    pub fn to_braille_utf8(self) -> (r: [u8; 3])
        ensures
            r@ == encode_scalar(self.braille_char() as u32),
            r@ == encode_utf8(seq![self.braille_char()]),
            r@ == seq![
                0xE2u8,
                (0xA0 + offset_of_bits(self.bits) / 64) as u8,
                (0x80 + offset_of_bits(self.bits) % 64) as u8,
            ],
    {
        let offset: u8 = self.braille_offset();
        let second: u8 = 0xA0 | (offset >> 6);
        let third: u8 = 0x80 | (offset & 0x3F);
        let r: [u8; 3] = [0xE2, second, third];
        proof {
            let scalar: u32 = (0x2800 + offset) as u32;
            assert(second == 0x80 | ((scalar >> 6) & 0x3F) as u8 && third == 0x80 | (scalar
                & 0x3F) as u8 && 0xE2u8 == 0xE0 | ((scalar >> 12) & 0x0F) as u8 && second == 0xA0
                + offset / 64 && third == 0x80 + offset % 64) by (bit_vector)
                requires
                    scalar == 0x2800 + offset,
                    second == 0xA0 | (offset >> 6),
                    third == 0x80 | (offset & 0x3F),
            ;
            assert(r@ =~= encode_scalar(scalar));
            lemma_encode_one(self.braille_char());
            assert(r@ =~= seq![0xE2u8, second, third]);
        }
        r
    }

    fn compute_x_offset(self) -> (r: (Cell, Cell))
        ensures
            r.0.bits == x_stay(self.bits),
            r.1.bits == x_spill(self.bits),
    {
        let mask: u8 = 0b0101_0101;
        let first: u8 = (self.bits & mask) << 1u8;
        let second: u8 = (self.bits & !mask) >> 1u8;
        proof {
            let b = self.bits;
            assert(b & !0b0101_0101u8 == b & 0b1010_1010u8) by (bit_vector);
        }
        (Cell::new(first), Cell::new(second))
    }

    fn compute_y_offset(self, y_offset: u8) -> (r: (Cell, Cell))
        requires
            1 <= y_offset < 4,
        ensures
            r.0.bits == y_stay(self.bits, y_offset),
            r.1.bits == y_spill(self.bits, y_offset),
    {
        let rest: u8 = PIXEL_HEIGHT - y_offset;
        let stride: u8 = PIXEL_WIDTH;
        let one: u8 = 1;
        let high: u8 = one << (stride * rest);
        proof {
            assert(high >= 1) by (bit_vector)
                requires
                    high == 1u8 << ((2 * rest) as u8),
                    1 <= rest < 4,
            ;
        }
        let mask: u8 = high - 1;
        let first: u8 = (self.bits & mask) << (stride * (PIXEL_HEIGHT - rest));
        let second: u8 = (self.bits & !mask) >> (stride * rest);
        (Cell::new(first), Cell::new(second))
    }

    /// Computes the cells that this cell's pixels end up in when it is moved
    /// right by `x_offset` and down by `y_offset` pixels. The offsets are taken
    /// modulo the cell's width and height.
    pub fn with_offset(self, x_offset: u8, y_offset: u8) -> (r: OffsetCell)
        ensures
            r == self.split(x_offset % 2, y_offset % 4),
            r.canvas() == on_canvas(self.bits, 0, 0) << ((x_offset % 2 + 4 * (y_offset % 4)) as u32),
    {
        let x_offset: u8 = x_offset % PIXEL_WIDTH;
        let y_offset: u8 = y_offset % PIXEL_HEIGHT;
        proof {
            lemma_split_conserves_bits(self, x_offset, y_offset);
        }
        if x_offset == 0 && y_offset == 0 {
            OffsetCell::Aligned { cell: self }
        } else if y_offset == 0 {
            let (left, right) = self.compute_x_offset();
            OffsetCell::Horizontal { left, right }
        } else if x_offset == 0 {
            let (up, down) = self.compute_y_offset(y_offset);
            OffsetCell::Vertical { up, down }
        } else {
            let (top, bottom) = self.compute_y_offset(y_offset);
            let (ul, ur) = top.compute_x_offset();
            let (dl, dr) = bottom.compute_x_offset();
            OffsetCell::Corner { ul, ur, dl, dr }
        }
    }
}

impl std::ops::BitOr for Cell {
    type Output = Cell;

    /// Creates a new cell with the pixels that are set in either `self` or `rhs`.
    fn bitor(self, rhs: Self) -> (r: Cell)
        ensures
            r.bits == self.bits | rhs.bits,
    {
        Cell::new(self.bits | rhs.bits)
    }
}

impl vstd::std_specs::ops::BitOrSpecImpl for Cell {
    open spec fn obeys_bitor_spec() -> bool {
        true
    }

    open spec fn bitor_req(self, rhs: Self) -> bool {
        true
    }

    open spec fn bitor_spec(self, rhs: Self) -> Cell {
        Cell { bits: self.bits | rhs.bits }
    }
}

/// The two bit permutations undo each other.
pub proof fn lemma_offset_inverse(bits: u8)
    ensures
        bits_of_offset(offset_of_bits(bits)) == bits,
        offset_of_bits(bits_of_offset(bits)) == bits,
{
    assert(bits_of_offset(offset_of_bits(bits)) == bits) by (bit_vector);
    assert(offset_of_bits(bits_of_offset(bits)) == bits) by (bit_vector);
}

/// The UTF-8 encoding of two strings put together is their encodings put
/// together.
pub proof fn lemma_encode_concat(a: Seq<char>, b: Seq<char>)
    ensures
        encode_utf8(a + b) == encode_utf8(a) + encode_utf8(b),
    decreases a.len(),
{
    if a.len() == 0 {
        assert(a + b =~= b);
        assert(encode_utf8(a) + encode_utf8(b) =~= encode_utf8(b));
    } else {
        lemma_encode_concat(a.drop_first(), b);
        assert((a + b).drop_first() =~= a.drop_first() + b);
        assert(encode_utf8(a + b) =~= encode_utf8(a) + encode_utf8(b));
    }
}

/// The UTF-8 encoding of a one-character string is the encoding of its scalar.
pub proof fn lemma_encode_one(c: char)
    ensures
        encode_utf8(seq![c]) == encode_scalar(c as u32),
{
    let s = seq![c];
    assert(s.drop_first() =~= Seq::<char>::empty());
    assert(encode_utf8(s.drop_first()) =~= Seq::<u8>::empty()) by {
        reveal_with_fuel(encode_utf8, 1);
    }
    assert(encode_utf8(s) =~= encode_scalar(c as u32)) by {
        reveal_with_fuel(encode_utf8, 2);
    }
}

/// Every pixel is shown by its own braille dot: pixel bit `i` is set exactly
/// when bit `dot_of_pixel(i)` of the braille offset is set.
pub proof fn lemma_offset_moves_each_pixel(cell: Cell, i: u8)
    requires
        i < 8,
    ensures
        bit_is_set(offset_of_bits(cell.bits), dot_of_pixel(i)) == bit_is_set(cell.bits, i),
{
    let b = cell.bits;
    assert(i < 8 ==> bit_is_set(offset_of_bits(b), dot_of_pixel(i)) == bit_is_set(b, i))
        by (bit_vector);
}

/// A cell survives the trip to its braille character and back, and the UTF-8
/// bytes of that character decode to the character again.
pub proof fn lemma_braille_round_trip(cell: Cell)
    ensures
        Cell::of_braille_char(cell.braille_char()) == Some(cell),
        decode_utf8(encode_utf8(seq![cell.braille_char()])) == seq![cell.braille_char()],
        valid_utf8(encode_utf8(seq![cell.braille_char()])),
{
    broadcast use encode_utf8_decode_utf8, encode_utf8_valid_utf8;

    lemma_offset_inverse(cell.bits);
}

/// A braille character survives the trip to its cell and back.
pub proof fn lemma_braille_char_round_trip(c: char)
    requires
        Cell::of_braille_char(c) is Some,
    ensures
        Cell::of_braille_char(c)->0.braille_char() == c,
{
    let offset: u8 = ((c as u32) - 0x2800) as u8;
    lemma_offset_inverse(offset);
}

/// Different cells have different braille offsets, and every byte is the
/// braille offset of some cell: the offsets are a permutation of the bytes.
pub proof fn lemma_offset_is_permutation(a: Cell, b: Cell, offset: u8)
    ensures
        a != b ==> offset_of_bits(a.bits) != offset_of_bits(b.bits),
        offset_of_bits(bits_of_offset(offset)) == offset,
{
    lemma_offset_inverse(a.bits);
    lemma_offset_inverse(b.bits);
    lemma_offset_inverse(offset);
}

/// Splitting a cell over the grid neither drops nor repeats a pixel: the
/// pieces, drawn in their four cells, are the cell's own pixels moved right by
/// `dx` and down by `dy`.
pub proof fn lemma_split_conserves_bits(cell: Cell, dx: u8, dy: u8)
    requires
        dx < 2,
        dy < 4,
    ensures
        cell.split(dx, dy).canvas() == on_canvas(cell.bits, 0, 0) << ((dx + 4 * dy) as u32),
{
    let b = cell.bits;
    if dx == 0 && dy == 0 {
        assert((on_canvas(b, 0, 0) | on_canvas(0, 1, 0) | on_canvas(0, 0, 1) | on_canvas(0, 1, 1))
            == on_canvas(b, 0, 0) << 0u32) by (bit_vector);
    } else if dy == 0 {
        assert((on_canvas(x_stay(b), 0, 0) | on_canvas(x_spill(b), 1, 0) | on_canvas(0, 0, 1)
            | on_canvas(0, 1, 1)) == on_canvas(b, 0, 0) << 1u32) by (bit_vector);
    } else if dx == 0 {
        assert(1 <= dy < 4 ==> (on_canvas(y_stay(b, dy), 0, 0) | on_canvas(0, 1, 0) | on_canvas(
            y_spill(b, dy),
            0,
            1,
        ) | on_canvas(0, 1, 1)) == on_canvas(b, 0, 0) << ((4 * dy) as u32)) by (bit_vector);
    } else {
        assert(1 <= dy < 4 ==> (on_canvas(x_stay(y_stay(b, dy)), 0, 0) | on_canvas(
            x_spill(y_stay(b, dy)),
            1,
            0,
        ) | on_canvas(x_stay(y_spill(b, dy)), 0, 1) | on_canvas(x_spill(y_spill(b, dy)), 1, 1))
            == on_canvas(b, 0, 0) << ((1 + 4 * dy) as u32)) by (bit_vector);
    }
}

/// Splitting a cell moves each of its pixels right by `dx` and down by `dy`,
/// and sets no other pixel: a pixel of the 2x2 cells is set exactly where it
/// comes from a pixel of the cell that is set.
pub proof fn lemma_split_moves_each_pixel(cell: Cell, dx: u8, dy: u8, x: u8, y: u8)
    requires
        dx < 2,
        dy < 4,
        x < 4,
        y < 8,
    ensures
        cell.split(dx, dy).pixel(x, y) == (dx <= x < dx + 2 && dy <= y < dy + 4 && cell.pixel(
            (x - dx) as u8,
            (y - dy) as u8,
        )),
{
    lemma_split_conserves_bits(cell, dx, dy);
    let b: u8 = cell.bits;
    let quad = cell.split(dx, dy).quad();
    let ul: u8 = quad.0.bits;
    let ur: u8 = quad.1.bits;
    let dl: u8 = quad.2.bits;
    let dr: u8 = quad.3.bits;
    let piece: u8 = if y < 4 {
        if x < 2 {
            ul
        } else {
            ur
        }
    } else {
        if x < 2 {
            dl
        } else {
            dr
        }
    };
    let canvas: u32 = on_canvas(ul, 0, 0) | on_canvas(ur, 1, 0) | on_canvas(dl, 0, 1) | on_canvas(
        dr,
        1,
        1,
    );
    let i: u8 = (2 * (y % 4) + x % 2) as u8;
    assert(((canvas >> ((4 * y + x) as u32)) & 1 == 1) == bit_is_set(piece, i)) by (bit_vector)
        requires
            x < 4,
            y < 8,
            i == 2 * (y % 4) + x % 2,
            canvas == on_canvas(ul, 0, 0) | on_canvas(ur, 1, 0) | on_canvas(dl, 0, 1) | on_canvas(
                dr,
                1,
                1,
            ),
            piece == (if y < 4 {
                if x < 2 {
                    ul
                } else {
                    ur
                }
            } else {
                if x < 2 {
                    dl
                } else {
                    dr
                }
            }),
    ;
    let j: u8 = if dx <= x && dy <= y {
        (2 * (y - dy) + (x - dx)) as u8
    } else {
        0
    };
    assert(((canvas >> ((4 * y + x) as u32)) & 1 == 1) == (dx <= x && x < dx + 2 && dy <= y && y
        < dy + 4 && bit_is_set(b, j))) by (bit_vector)
        requires
            dx < 2,
            dy < 4,
            x < 4,
            y < 8,
            canvas == on_canvas(b, 0, 0) << ((dx + 4 * dy) as u32),
            j == (if dx <= x && dy <= y {
                (2 * (y - dy) + (x - dx)) as u8
            } else {
                0u8
            }),
    ;
}

} // verus!
