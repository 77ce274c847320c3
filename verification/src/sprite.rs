//! [`Sprite`]s: rectangular collections of [`Cell`]s with color, drawn to a
//! screen at any pixel position.
use crate::cell::{bit_is_set, lemma_split_moves_each_pixel, Cell, OffsetCell};
use crate::color::{Color, ColoredCell};
use crate::units::{
    cell_length, from_index, index, lemma_index_in_grid, lemma_index_in_grid_int,
    lemma_index_parts, offset_px, pos_components,
};
use smallvec::SmallVec;
use vstd::prelude::*;
use vstd::string::*;
use vstd::utf8::*;

pub mod images;

verus! {

/// The cells of one grid of a sprite, row by row, in a `smallvec::SmallVec`
/// that keeps up to 64 cells inline.
#[verifier::external_body]
#[derive(Debug)]
pub struct SpriteData {
    cells: SmallVec<[ColoredCell; 64]>,
}

/// The cells that a grid holds, in order.
pub uninterp spec fn grid_cells(data: SpriteData) -> Seq<ColoredCell>;

/// `SmallVec::new`: a vector without elements.
#[verifier::external_body]
pub(crate) fn data_new() -> (data: SpriteData)
    ensures
        grid_cells(data) == Seq::<ColoredCell>::empty(),
{
    SpriteData { cells: SmallVec::new() }
}

/// `SmallVec::from_elem`: a vector of `n` copies of `cell`.
#[verifier::external_body]
fn data_filled(cell: ColoredCell, n: usize) -> (data: SpriteData)
    ensures
        grid_cells(data) == Seq::new(n as nat, |i: int| cell),
{
    SpriteData { cells: SmallVec::from_elem(cell, n) }
}

/// `SmallVec::len`: the number of elements.
#[verifier::external_body]
fn data_len(data: &SpriteData) -> (n: usize)
    ensures
        n == grid_cells(*data).len(),
{
    data.cells.len()
}

/// `SmallVec::push`: appends one element and keeps the others.
#[verifier::external_body]
pub(crate) fn data_push(data: &mut SpriteData, cell: ColoredCell)
    ensures
        grid_cells(*final(data)) == grid_cells(*old(data)).push(cell),
{
    data.cells.push(cell);
}

/// `SmallVec`'s `Index::index` with a `usize`: the element at `i`, where there
/// is one (it panics where there is none).
#[verifier::external_body]
fn data_get(data: &SpriteData, i: usize) -> (cell: ColoredCell)
    requires
        i < grid_cells(*data).len(),
    ensures
        cell == grid_cells(*data)[i as int],
{
    data.cells[i]
}

/// `SmallVec`'s `IndexMut::index_mut` with a `usize`: the place of the element
/// at `i`, where there is one, which is then assigned `cell`; the other
/// elements stay.
#[verifier::external_body]
fn data_set(data: &mut SpriteData, i: usize, cell: ColoredCell)
    requires
        i < grid_cells(*old(data)).len(),
    ensures
        grid_cells(*final(data)) == grid_cells(*old(data)).update(i as int, cell),
{
    data.cells[i] = cell;
}

impl Clone for SpriteData {
    /// `SmallVec::clone`: a vector of the same elements.
    #[verifier::external_body]
    fn clone(&self) -> (data: Self)
        ensures
            grid_cells(data) == grid_cells(*self),
    {
        SpriteData { cells: self.cells.clone() }
    }
}

impl View for SpriteData {
    type V = Seq<ColoredCell>;

    open spec fn view(&self) -> Seq<ColoredCell> {
        grid_cells(*self)
    }
}

impl SpriteData {
    /// A grid of the given cells.
    pub fn from_cells(cells: &Vec<ColoredCell>) -> (data: Self)
        ensures
            data@ == cells@,
    {
        let mut data = data_new();
        let mut i: usize = 0;
        while i < cells.len()
            invariant
                i <= cells@.len(),
                data@ == cells@.take(i as int),
            decreases cells@.len() - i,
        {
            data_push(&mut data, cells[i]);
            proof {
                assert(cells@.take(i + 1) =~= cells@.take(i as int).push(cells@[i as int]));
            }
            i = i + 1;
        }
        proof {
            assert(cells@.take(cells@.len() as int) =~= cells@);
        }
        data
    }

    /// The number of cells of the grid.
    pub fn len(&self) -> (n: usize)
        ensures
            n == self@.len(),
    {
        data_len(self)
    }

    /// The cell at index `i`, if there is one.
    pub fn get(&self, i: usize) -> (cell: Option<ColoredCell>)
        ensures
            cell == (if i < self@.len() {
                Some(self@[i as int])
            } else {
                None
            }),
    {
        if i < data_len(self) {
            Some(data_get(self, i))
        } else {
            None
        }
    }
}

/// A cell without pixels and without color.
pub open spec fn blank() -> ColoredCell {
    ColoredCell { cell: Cell { bits: 0 }, color: None }
}

/// A colored cell after a piece has been merged into it.
pub open spec fn merged(into: ColoredCell, piece: Cell, color: Option<Color>) -> ColoredCell {
    ColoredCell { cell: Cell { bits: into.cell.bits | piece.bits }, color }
}

/// The width or height of a grid whose sprite is moved by `d` pixels along
/// that axis: one more cell where `d` is not zero.
pub open spec fn grown(length: int, d: int) -> int {
    if d == 0 {
        length
    } else {
        length + 1
    }
}

/// A grid after the pieces of one split cell have been merged into it, the
/// first piece at index `at` and the others to its right and below it.
pub open spec fn place(
    grid: Seq<ColoredCell>,
    split: OffsetCell,
    color: Option<Color>,
    at: int,
    grid_width: int,
) -> Seq<ColoredCell> {
    match split {
        OffsetCell::Aligned { cell } => grid.update(at, merged(grid[at], cell, color)),
        OffsetCell::Horizontal { left, right } => grid.update(
            at,
            merged(grid[at], left, color),
        ).update(at + 1, merged(grid[at + 1], right, color)),
        OffsetCell::Vertical { up, down } => grid.update(at, merged(grid[at], up, color)).update(
            at + grid_width,
            merged(grid[at + grid_width], down, color),
        ),
        OffsetCell::Corner { ul, ur, dl, dr } => grid.update(
            at,
            merged(grid[at], ul, color),
        ).update(at + 1, merged(grid[at + 1], ur, color)).update(
            at + grid_width,
            merged(grid[at + grid_width], dl, color),
        ).update(at + grid_width + 1, merged(grid[at + grid_width + 1], dr, color)),
    }
}

/// The grid of a sprite moved by `(dx, dy)` pixels, when the cells of the
/// rows above `y` and those left of `x` in row `y` have been split and merged
/// into it, row by row and from left to right; before that it is blank.
/// `data` holds the sprite's own cells, `width` in each row.
pub open spec fn offset_grid_before(
    data: Seq<ColoredCell>,
    width: int,
    height: int,
    dx: u8,
    dy: u8,
    x: int,
    y: int,
) -> Seq<ColoredCell>
    decreases y, x,
{
    if x > 0 {
        place(
            offset_grid_before(data, width, height, dx, dy, x - 1, y),
            data[y * width + x - 1].cell.split(dx, dy),
            data[y * width + x - 1].color,
            y * grown(width, dx as int) + x - 1,
            grown(width, dx as int),
        )
    } else if y > 0 && width >= 0 {
        offset_grid_before(data, width, height, dx, dy, width, y - 1)
    } else {
        Seq::new((grown(width, dx as int) * grown(height, dy as int)) as nat, |i: int| blank())
    }
}

/// The grid of a sprite moved by `(dx, dy)` pixels, with `dx < 2` and
/// `dy < 4`: one column wider than the sprite where `dx` is not zero, one row
/// taller where `dy` is not zero, and every cell of the sprite split and merged
/// into it.
pub open spec fn offset_grid(data: Seq<ColoredCell>, width: int, height: int, dx: u8, dy: u8) -> Seq<
    ColoredCell,
> {
    offset_grid_before(data, width, height, dx, dy, 0, height)
}

/// What a [`Sprite`] is: its size in cells, its priority, and its eight grids,
/// the one for the pixel offset `(dx, dy)` at index `2 * dy + dx`.
pub struct SpriteView {
    pub width: int,
    pub height: int,
    pub priority: u16,
    pub grids: Seq<Seq<ColoredCell>>,
}

impl SpriteView {
    /// The width of the grid at index `offset`.
    pub open spec fn grid_width(self, offset: int) -> int {
        grown(self.width, offset % 2)
    }

    /// The height of the grid at index `offset`.
    pub open spec fn grid_height(self, offset: int) -> int {
        grown(self.height, offset / 2)
    }

    /// There are eight grids, each of its own size, and each side of the
    /// sprite can grow by a cell.
    pub open spec fn wf(self) -> bool {
        &&& 0 <= self.width < 0xffff
        &&& 0 <= self.height < 0xffff
        &&& self.grids.len() == 8
        &&& forall|k: int|
            0 <= k < 8 ==> (#[trigger] self.grids[k]).len() == self.grid_width(k)
                * self.grid_height(k)
    }

    /// The sprite of the given cells: every grid is computed from them.
    pub open spec fn of_cells(data: Seq<ColoredCell>, width: int, height: int, priority: u16) -> Self {
        SpriteView {
            width,
            height,
            priority,
            grids: Seq::new(
                8,
                |k: int| offset_grid(data, width, height, (k % 2) as u8, (k / 2) as u8),
            ),
        }
    }

    /// The sprite without pixels and colors.
    pub open spec fn blank(width: int, height: int, priority: u16) -> Self {
        SpriteView {
            width,
            height,
            priority,
            grids: Seq::new(
                8,
                |k: int|
                    Seq::new((grown(width, k % 2) * grown(height, k / 2)) as nat, |i: int| blank()),
            ),
        }
    }
}

/// Whether every character of a row is a braille character.
pub open spec fn is_braille_row(row: Seq<char>) -> bool {
    forall|j: int| 0 <= j < row.len() ==> (#[trigger] Cell::of_braille_char(row[j])) is Some
}

/// Whether the rows can make a sprite: all have as many bytes of UTF-8 as
/// the first, and all their characters are braille characters.
pub open spec fn are_braille_rows(rows: Seq<Seq<char>>) -> bool {
    &&& forall|i: int|
        0 <= i < rows.len() ==> (#[trigger] encode_utf8(rows[i])).len() == encode_utf8(
            rows[0],
        ).len()
    &&& forall|i: int| 0 <= i < rows.len() ==> is_braille_row(#[trigger] rows[i])
}

/// The cells of one row of braille characters, each with the given color.
pub open spec fn row_cells(row: Seq<char>, color: Option<Color>) -> Seq<ColoredCell> {
    Seq::new(
        row.len(),
        |j: int| ColoredCell { cell: Cell::of_braille_char(row[j])->0, color },
    )
}

/// The cells of the first `n` rows of braille characters, row after row.
pub open spec fn rows_cells(rows: Seq<Seq<char>>, color: Option<Color>, n: int) -> Seq<ColoredCell>
    decreases n,
{
    if n <= 0 {
        Seq::empty()
    } else {
        rows_cells(rows, color, n - 1) + row_cells(rows[n - 1], color)
    }
}

/// The sprite that rows of braille characters make, if they make one: none
/// where the rows differ in length or hold another character, or where there
/// are 65535 or more rows or characters in a row; the sprite without cells
/// where there is no row or no character; else the sprite of the rows' cells.
pub open spec fn braille_sprite(rows: Seq<Seq<char>>, color: Option<Color>, priority: u16) -> Option<
    SpriteView,
> {
    if rows.len() == 0 {
        Some(SpriteView::blank(0, 0, priority))
    } else if !are_braille_rows(rows) {
        None
    } else if rows[0].len() == 0 {
        Some(SpriteView::blank(0, 0, priority))
    } else if rows[0].len() >= 0xffff || rows.len() >= 0xffff {
        None
    } else {
        Some(
            SpriteView::of_cells(
                rows_cells(rows, color, rows.len() as int),
                rows[0].len() as int,
                rows.len() as int,
                priority,
            ),
        )
    }
}

/// A row of braille characters takes three bytes of UTF-8 for each character.
pub proof fn lemma_braille_row_bytes(row: Seq<char>)
    requires
        is_braille_row(row),
    ensures
        encode_utf8(row).len() == 3 * row.len(),
    decreases row.len(),
{
    if row.len() > 0 {
        let rest = row.drop_first();
        assert forall|j: int| 0 <= j < rest.len() implies (#[trigger] Cell::of_braille_char(
            rest[j],
        )) is Some by {
            assert(rest[j] == row[j + 1]);
        }
        lemma_braille_row_bytes(rest);
        assert(Cell::of_braille_char(row[0]) is Some);
        assert(encode_scalar(row[0] as u32).len() == 3);
    }
}

/// Whether `data` holds the cells of `base` with the colors that `f` gives
/// for them.
pub open spec fn is_recolored<F: Fn(ColoredCell) -> Option<Color>>(
    base: Seq<ColoredCell>,
    data: Seq<ColoredCell>,
    f: F,
) -> bool {
    &&& data.len() == base.len()
    &&& forall|i: int|
        0 <= i < base.len() ==> (#[trigger] data[i]).cell == base[i].cell && f.ensures(
            (base[i],),
            data[i].color,
        )
}

/// The pixels of the cell in column `x` and row `y` of a filled rectangle of
/// `width` by `height` pixels: both columns unless the rectangle ends after
/// the first, and as many rows as are left of the rectangle, up to four.
pub open spec fn rectangle_bits(x: int, y: int, width: int, height: int) -> u8 {
    (if 2 * x + 1 < width {
        0xffu8
    } else {
        0x55u8
    }) & (if 4 * y + 3 < height {
        0xffu8
    } else if 4 * y + 2 < height {
        0x3fu8
    } else if 4 * y + 1 < height {
        0x0fu8
    } else {
        0x03u8
    })
}

/// The cells of a filled rectangle of `width` by `height` pixels, row by row.
pub open spec fn rectangle_cells(width: int, height: int, color: Option<Color>) -> Seq<ColoredCell> {
    Seq::new(
        (((width + 1) / 2) * ((height + 3) / 4)) as nat,
        |i: int|
            ColoredCell {
                cell: Cell {
                    bits: rectangle_bits(
                        i % ((width + 1) / 2),
                        i / ((width + 1) / 2),
                        width,
                        height,
                    ),
                },
                color,
            },
    )
}

/// A sprite made up of a contiguous rectangular region of cells, which may be
/// colored. Sprites are typically drawn many times, so the grid for each of
/// the eight pixel offsets is computed when the sprite is made.
#[derive(Debug, Clone)]
pub struct Sprite {
    /// The grids of the sprite, one per pixel offset.
    pub offsets: [SpriteData; 8],
    width: u16,
    height: u16,
    /// The draw priority of the sprite. Higher priority sprites are drawn on
    /// top of lower priority ones.
    pub priority: u16,
}

impl View for Sprite {
    type V = SpriteView;

    closed spec fn view(&self) -> SpriteView {
        SpriteView {
            width: self.width as int,
            height: self.height as int,
            priority: self.priority,
            grids: Seq::new(8, |k: int| self.offsets@[k]@),
        }
    }
}

/// Merges the pieces of one cell of a sprite into the grid for one offset.
fn place_cell(
    grid: &mut SpriteData,
    source: ColoredCell,
    dx: u8,
    dy: u8,
    x: u16,
    y: u16,
    grid_width: u16,
    grid_height: u16,
)
    requires
        dx < 2,
        dy < 4,
        x + (if dx == 0 { 0int } else { 1 }) < grid_width,
        y + (if dy == 0 { 0int } else { 1 }) < grid_height,
        old(grid)@.len() == grid_width * grid_height,
    ensures
        final(grid)@ == place(
            old(grid)@,
            source.cell.split(dx, dy),
            source.color,
            y * grid_width + x,
            grid_width as int,
        ),
        final(grid)@.len() == old(grid)@.len(),
{
    let i_ul: usize = index(x, y, grid_width);
    proof {
        lemma_index_in_grid(x as int, y as int, grid_width as int, grid_height as int);
        if dx != 0 {
            lemma_index_in_grid(x + 1, y as int, grid_width as int, grid_height as int);
        }
        if dy != 0 {
            lemma_index_in_grid(x as int, y + 1, grid_width as int, grid_height as int);
            assert((y + 1) * grid_width == y * grid_width + grid_width) by (nonlinear_arith);
        }
        if dx != 0 && dy != 0 {
            lemma_index_in_grid(x + 1, y + 1, grid_width as int, grid_height as int);
        }
    }
    let color = source.color;
    match source.cell.with_offset(dx, dy) {
        OffsetCell::Aligned { cell } => {
            merge_at(grid, i_ul, cell, color);
        },
        OffsetCell::Horizontal { left, right } => {
            merge_at(grid, i_ul, left, color);
            merge_at(grid, i_ul + 1, right, color);
        },
        OffsetCell::Vertical { up, down } => {
            merge_at(grid, i_ul, up, color);
            merge_at(grid, i_ul + grid_width as usize, down, color);
        },
        OffsetCell::Corner { ul, ur, dl, dr } => {
            merge_at(grid, i_ul, ul, color);
            merge_at(grid, i_ul + 1, ur, color);
            merge_at(grid, i_ul + grid_width as usize, dl, color);
            merge_at(grid, i_ul + grid_width as usize + 1, dr, color);
        },
    }
}

/// Merges one piece into the cell at index `i` of a grid.
fn merge_at(grid: &mut SpriteData, i: usize, piece: Cell, color: Option<Color>)
    requires
        i < old(grid)@.len(),
    ensures
        final(grid)@ == old(grid)@.update(i as int, merged(old(grid)@[i as int], piece, color)),
{
    let mut cell = data_get(grid, i);
    cell.merge_cell(piece, color);
    data_set(grid, i, cell);
}

/// Computes the grid of a sprite for one pixel offset.
fn build_offset_grid(data: &SpriteData, width: u16, height: u16, dx: u8, dy: u8) -> (grid:
    SpriteData)
    requires
        dx < 2,
        dy < 4,
        width < 0xffff,
        height < 0xffff,
        data@.len() >= width * height,
    ensures
        grid@ == offset_grid(data@, width as int, height as int, dx, dy),
        grid@.len() == grown(width as int, dx as int) * grown(height as int, dy as int),
{
    let grid_width: u16 = if dx == 0 {
        width
    } else {
        width + 1
    };
    let grid_height: u16 = if dy == 0 {
        height
    } else {
        height + 1
    };
    let mut grid = data_filled(
        ColoredCell::new(Cell::empty(), None),
        cell_length(grid_width, grid_height),
    );
    assert(grid@ =~= offset_grid_before(data@, width as int, height as int, dx, dy, 0, 0));
    let mut y: u16 = 0;
    while y < height
        invariant
            dx < 2,
            dy < 4,
            y <= height < 0xffff,
            width < 0xffff,
            grid_width == grown(width as int, dx as int),
            grid_height == grown(height as int, dy as int),
            data@.len() >= width * height,
            grid@.len() == grid_width * grid_height,
            grid@ == offset_grid_before(data@, width as int, height as int, dx, dy, 0, y as int),
        decreases height - y,
    {
        let mut x: u16 = 0;
        while x < width
            invariant
                dx < 2,
                dy < 4,
                y < height < 0xffff,
                x <= width < 0xffff,
                grid_width == grown(width as int, dx as int),
                grid_height == grown(height as int, dy as int),
                data@.len() >= width * height,
                grid@.len() == grid_width * grid_height,
                grid@ == offset_grid_before(
                    data@,
                    width as int,
                    height as int,
                    dx,
                    dy,
                    x as int,
                    y as int,
                ),
            decreases width - x,
        {
            let i_orig: usize = index(x, y, width);
            proof {
                lemma_index_in_grid(x as int, y as int, width as int, height as int);
            }
            let source = data_get(data, i_orig);
            place_cell(&mut grid, source, dx, dy, x, y, grid_width, grid_height);
            x = x + 1;
        }
        y = y + 1;
    }
    grid
}

impl Sprite {
    /// Whether the sprite's grids have the sizes that its own size asks for.
    pub open spec fn wf(&self) -> bool {
        self@.wf()
    }

    /// The grid for the pixel offset `(dx, dy)`, at `offset = 2 * dy + dx`.
    pub fn grid(&self, offset: u8) -> (data: &SpriteData)
        requires
            offset < 8,
        ensures
            data@ == self@.grids[offset as int],
    {
        &self.offsets[offset as usize]
    }

    /// The draw priority of the sprite.
    pub fn priority(&self) -> (p: u16)
        ensures
            p == self@.priority,
    {
        self.priority
    }

    /// Create a new empty [`Sprite`] with the given dimensions, in cells.
    pub fn empty(width_cells: u16, height_cells: u16, priority: u16) -> (r: Self)
        requires
            width_cells < 0xffff,
            height_cells < 0xffff,
        ensures
            r.wf(),
            r@ == SpriteView::blank(width_cells as int, height_cells as int, priority),
    {
        let blank = ColoredCell::new(Cell::empty(), None);
        let wide: u16 = width_cells + 1;
        let tall: u16 = height_cells + 1;
        let r = Self {
            offsets: [
                data_filled(blank, cell_length(width_cells, height_cells)),
                data_filled(blank, cell_length(wide, height_cells)),
                data_filled(blank, cell_length(width_cells, tall)),
                data_filled(blank, cell_length(wide, tall)),
                data_filled(blank, cell_length(width_cells, tall)),
                data_filled(blank, cell_length(wide, tall)),
                data_filled(blank, cell_length(width_cells, tall)),
                data_filled(blank, cell_length(wide, tall)),
            ],
            width: width_cells,
            height: height_cells,
            priority,
        };
        proof {
            let v = SpriteView::blank(width_cells as int, height_cells as int, priority);
            assert forall|k: int| 0 <= k < 8 implies #[trigger] r@.grids[k] =~= v.grids[k] by {}
            assert(r@.grids =~= v.grids);
        }
        r
    }

    /// Computes the array index of the cell at position (x, y) in the grid
    /// for the given offset.
    pub fn index(&self, x: u16, y: u16, offset: u8) -> (i: usize)
        requires
            self.wf(),
        ensures
            i == y * self@.grid_width(offset as int) + x,
    {
        let (width, _) = self.offset_size(offset);
        index(x, y, width)
    }

    /// Computes the position (x, y) of the cell at an array index in the grid
    /// for the given offset.
    pub fn from_index(&self, i: usize, offset: u8) -> (r: (u16, u16))
        requires
            self.wf(),
            self@.grid_width(offset as int) > 0,
        ensures
            r == crate::units::spec_from_index(i, self@.grid_width(offset as int)),
    {
        let (width, _) = self.offset_size(offset);
        from_index(i, width)
    }

    /// Creates a sprite from its cells, given row by row, `width_cells` in
    /// each row.
    pub fn new(data: SpriteData, width_cells: u16, height_cells: u16, priority: u16) -> (r: Self)
        requires
            width_cells < 0xffff,
            height_cells < 0xffff,
            data@.len() >= width_cells * height_cells,
        ensures
            r.wf(),
            r@ == SpriteView::of_cells(data@, width_cells as int, height_cells as int, priority),
    {
        let r = Self {
            offsets: [
                build_offset_grid(&data, width_cells, height_cells, 0, 0),
                build_offset_grid(&data, width_cells, height_cells, 1, 0),
                build_offset_grid(&data, width_cells, height_cells, 0, 1),
                build_offset_grid(&data, width_cells, height_cells, 1, 1),
                build_offset_grid(&data, width_cells, height_cells, 0, 2),
                build_offset_grid(&data, width_cells, height_cells, 1, 2),
                build_offset_grid(&data, width_cells, height_cells, 0, 3),
                build_offset_grid(&data, width_cells, height_cells, 1, 3),
            ],
            width: width_cells,
            height: height_cells,
            priority,
        };
        proof {
            let v = SpriteView::of_cells(data@, width_cells as int, height_cells as int, priority);
            assert forall|k: int| 0 <= k < 8 implies #[trigger] r@.grids[k] == v.grids[k] by {}
            assert(r@.grids =~= v.grids);
        }
        r
    }

    /// Creates a [`Sprite`] from the given sequence of braille strings. Each
    /// string is a row of the sprite, and every cell gets the given color.
    ///
    /// Returns `None` if any character is not a braille character, if the rows
    /// differ in length, or if the sprite would have 65535 or more rows or
    /// columns.
    pub fn from_braille_string(s: &[&str], color: Option<Color>, priority: u16) -> (r: Option<Self>)
        ensures
            match r {
                Some(sprite) => sprite.wf() && braille_sprite(
                    Seq::new(s@.len(), |i: int| s@[i]@),
                    color,
                    priority,
                ) == Some(sprite@),
                None => braille_sprite(Seq::new(s@.len(), |i: int| s@[i]@), color, priority) is None,
            },
    {
        let ghost rows = Seq::new(s@.len(), |i: int| s@[i]@);
        if s.len() == 0 {
            return Some(Sprite::empty(0, 0, priority));
        }
        let width_bytes: usize = s[0].as_bytes().len();
        assert(rows[0] == s@[0]@);
        assert(s@[0].spec_bytes() == encode_utf8(s@[0]@));
        let mut i: usize = 1;
        while i < s.len()
            invariant
                1 <= i <= s@.len(),
                rows == Seq::new(s@.len(), |i: int| s@[i]@),
                width_bytes == encode_utf8(rows[0]).len(),
                forall|k: int|
                    0 <= k < i ==> (#[trigger] encode_utf8(rows[k])).len() == width_bytes,
            decreases s@.len() - i,
        {
            assert(rows[i as int] == s@[i as int]@);
            assert(s@[i as int].spec_bytes() == encode_utf8(s@[i as int]@));
            if s[i].as_bytes().len() != width_bytes {
                assert(encode_utf8(rows[i as int]).len() != encode_utf8(rows[0]).len());
                return None;
            }
            i = i + 1;
        }
        let mut data = data_new();
        let mut i: usize = 0;
        while i < s.len()
            invariant
                i <= s@.len(),
                width_bytes == encode_utf8(rows[0]).len(),
                forall|k: int|
                    0 <= k < s@.len() ==> (#[trigger] encode_utf8(rows[k])).len() == width_bytes,
                rows == Seq::new(s@.len(), |i: int| s@[i]@),
                forall|k: int| 0 <= k < i ==> is_braille_row(#[trigger] rows[k]),
                data@ == rows_cells(rows, color, i as int),
            decreases s@.len() - i,
        {
            let row: &str = s[i];
            assert(rows[i as int] == row@);
            let n: usize = row.unicode_len();
            let ghost above = data@;
            let mut j: usize = 0;
            while j < n
                invariant
                    j <= n == row@.len(),
                    row@ == rows[i as int],
                    forall|k: int|
                        0 <= k < j ==> (#[trigger] Cell::of_braille_char(row@[k])) is Some,
                    data@ == above + row_cells(row@.take(j as int), color),
                    rows == Seq::new(s@.len(), |i: int| s@[i]@),
                    i < s@.len(),
                decreases n - j,
            {
                match Cell::from_braille(row.get_char(j)) {
                    Some(cell) => {
                        data_push(&mut data, ColoredCell { cell, color });
                        proof {
                            assert(data@ =~= above + row_cells(row@.take(j + 1), color));
                        }
                    },
                    None => {
                        assert(!is_braille_row(rows[i as int]));
                        return None;
                    },
                }
                j = j + 1;
            }
            proof {
                assert(row@.take(n as int) =~= row@);
                assert(is_braille_row(rows[i as int]));
            }
            i = i + 1;
        }
        assert(are_braille_rows(rows));
        if width_bytes == 0 {
            proof {
                lemma_braille_row_bytes(rows[0]);
            }
            return Some(Self::empty(0, 0, priority));
        }
        let width_cells: usize = s[0].unicode_len();
        let height_cells: usize = s.len();
        proof {
            lemma_braille_row_bytes(rows[0]);
            lemma_rows_cells_len(rows, color, rows.len() as int);
        }
        if width_cells >= 0xffff || height_cells >= 0xffff {
            return None;
        }
        Some(Self::new(data, width_cells as u16, height_cells as u16, priority))
    }

    /// Create a new filled rectangular [`Sprite`] with the given color. The
    /// width and height are in pixels.
    pub fn rectangle(width: u16, height: u16, color: Option<Color>, priority: u16) -> (r: Self)
        ensures
            r.wf(),
            r@ == SpriteView::of_cells(
                rectangle_cells(width as int, height as int, color),
                (width + 1) / 2,
                (height + 3) / 4,
                priority,
            ),
    {
        let ((cell_x, px_x), (cell_y, px_y)) = pos_components(width, height);
        let width_cells: u16 = cell_x + if px_x == 0 {
            0
        } else {
            1
        };
        let height_cells: u16 = cell_y + if px_y == 0 {
            0
        } else {
            1
        };
        let columns: u8 = if px_x == 0 {
            0xff
        } else {
            0x55
        };
        let rows: u8 = if px_y == 0 {
            0xff
        } else if px_y == 1 {
            0x03
        } else if px_y == 2 {
            0x0f
        } else {
            0x3f
        };
        let ghost cells = rectangle_cells(width as int, height as int, color);
        let mut data = data_new();
        let mut y: u16 = 0;
        while y < height_cells
            invariant
                y <= height_cells,
                width_cells == (width + 1) / 2,
                height_cells == (height + 3) / 4,
                columns == (if width % 2 == 0 { 0xffu8 } else { 0x55u8 }),
                rows == (if height % 4 == 0 {
                    0xffu8
                } else if height % 4 == 1 {
                    0x03u8
                } else if height % 4 == 2 {
                    0x0fu8
                } else {
                    0x3fu8
                }),
                cells == rectangle_cells(width as int, height as int, color),
                data@ == cells.take(y * width_cells),
            decreases height_cells - y,
        {
            let mut x: u16 = 0;
            while x < width_cells
                invariant
                    y < height_cells,
                    x <= width_cells,
                    width_cells == (width + 1) / 2,
                    height_cells == (height + 3) / 4,
                    columns == (if width % 2 == 0 { 0xffu8 } else { 0x55u8 }),
                    rows == (if height % 4 == 0 {
                        0xffu8
                    } else if height % 4 == 1 {
                        0x03u8
                    } else if height % 4 == 2 {
                        0x0fu8
                    } else {
                        0x3fu8
                    }),
                    cells == rectangle_cells(width as int, height as int, color),
                    data@ == cells.take(y * width_cells + x),
                decreases width_cells - x,
            {
                let across: u8 = if x + 1 == width_cells {
                    columns
                } else {
                    0xff
                };
                let down: u8 = if y + 1 == height_cells {
                    rows
                } else {
                    0xff
                };
                proof {
                    lemma_index_in_grid(x as int, y as int, width_cells as int, height_cells as int);
                    lemma_index_parts(x as int, y as int, width_cells as int);
                    let i = y * width_cells + x;
                    assert(cells[i].cell.bits == across & down);
                    assert(cells.take(i + 1) =~= cells.take(i).push(cells[i]));
                }
                data_push(&mut data, ColoredCell::new(Cell::new(across & down), color));
                x = x + 1;
            }
            proof {
                assert((y + 1) * width_cells == y * width_cells + width_cells)
                    by (nonlinear_arith);
            }
            y = y + 1;
        }
        proof {
            assert(cells.take(height_cells * width_cells) =~= cells) by {
                assert(height_cells * width_cells == width_cells * height_cells)
                    by (nonlinear_arith);
            }
        }
        Self::new(data, width_cells, height_cells, priority)
    }

    /// Creates a copy of the sprite with the color of every cell replaced by
    /// what `f` gives for the cell. The pixels stay.
    pub fn recolor<F: Fn(ColoredCell) -> Option<Color>>(&self, f: F) -> (r: Self)
        requires
            self.wf(),
            forall|c: ColoredCell| f.requires((c,)),
        ensures
            r.wf(),
            exists|data: Seq<ColoredCell>|
                is_recolored(self@.grids[0], data, f) && r@ == #[trigger] SpriteView::of_cells(
                    data,
                    self@.width,
                    self@.height,
                    self@.priority,
                ),
    {
        let base: &SpriteData = &self.offsets[0];
        let n: usize = data_len(base);
        assert(base@ == self@.grids[0]);
        let mut data = data_new();
        let mut i: usize = 0;
        while i < n
            invariant
                i <= n == base@.len(),
                forall|c: ColoredCell| f.requires((c,)),
                data@.len() == i,
                forall|k: int|
                    0 <= k < i ==> (#[trigger] data@[k]).cell == base@[k].cell && f.ensures(
                        (base@[k],),
                        data@[k].color,
                    ),
            decreases n - i,
        {
            let cell = data_get(base, i);
            let color = f(cell);
            data_push(&mut data, ColoredCell::new(cell.cell, color));
            i = i + 1;
        }
        let ghost recolored = data@;
        let r = Self::new(data, self.default_width(), self.default_height(), self.priority);
        assert(is_recolored(self@.grids[0], recolored, f));
        assert(r@ == SpriteView::of_cells(recolored, self@.width, self@.height, self@.priority));
        r
    }

    /// Computes the size of the sprite's bounding box after being offset a
    /// specified amount. Returns a `(width, height)` pair, measured in cells.
    pub fn offset_size(&self, offset: u8) -> (r: (u16, u16))
        requires
            self.wf(),
        ensures
            r.0 == self@.grid_width(offset as int),
            r.1 == self@.grid_height(offset as int),
    {
        let (x, y) = offset_px(offset);
        let grow_x: u16 = if x != 0 {
            1
        } else {
            0
        };
        let grow_y: u16 = if y != 0 {
            1
        } else {
            0
        };
        (grow_x + self.width, grow_y + self.height)
    }

    /// Returns the width of the sprite in cells, at a zero pixel offset.
    pub fn default_width(&self) -> (w: u16)
        requires
            self.wf(),
        ensures
            w == self@.width,
    {
        self.offset_size(0).0
    }

    /// Returns the height of the sprite in cells, at a zero pixel offset.
    pub fn default_height(&self) -> (h: u16)
        requires
            self.wf(),
        ensures
            h == self@.height,
    {
        self.offset_size(0).1
    }
}

/// Rows of braille characters that take the same number of bytes hold the
/// same number of cells each.
pub proof fn lemma_rows_cells_len(rows: Seq<Seq<char>>, color: Option<Color>, n: int)
    requires
        are_braille_rows(rows),
        0 <= n <= rows.len(),
        rows.len() > 0,
    ensures
        rows_cells(rows, color, n).len() == n * rows[0].len(),
    decreases n,
{
    if n > 0 {
        lemma_rows_cells_len(rows, color, n - 1);
        assert(is_braille_row(rows[0]));
        assert(is_braille_row(rows[n - 1]));
        lemma_braille_row_bytes(rows[0]);
        lemma_braille_row_bytes(rows[n - 1]);
        assert(encode_utf8(rows[n - 1]).len() == encode_utf8(rows[0]).len());
        assert(row_cells(rows[n - 1], color).len() == rows[0].len());
        let width = rows[0].len() as int;
        assert(n * width == (n - 1) * width + width) by (nonlinear_arith);
    } else {
        assert(n * rows[0].len() == 0) by (nonlinear_arith)
            requires
                n == 0,
        ;
    }
}

/// The pixels of a cell of a filled rectangle are those of the cell's block
/// that lie inside the rectangle.
pub proof fn lemma_rectangle_pixels(x: int, y: int, width: int, height: int, px: u8, py: u8)
    requires
        0 <= x,
        0 <= y,
        2 * x < width,
        4 * y < height,
        px < 2,
        py < 4,
    ensures
        (Cell { bits: rectangle_bits(x, y, width, height) }).pixel(px, py) == (2 * x + px < width
            && 4 * y + py < height),
{
    let i: u8 = (2 * py + px) as u8;
    let c: u8 = if 2 * x + 1 < width {
        0xff
    } else {
        0x55
    };
    let r: u8 = if 4 * y + 3 < height {
        0xff
    } else if 4 * y + 2 < height {
        0x3f
    } else if 4 * y + 1 < height {
        0x0f
    } else {
        0x03
    };
    assert(i < 8 && (c == 0xff || c == 0x55) && (r == 0xff || r == 0x3f || r == 0x0f || r == 0x03)
        ==> (bit_is_set(c & r, i) == ((c == 0xff || i % 2 == 0) && (r == 0xff || (r == 0x3f && i
        < 6) || (r == 0x0f && i < 4) || (r == 0x03 && i < 2))))) by (bit_vector);
}

/// Whether the cell at (sx, sy) of a sprite has been merged into a grid when
/// the cell at (x, y) is the next to be merged.
pub open spec fn is_merged_before(sx: int, sy: int, width: int, height: int, x: int, y: int) -> bool {
    0 <= sx < width && 0 <= sy < height && (sy < y || (sy == y && sx < x))
}

/// The pixels that the cell at (sx, sy) of a sprite has put into the grid
/// cell that takes piece `k` of its split (0 for its own place, 1 for the
/// cell to the right, 2 for the cell below, 3 for the cell below to the
/// right), when the cell at (x, y) is the next to be merged.
pub open spec fn piece_bits(
    data: Seq<ColoredCell>,
    width: int,
    height: int,
    dx: u8,
    dy: u8,
    sx: int,
    sy: int,
    k: int,
    x: int,
    y: int,
) -> u8 {
    if is_merged_before(sx, sy, width, height, x, y) {
        let quad = data[sy * width + sx].cell.split(dx, dy).quad();
        if k == 0 {
            quad.0.bits
        } else if k == 1 {
            quad.1.bits
        } else if k == 2 {
            quad.2.bits
        } else {
            quad.3.bits
        }
    } else {
        0
    }
}

/// The cell at (gx, gy) of the grid of a sprite moved by `(dx, dy)` pixels,
/// when the sprite's cell at (x, y) is the next to be merged. Its pixels are
/// the pieces that the sprite's cells at (gx, gy), to the left, above and above
/// to the left have put there. Its color is that of the last of them that
/// was merged into it.
pub open spec fn gathered(
    data: Seq<ColoredCell>,
    width: int,
    height: int,
    dx: u8,
    dy: u8,
    gx: int,
    gy: int,
    x: int,
    y: int,
) -> ColoredCell {
    ColoredCell {
        cell: Cell {
            bits: piece_bits(data, width, height, dx, dy, gx, gy, 0, x, y) | piece_bits(
                data,
                width,
                height,
                dx,
                dy,
                gx - 1,
                gy,
                1,
                x,
                y,
            ) | piece_bits(data, width, height, dx, dy, gx, gy - 1, 2, x, y) | piece_bits(
                data,
                width,
                height,
                dx,
                dy,
                gx - 1,
                gy - 1,
                3,
                x,
                y,
            ),
        },
        color: if is_merged_before(gx, gy, width, height, x, y) {
            data[gy * width + gx].color
        } else if dx != 0 && is_merged_before(gx - 1, gy, width, height, x, y) {
            data[gy * width + gx - 1].color
        } else if dy != 0 && is_merged_before(gx, gy - 1, width, height, x, y) {
            data[(gy - 1) * width + gx].color
        } else if dx != 0 && dy != 0 && is_merged_before(gx - 1, gy - 1, width, height, x, y) {
            data[(gy - 1) * width + gx - 1].color
        } else {
            None
        },
    }
}

/// What one cell of a grid is after the pieces of a split cell have been
/// merged into the grid.
#[verifier::rlimit(30)]
proof fn lemma_place_at(
    grid: Seq<ColoredCell>,
    cell: Cell,
    color: Option<Color>,
    dx: u8,
    dy: u8,
    at: int,
    grid_width: int,
    t: int,
)
    requires
        dx < 2,
        dy < 4,
        0 <= at,
        0 <= t < grid.len(),
        grid_width > 0,
        dx != 0 ==> grid_width > 1,
        at + (if dx == 0 { 0int } else { 1 }) + (if dy == 0 { 0 } else { grid_width }) < grid.len(),
    ensures
        place(grid, cell.split(dx, dy), color, at, grid_width).len() == grid.len(),
        place(grid, cell.split(dx, dy), color, at, grid_width)[t] == (if t == at {
            merged(grid[t], cell.split(dx, dy).quad().0, color)
        } else if t == at + 1 && dx != 0 {
            merged(grid[t], cell.split(dx, dy).quad().1, color)
        } else if t == at + grid_width && dy != 0 {
            merged(grid[t], cell.split(dx, dy).quad().2, color)
        } else if t == at + grid_width + 1 && dx != 0 && dy != 0 {
            merged(grid[t], cell.split(dx, dy).quad().3, color)
        } else {
            grid[t]
        }),
{
}

/// Every cell of a grid of a sprite holds the pieces of the sprite's cells
/// around it that have been merged so far, and the color of the last of them.
/// Here the sprite's cell at (x, y) is the next to be merged, and (gx, gy) is
/// a cell of the grid.
#[verifier::rlimit(30)]
pub proof fn lemma_offset_grid_before(
    data: Seq<ColoredCell>,
    width: int,
    height: int,
    dx: u8,
    dy: u8,
    x: int,
    y: int,
    gx: int,
    gy: int,
)
    requires
        0 <= width,
        0 <= height,
        dx < 2,
        dy < 4,
        0 <= x <= width,
        0 <= y <= height,
        y == height ==> x == 0,
        0 <= gx < grown(width, dx as int),
        0 <= gy < grown(height, dy as int),
    ensures
        offset_grid_before(data, width, height, dx, dy, x, y).len() == grown(width, dx as int)
            * grown(height, dy as int),
        offset_grid_before(data, width, height, dx, dy, x, y)[gy * grown(width, dx as int) + gx]
            == gathered(data, width, height, dx, dy, gx, gy, x, y),
    decreases y, x,
{
    let gw = grown(width, dx as int);
    let gh = grown(height, dy as int);
    let t = gy * gw + gx;
    lemma_index_in_grid_int(gx, gy, gw, gh);
    if x > 0 {
        lemma_offset_grid_before(data, width, height, dx, dy, x - 1, y, gx, gy);
        let before = offset_grid_before(data, width, height, dx, dy, x - 1, y);
        let source = data[y * width + x - 1];
        let at = y * gw + x - 1;
        lemma_index_in_grid_int(x - 1, y, gw, gh);
        lemma_index_parts(x - 1, y, gw);
        lemma_index_parts(gx, gy, gw);
        assert((y + 1) * gw == y * gw + gw) by (nonlinear_arith);
        if dx != 0 {
            lemma_index_in_grid_int(x, y, gw, gh);
            lemma_index_parts(x, y, gw);
        }
        if dy != 0 {
            lemma_index_in_grid_int(x - 1, y + 1, gw, gh);
            lemma_index_parts(x - 1, y + 1, gw);
        }
        if dx != 0 && dy != 0 {
            lemma_index_in_grid_int(x, y + 1, gw, gh);
            lemma_index_parts(x, y + 1, gw);
        }
        lemma_place_at(before, source.cell, source.color, dx, dy, at, gw, t);
        let quad = source.cell.split(dx, dy).quad();
        let own: u8 = piece_bits(data, width, height, dx, dy, gx, gy, 0, x - 1, y);
        let left: u8 = piece_bits(data, width, height, dx, dy, gx - 1, gy, 1, x - 1, y);
        let above: u8 = piece_bits(data, width, height, dx, dy, gx, gy - 1, 2, x - 1, y);
        let across: u8 = piece_bits(data, width, height, dx, dy, gx - 1, gy - 1, 3, x - 1, y);
        assert(before[t].cell.bits == own | left | above | across);
        if t == at {
            assert(gx == x - 1 && gy == y);
            let q: u8 = quad.0.bits;
            assert(own == 0 ==> ((own | left | above | across) | q) == (q | left | above | across)) by (bit_vector);
        } else if t == at + 1 && dx != 0 {
            assert(gx == x && gy == y);
            let q: u8 = quad.1.bits;
            assert(left == 0 ==> ((own | left | above | across) | q) == (own | q | above | across)) by (bit_vector);
        } else if t == at + gw && dy != 0 {
            assert(gx == x - 1 && gy == y + 1);
            let q: u8 = quad.2.bits;
            assert(above == 0 ==> ((own | left | above | across) | q) == (own | left | q | across)) by (bit_vector);
        } else if t == at + gw + 1 && dx != 0 && dy != 0 {
            assert(gx == x && gy == y + 1);
            let q: u8 = quad.3.bits;
            assert(across == 0 ==> ((own | left | above | across) | q) == (own | left | above | q)) by (bit_vector);
        } else {
            assert(quad.1.bits == 0 || dx != 0);
            assert(quad.2.bits == 0 || dy != 0);
            assert(quad.3.bits == 0 || (dx != 0 && dy != 0));
        }
    } else if y > 0 {
        lemma_offset_grid_before(data, width, height, dx, dy, width, y - 1, gx, gy);
    } else {
        assert(0u8 | 0u8 | 0u8 | 0u8 == 0u8) by (bit_vector);
    }
}

/// The finished grid of a sprite moved by `(dx, dy)` pixels: every cell of it
/// holds the pieces of the sprite's cells around it, and the color of the last
/// of them. The grid for no move at all holds the sprite's own cells.
#[verifier::rlimit(30)]
pub proof fn lemma_offset_grid(
    data: Seq<ColoredCell>,
    width: int,
    height: int,
    dx: u8,
    dy: u8,
    gx: int,
    gy: int,
)
    requires
        0 <= width,
        0 <= height,
        dx < 2,
        dy < 4,
        0 <= gx < grown(width, dx as int),
        0 <= gy < grown(height, dy as int),
    ensures
        offset_grid(data, width, height, dx, dy).len() == grown(width, dx as int) * grown(
            height,
            dy as int,
        ),
        offset_grid(data, width, height, dx, dy)[gy * grown(width, dx as int) + gx] == gathered(
            data,
            width,
            height,
            dx,
            dy,
            gx,
            gy,
            0,
            height,
        ),
        dx == 0 && dy == 0 ==> offset_grid(data, width, height, dx, dy)[gy * width + gx] == data[gy
            * width + gx],
{
    lemma_offset_grid_before(data, width, height, dx, dy, 0, height, gx, gy);
    if dx == 0 && dy == 0 {
        let b: u8 = data[gy * width + gx].cell.bits;
        assert(b | 0u8 | 0u8 | 0u8 == b) by (bit_vector);
    }
}

/// Whether the pixel at the pixel position (x, y) of a sprite is set. `data`
/// holds the sprite's cells, `width` in each row; outside the sprite no pixel
/// is set.
pub open spec fn sprite_pixel(data: Seq<ColoredCell>, width: int, height: int, x: int, y: int) -> bool {
    0 <= x < 2 * width && 0 <= y < 4 * height && data[(y / 4) * width + x / 2].cell.pixel(
        (x % 2) as u8,
        (y % 4) as u8,
    )
}

/// Whether piece `k` of the split of the sprite's cell at (sx, sy) has the
/// pixel (px, py) set: there is such a cell, and the pixel comes from a pixel
/// of it that is set.
pub open spec fn piece_pixel(
    data: Seq<ColoredCell>,
    width: int,
    height: int,
    dx: u8,
    dy: u8,
    sx: int,
    sy: int,
    k: int,
    px: u8,
    py: u8,
) -> bool {
    &&& 0 <= sx < width
    &&& 0 <= sy < height
    &&& dx <= px + 2 * (k % 2) < dx + 2
    &&& dy <= py + 4 * (k / 2) < dy + 4
    &&& data[sy * width + sx].cell.pixel(
        (px + 2 * (k % 2) - dx) as u8,
        (py + 4 * (k / 2) - dy) as u8,
    )
}

/// The pixels of one piece of a split cell of a sprite are pixels of that
/// cell, moved.
proof fn lemma_piece_pixel(
    data: Seq<ColoredCell>,
    width: int,
    height: int,
    dx: u8,
    dy: u8,
    sx: int,
    sy: int,
    k: int,
    px: u8,
    py: u8,
)
    requires
        dx < 2,
        dy < 4,
        px < 2,
        py < 4,
        0 <= k < 4,
    ensures
        bit_is_set(
            piece_bits(data, width, height, dx, dy, sx, sy, k, 0, height),
            (2 * py + px) as u8,
        ) == piece_pixel(data, width, height, dx, dy, sx, sy, k, px, py),
{
    let i: u8 = (2 * py + px) as u8;
    if 0 <= sx < width && 0 <= sy < height {
        let x: u8 = (px + 2 * (k % 2)) as u8;
        let y: u8 = (py + 4 * (k / 2)) as u8;
        lemma_split_moves_each_pixel(data[sy * width + sx].cell, dx, dy, x, y);
        assert(x % 2 == px && y % 4 == py);
    } else {
        assert(!bit_is_set(0u8, i)) by (bit_vector)
            requires
                i < 8,
        ;
    }
}

/// The grid of a sprite moved by `(dx, dy)` pixels shows the sprite's own
/// pixels, each moved right by `dx` and down by `dy`, and no other pixel. Here
/// (gx, gy) is a cell of the grid and (px, py) a pixel of that cell.
#[verifier::rlimit(50)]
pub proof fn lemma_offset_grid_pixels(
    data: Seq<ColoredCell>,
    width: int,
    height: int,
    dx: u8,
    dy: u8,
    gx: int,
    gy: int,
    px: u8,
    py: u8,
)
    requires
        0 <= width,
        0 <= height,
        dx < 2,
        dy < 4,
        0 <= gx < grown(width, dx as int),
        0 <= gy < grown(height, dy as int),
        px < 2,
        py < 4,
    ensures
        offset_grid(data, width, height, dx, dy)[gy * grown(width, dx as int) + gx].cell.pixel(
            px,
            py,
        ) == sprite_pixel(data, width, height, 2 * gx + px - dx, 4 * gy + py - dy),
{
    lemma_offset_grid(data, width, height, dx, dy, gx, gy);
    let i: u8 = (2 * py + px) as u8;
    let own: u8 = piece_bits(data, width, height, dx, dy, gx, gy, 0, 0, height);
    let left: u8 = piece_bits(data, width, height, dx, dy, gx - 1, gy, 1, 0, height);
    let above: u8 = piece_bits(data, width, height, dx, dy, gx, gy - 1, 2, 0, height);
    let across: u8 = piece_bits(data, width, height, dx, dy, gx - 1, gy - 1, 3, 0, height);
    assert(bit_is_set(own | left | above | across, i) == (bit_is_set(own, i) || bit_is_set(left, i)
        || bit_is_set(above, i) || bit_is_set(across, i))) by (bit_vector)
        requires
            i < 8,
    ;
    lemma_piece_pixel(data, width, height, dx, dy, gx, gy, 0, px, py);
    lemma_piece_pixel(data, width, height, dx, dy, gx - 1, gy, 1, px, py);
    lemma_piece_pixel(data, width, height, dx, dy, gx, gy - 1, 2, px, py);
    lemma_piece_pixel(data, width, height, dx, dy, gx - 1, gy - 1, 3, px, py);
    let x = 2 * gx + px - dx;
    let y = 4 * gy + py - dy;
    let sx = if px >= dx {
        gx
    } else {
        gx - 1
    };
    let sy = if py >= dy {
        gy
    } else {
        gy - 1
    };
    assert(x / 2 == sx && x % 2 == (if px >= dx {
        px - dx
    } else {
        px + 2 - dx
    }));
    assert(y / 4 == sy && y % 4 == (if py >= dy {
        py - dy
    } else {
        py + 4 - dy
    }));
    assert((0 <= x < 2 * width) == (0 <= sx < width));
    assert((0 <= y < 4 * height) == (0 <= sy < height));
}

/// A grid of a sprite has a cell for every cell of the sprite, and one more
/// column or row where the sprite is moved along that axis.
pub proof fn lemma_offset_grid_len(data: Seq<ColoredCell>, width: int, height: int, dx: u8, dy: u8)
    requires
        0 <= width,
        0 <= height,
        dx < 2,
        dy < 4,
    ensures
        offset_grid(data, width, height, dx, dy).len() == grown(width, dx as int) * grown(
            height,
            dy as int,
        ),
{
    let gw = grown(width, dx as int);
    let gh = grown(height, dy as int);
    if gw > 0 && gh > 0 {
        lemma_offset_grid(data, width, height, dx, dy, 0, 0);
    } else if gw == 0 {
        lemma_no_column_grid(data, height, dy, height);
        assert(gw * gh == 0) by (nonlinear_arith)
            requires
                gw == 0,
        ;
    } else {
        assert(gw * gh == 0) by (nonlinear_arith)
            requires
                gh == 0,
        ;
    }
}

/// The grid of a sprite without columns that is not moved sideways stays
/// without cells.
proof fn lemma_no_column_grid(data: Seq<ColoredCell>, height: int, dy: u8, y: int)
    requires
        0 <= y,
    ensures
        offset_grid_before(data, 0, height, 0, dy, 0, y).len() == 0,
    decreases y,
{
    if y > 0 {
        lemma_no_column_grid(data, height, dy, y - 1);
    } else {
        assert(0 * grown(height, dy as int) == 0) by (nonlinear_arith);
    }
}

} // verus!
