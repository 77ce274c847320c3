//! The [`Screen`]: a grid of cells that pixels, cells and sprites are drawn
//! to, and that is turned into text or into commands for a terminal.
use crate::cell::{
    bit_is_set, lemma_braille_round_trip, lemma_encode_concat, lemma_encode_one, Cell,
};
use crate::color::{Color, ColoredCell};
use crate::event::Event;
use crate::sprite::{
    grown, is_braille_row, lemma_braille_row_bytes, lemma_offset_grid_len,
    lemma_offset_grid_pixels, offset_grid, sprite_pixel, Sprite, SpriteData,
};
use crate::units::{
    cell_length, from_index, index, lemma_index_in_grid, lemma_index_in_grid_int,
    lemma_index_parts, pos_components, px_offset,
};
use vstd::prelude::*;
use vstd::utf8::*;

verus! {

/// A blit type used to select the type of operation when writing to the
/// screen. In the case of single pixels, this determines whether the pixel is
/// set to 1, set to 0 or flipped.
#[derive(Clone, Copy)]
pub enum Blit {
    /// Sets the output to 1 where the input is set, and 0 elsewhere.
    Put,
    /// Sets the output to 0 where the input is set, and 1 elsewhere.
    Unset,
    /// Sets the output to 1 where the input is set, and ignores it elsewhere.
    Add,
    /// Sets the output to 0 where the input is set, and ignores it elsewhere.
    Subtract,
    /// Flips the output bits where the input is set.
    Toggle,
}

/// A value with the priority that it was drawn with.
#[derive(Debug, Clone, Copy, PartialEq, Eq)]
pub struct Priority<T> {
    pub value: T,
    pub priority: u16,
}

/// One step of bringing a terminal up to date.
#[derive(Debug, Clone, Copy, PartialEq, Eq)]
pub enum Command {
    /// Move the cursor to the given column and row.
    MoveTo(u16, u16),
    /// Move the cursor to the given row, in its column.
    MoveToRow(u16),
    /// Move the cursor to the given column, in its row.
    MoveToColumn(u16),
    /// Set the foreground color.
    SetForegroundColor(Color),
    /// Write the braille character of a cell; the cursor moves one column right.
    Print(Cell),
}

/// Where a terminal stands while it is brought up to date: the commands sent
/// so far, the cursor's column and row, and the color that was set last.
pub struct Rendering {
    pub commands: Seq<Command>,
    pub x: int,
    pub y: int,
    pub color: Option<Color>,
}

/// The bits of a cell after `bits` has been drawn over `previous`.
pub open spec fn blit_bits(previous: u8, bits: u8, blit: Blit) -> u8 {
    match blit {
        Blit::Put => bits,
        Blit::Unset => !bits,
        Blit::Add => previous | bits,
        Blit::Subtract => previous & !bits,
        Blit::Toggle => previous ^ bits,
    }
}

/// The blit that draws one pixel without touching the other pixels of its cell.
pub open spec fn pixel_blit(blit: Blit) -> Blit {
    match blit {
        Blit::Unset => Blit::Subtract,
        Blit::Put => Blit::Add,
        other => other,
    }
}

/// The cell that stays recorded when `new` is drawn where `previous` was
/// recorded: the one of higher priority, and of two with the same priority
/// the one with the greater bits.
pub open spec fn higher_cell(previous: Option<Priority<Cell>>, new: Priority<Cell>) -> Priority<
    Cell,
> {
    match previous {
        Some(p) => if p.priority > new.priority || (p.priority == new.priority && p.value.bits
            > new.value.bits) {
            p
        } else {
            new
        },
        None => new,
    }
}

/// The color that stays recorded when `new` is drawn where `previous` was
/// recorded: the one of higher priority, and of two with the same priority
/// the one with the greater palette number.
pub open spec fn higher_color(previous: Option<Priority<Color>>, new: Priority<Color>) -> Priority<
    Color,
> {
    match previous {
        Some(p) => if p.priority > new.priority || (p.priority == new.priority && p.value.0
            > new.value.0) {
            p
        } else {
            new
        },
        None => new,
    }
}

/// What a [`Screen`] is: its size in cells and three arrays with one entry for
/// each cell, row by row: the cells as they are now, the cells that changed
/// since the terminal was last brought up to date, and the colors drawn since.
pub struct ScreenView {
    pub width: int,
    pub height: int,
    pub cells: Seq<Cell>,
    pub deltas: Seq<Option<Priority<Cell>>>,
    pub colors: Seq<Option<Priority<Color>>>,
}

impl ScreenView {
    /// The three arrays have one entry for each cell.
    pub open spec fn wf(self) -> bool {
        &&& 0 <= self.width <= 0xffff
        &&& 0 <= self.height <= 0xffff
        &&& self.cells.len() == self.width * self.height
        &&& self.deltas.len() == self.width * self.height
        &&& self.colors.len() == self.width * self.height
    }

    /// Whether the cell position (x, y) is on the screen.
    pub open spec fn in_bounds(self, x: int, y: int) -> bool {
        0 <= x < self.width && 0 <= y < self.height
    }

    /// The screen of the given size on which nothing was drawn.
    pub open spec fn blank(width: int, height: int) -> Self {
        ScreenView {
            width,
            height,
            cells: Seq::new((width * height) as nat, |i: int| Cell { bits: 0 }),
            deltas: Seq::new((width * height) as nat, |i: int| None),
            colors: Seq::new((width * height) as nat, |i: int| None),
        }
    }

    /// The screen after a cell has been drawn at the cell position (x, y):
    /// unchanged where the position is not on the screen.
    pub open spec fn draw_cell(self, cell: Cell, x: int, y: int, blit: Blit, priority: u16) -> Self {
        if self.in_bounds(x, y) {
            let i = y * self.width + x;
            let drawn = Cell { bits: blit_bits(self.cells[i].bits, cell.bits, blit) };
            let new = Priority { value: drawn, priority };
            ScreenView {
                cells: self.cells.update(i, drawn),
                deltas: self.deltas.update(
                    i,
                    Some(
                        if blit is Put || blit is Unset {
                            higher_cell(self.deltas[i], new)
                        } else {
                            new
                        },
                    ),
                ),
                ..self
            }
        } else {
            self
        }
    }

    /// The screen after a color has been drawn at the cell position (x, y):
    /// unchanged where the position is not on the screen.
    pub open spec fn draw_cell_color(self, color: Color, x: int, y: int, priority: u16) -> Self {
        if self.in_bounds(x, y) {
            let i = y * self.width + x;
            ScreenView {
                colors: self.colors.update(
                    i,
                    Some(higher_color(self.colors[i], Priority { value: color, priority })),
                ),
                ..self
            }
        } else {
            self
        }
    }

    /// The screen after the pixel at the pixel position (x, y) has been drawn.
    pub open spec fn draw_pixel(self, x: int, y: int, blit: Blit) -> Self {
        self.draw_cell(
            Cell { bits: 1u8 << ((2 * (y % 4) + x % 2) as u8) },
            x / 2,
            y / 4,
            pixel_blit(blit),
            0xffff,
        )
    }

    /// The screen after one cell of a sprite has been drawn at the cell
    /// position (x, y): an empty cell draws nothing, a cell without color
    /// draws no color.
    pub open spec fn draw_colored_cell(
        self,
        cell: ColoredCell,
        x: int,
        y: int,
        blit: Blit,
        priority: u16,
    ) -> Self {
        if cell.cell.bits == 0 {
            self
        } else {
            match cell.color {
                Some(color) => self.draw_cell(cell.cell, x, y, blit, priority).draw_cell_color(
                    color,
                    x,
                    y,
                    priority,
                ),
                None => self.draw_cell(cell.cell, x, y, blit, priority),
            }
        }
    }

    /// The screen after the first `n` cells of a grid have been drawn, the
    /// grid's first cell at the cell position (x, y).
    pub open spec fn draw_grid(
        self,
        grid: Seq<ColoredCell>,
        grid_width: int,
        x: int,
        y: int,
        blit: Blit,
        priority: u16,
        n: int,
    ) -> Self
        decreases n,
    {
        if n <= 0 {
            self
        } else {
            self.draw_grid(grid, grid_width, x, y, blit, priority, n - 1).draw_colored_cell(
                grid[n - 1],
                x + (n - 1) % grid_width,
                y + (n - 1) / grid_width,
                blit,
                priority,
            )
        }
    }

    /// Whether cell `i` of a grid that is drawn with its first cell at the
    /// cell position (x, y) is empty or falls on the screen.
    pub open spec fn cell_fits(self, grid: Seq<ColoredCell>, grid_width: int, x: int, y: int, i: int)
        -> bool {
        grid[i].cell.bits == 0 || self.in_bounds(x + i % grid_width, y + i / grid_width)
    }

    /// Whether each of the first `n` cells of a grid is empty or falls on the
    /// screen.
    pub open spec fn grid_fits(self, grid: Seq<ColoredCell>, grid_width: int, x: int, y: int, n: int)
        -> bool {
        forall|i: int| 0 <= i < n ==> #[trigger] self.cell_fits(grid, grid_width, x, y, i)
    }

    /// The screen with every cell empty and recorded as changed.
    pub open spec fn clear(self) -> Self {
        ScreenView {
            cells: Seq::new(self.cells.len(), |i: int| Cell { bits: 0 }),
            deltas: Seq::new(
                self.deltas.len(),
                |i: int| Some(Priority { value: Cell { bits: 0 }, priority: 0 }),
            ),
            ..self
        }
    }

    /// The screen with no change and no color recorded.
    pub open spec fn reset_deltas(self) -> Self {
        ScreenView {
            deltas: Seq::new(self.deltas.len(), |i: int| None),
            colors: Seq::new(self.colors.len(), |i: int| None),
            ..self
        }
    }

    /// The text of row `y`: the braille character of each cell, and a newline.
    pub open spec fn row_text(self, y: int) -> Seq<char> {
        Seq::new(self.width as nat, |x: int| self.cells[y * self.width + x].braille_char()).push(
            '\n',
        )
    }

    /// The text of the first `n` rows.
    pub open spec fn text_before(self, n: int) -> Seq<char>
        decreases n,
    {
        if n <= 0 {
            Seq::empty()
        } else {
            self.text_before(n - 1) + self.row_text(n - 1)
        }
    }

    /// The text of the whole screen.
    pub open spec fn text(self) -> Seq<char> {
        self.text_before(self.height)
    }

    /// The terminal after the changes among the first `n` cells have been
    /// sent to it. It starts with the cursor moved to the top left corner and
    /// no color set. For each changed cell, the cursor is moved to it unless
    /// it is there, by row or column alone where the other is right; the
    /// cell's recorded color is set unless it is the color set last; and the
    /// cell is written, which leaves the cursor one column to the right.
    pub open spec fn render_before(self, n: int) -> Rendering
        decreases n,
    {
        if n <= 0 {
            Rendering { commands: seq![Command::MoveTo(0, 0)], x: 0, y: 0, color: None }
        } else {
            let before = self.render_before(n - 1);
            match self.deltas[n - 1] {
                None => before,
                Some(delta) => {
                    let x = (n - 1) % self.width;
                    let y = (n - 1) / self.width;
                    let moved = if x == before.x && y == before.y {
                        before.commands
                    } else if x == before.x {
                        before.commands.push(Command::MoveToRow(y as u16))
                    } else if y == before.y {
                        before.commands.push(Command::MoveToColumn(x as u16))
                    } else {
                        before.commands.push(Command::MoveTo(x as u16, y as u16))
                    };
                    let set = match self.colors[n - 1] {
                        Some(c) => before.color != Some(c.value),
                        None => false,
                    };
                    Rendering {
                        commands: (if set {
                            moved.push(Command::SetForegroundColor(self.colors[n - 1]->0.value))
                        } else {
                            moved
                        }).push(Command::Print(delta.value)),
                        x: x + 1,
                        y,
                        color: if set {
                            Some(self.colors[n - 1]->0.value)
                        } else {
                            before.color
                        },
                    }
                },
            }
        }
    }

    /// The commands that bring a terminal up to date with the screen.
    pub open spec fn render(self) -> Seq<Command> {
        self.render_before(self.width * self.height).commands
    }
}

/// Type used to draw to the terminal. The point (0, 0) is the top left pixel
/// of the screen.
#[derive(Debug, Clone)]
pub struct Screen {
    cells: Vec<Cell>,
    deltas: Vec<Option<Priority<Cell>>>,
    colors: Vec<Option<Priority<Color>>>,
    width: u16,
    height: u16,
}

impl View for Screen {
    type V = ScreenView;

    closed spec fn view(&self) -> ScreenView {
        ScreenView {
            width: self.width as int,
            height: self.height as int,
            cells: self.cells@,
            deltas: self.deltas@,
            colors: self.colors@,
        }
    }
}

impl<T> Priority<T> {
    /// A value with its priority.
    pub fn new(value: T, priority: u16) -> (r: Self)
        ensures
            r.value == value,
            r.priority == priority,
    {
        Self { value, priority }
    }
}

/// Where two colored cells that are not empty are drawn to one cell of the
/// screen, on which no color of the higher priority or above is recorded, the
/// color recorded afterwards is that of the cell drawn with the higher
/// priority, whichever is drawn first.
pub proof fn lemma_higher_priority_color_stays(
    screen: ScreenView,
    low: ColoredCell,
    low_priority: u16,
    low_blit: Blit,
    high: ColoredCell,
    high_priority: u16,
    high_blit: Blit,
    x: int,
    y: int,
)
    requires
        screen.wf(),
        screen.in_bounds(x, y),
        low.cell.bits != 0,
        high.cell.bits != 0,
        low.color is Some,
        high.color is Some,
        low_priority < high_priority,
        screen.colors[y * screen.width + x] is None || screen.colors[y * screen.width
            + x]->0.priority < high_priority,
    ensures
        screen.draw_colored_cell(low, x, y, low_blit, low_priority).draw_colored_cell(
            high,
            x,
            y,
            high_blit,
            high_priority,
        ).colors[y * screen.width + x] == Some(
            Priority { value: high.color->0, priority: high_priority },
        ),
        screen.draw_colored_cell(high, x, y, high_blit, high_priority).draw_colored_cell(
            low,
            x,
            y,
            low_blit,
            low_priority,
        ).colors[y * screen.width + x] == Some(
            Priority { value: high.color->0, priority: high_priority },
        ),
{
    lemma_index_in_grid(x, y, screen.width, screen.height);
}

/// A color that is recorded for a cell gives way only to one of the same or
/// a higher priority.
pub proof fn lemma_color_priority_never_falls(
    screen: ScreenView,
    color: Color,
    priority: u16,
    x: int,
    y: int,
    i: int,
)
    requires
        screen.wf(),
        0 <= i < screen.colors.len(),
        screen.colors[i] is Some,
    ensures
        screen.draw_cell_color(color, x, y, priority).colors[i] is Some,
        screen.draw_cell_color(color, x, y, priority).colors[i]->0.priority
            >= screen.colors[i]->0.priority,
{
    if screen.in_bounds(x, y) {
        lemma_index_in_grid(x, y, screen.width, screen.height);
    }
}

/// Drawing a grid changes no cell of the screen but those that a cell of the
/// grid which is not empty falls on, and each of these is drawn with that cell
/// of the grid, whether or not other cells of the grid fall outside the
/// screen. The grid's first cell is drawn at the cell position (x0, y0); (x, y)
/// is any position on the screen.
pub proof fn lemma_draw_grid_cell(
    screen: ScreenView,
    grid: Seq<ColoredCell>,
    grid_width: int,
    x0: int,
    y0: int,
    blit: Blit,
    priority: u16,
    n: int,
    x: int,
    y: int,
)
    requires
        screen.wf(),
        grid_width > 0,
        0 <= n <= grid.len(),
        0 <= x0,
        0 <= y0,
        screen.in_bounds(x, y),
    ensures
        screen.draw_grid(grid, grid_width, x0, y0, blit, priority, n).wf(),
        screen.draw_grid(grid, grid_width, x0, y0, blit, priority, n).width == screen.width,
        screen.draw_grid(grid, grid_width, x0, y0, blit, priority, n).height == screen.height,
        screen.draw_grid(grid, grid_width, x0, y0, blit, priority, n).cells[y * screen.width + x]
            == (if 0 <= x - x0 < grid_width && 0 <= y - y0 && (y - y0) * grid_width + (x - x0) < n
            && grid[(y - y0) * grid_width + (x - x0)].cell.bits != 0 {
            Cell {
                bits: blit_bits(
                    screen.cells[y * screen.width + x].bits,
                    grid[(y - y0) * grid_width + (x - x0)].cell.bits,
                    blit,
                ),
            }
        } else {
            screen.cells[y * screen.width + x]
        }),
    decreases n,
{
    if n > 0 {
        lemma_draw_grid_cell(screen, grid, grid_width, x0, y0, blit, priority, n - 1, x, y);
        let before = screen.draw_grid(grid, grid_width, x0, y0, blit, priority, n - 1);
        let tx = x0 + (n - 1) % grid_width;
        let ty = y0 + (n - 1) / grid_width;
        let i = (y - y0) * grid_width + (x - x0);
        lemma_index_in_grid(x, y, screen.width, screen.height);
        vstd::arithmetic::div_mod::lemma_fundamental_div_mod(n - 1, grid_width);
        vstd::arithmetic::div_mod::lemma_mod_bound(n - 1, grid_width);
        assert(grid_width * ((n - 1) / grid_width) == ((n - 1) / grid_width) * grid_width)
            by (nonlinear_arith);
        if 0 <= x - x0 < grid_width {
            lemma_index_parts(x - x0, y - y0, grid_width);
        }
        if before.in_bounds(tx, ty) {
            lemma_index_in_grid(tx, ty, screen.width, screen.height);
            lemma_index_parts(tx, ty, screen.width);
            lemma_index_parts(x, y, screen.width);
        }
    }
}

/// Drawing a grid records a change and a color for no cell of the screen but
/// those that a cell of the grid which is not empty falls on. For each of
/// these the change that is recorded is the cell as it is drawn, or the
/// recorded change of higher priority where the blit is [`Blit::Put`] or
/// [`Blit::Unset`]; and the color is that of the cell of the grid, if it has
/// one, or the recorded color of higher priority. The grid's first cell is
/// drawn at the cell position (x0, y0); (x, y) is any position on the screen.
#[verifier::rlimit(30)]
pub proof fn lemma_draw_grid_records(
    screen: ScreenView,
    grid: Seq<ColoredCell>,
    grid_width: int,
    x0: int,
    y0: int,
    blit: Blit,
    priority: u16,
    n: int,
    x: int,
    y: int,
)
    requires
        screen.wf(),
        grid_width > 0,
        0 <= n <= grid.len(),
        0 <= x0,
        0 <= y0,
        screen.in_bounds(x, y),
    ensures
        0 <= x - x0 < grid_width && 0 <= y - y0 && (y - y0) * grid_width + (x - x0) < n && grid[(y
            - y0) * grid_width + (x - x0)].cell.bits != 0 ==> {
            let cell = grid[(y - y0) * grid_width + (x - x0)];
            let drawn = Priority {
                value: Cell {
                    bits: blit_bits(screen.cells[y * screen.width + x].bits, cell.cell.bits, blit),
                },
                priority,
            };
            &&& screen.draw_grid(grid, grid_width, x0, y0, blit, priority, n).deltas[y
                * screen.width + x] == Some(
                if blit is Put || blit is Unset {
                    higher_cell(screen.deltas[y * screen.width + x], drawn)
                } else {
                    drawn
                },
            )
            &&& screen.draw_grid(grid, grid_width, x0, y0, blit, priority, n).colors[y
                * screen.width + x] == (match cell.color {
                Some(color) => Some(
                    higher_color(
                        screen.colors[y * screen.width + x],
                        Priority { value: color, priority },
                    ),
                ),
                None => screen.colors[y * screen.width + x],
            })
        },
        !(0 <= x - x0 < grid_width && 0 <= y - y0 && (y - y0) * grid_width + (x - x0) < n && grid[(y
            - y0) * grid_width + (x - x0)].cell.bits != 0) ==> {
            &&& screen.draw_grid(grid, grid_width, x0, y0, blit, priority, n).deltas[y
                * screen.width + x] == screen.deltas[y * screen.width + x]
            &&& screen.draw_grid(grid, grid_width, x0, y0, blit, priority, n).colors[y
                * screen.width + x] == screen.colors[y * screen.width + x]
        },
    decreases n,
{
    if n > 0 {
        lemma_draw_grid_records(screen, grid, grid_width, x0, y0, blit, priority, n - 1, x, y);
        lemma_draw_grid_cell(screen, grid, grid_width, x0, y0, blit, priority, n - 1, x, y);
        let before = screen.draw_grid(grid, grid_width, x0, y0, blit, priority, n - 1);
        let tx = x0 + (n - 1) % grid_width;
        let ty = y0 + (n - 1) / grid_width;
        lemma_index_in_grid(x, y, screen.width, screen.height);
        vstd::arithmetic::div_mod::lemma_fundamental_div_mod(n - 1, grid_width);
        vstd::arithmetic::div_mod::lemma_mod_bound(n - 1, grid_width);
        assert(grid_width * ((n - 1) / grid_width) == ((n - 1) / grid_width) * grid_width)
            by (nonlinear_arith);
        if 0 <= x - x0 < grid_width {
            lemma_index_parts(x - x0, y - y0, grid_width);
        }
        if before.in_bounds(tx, ty) {
            lemma_index_in_grid(tx, ty, screen.width, screen.height);
            lemma_index_parts(tx, ty, screen.width);
            lemma_index_parts(x, y, screen.width);
        }
    }
}

/// Drawing a sprite with [`Blit::Add`] at the pixel position
/// (x_pixel, y_pixel) sets the sprite's pixels, each moved there, and leaves
/// every other pixel of the screen as it was. `data` holds the sprite's cells,
/// `width` in each row; (x, y) is any pixel on the screen.
#[verifier::rlimit(40)]
pub proof fn lemma_added_sprite_sets_its_pixels(
    screen: ScreenView,
    data: Seq<ColoredCell>,
    width: int,
    height: int,
    priority: u16,
    x_pixel: int,
    y_pixel: int,
    x: int,
    y: int,
)
    requires
        screen.wf(),
        0 <= width,
        0 <= height,
        0 <= x_pixel,
        0 <= y_pixel,
        0 <= x,
        0 <= y,
        screen.in_bounds(x / 2, y / 4),
    ensures
        screen.draw_grid(
            offset_grid(data, width, height, (x_pixel % 2) as u8, (y_pixel % 4) as u8),
            grown(width, x_pixel % 2),
            x_pixel / 2,
            y_pixel / 4,
            Blit::Add,
            priority,
            offset_grid(data, width, height, (x_pixel % 2) as u8, (y_pixel % 4) as u8).len() as int,
        ).cells[(y / 4) * screen.width + x / 2].pixel((x % 2) as u8, (y % 4) as u8) == (
        screen.cells[(y / 4) * screen.width + x / 2].pixel((x % 2) as u8, (y % 4) as u8)
            || sprite_pixel(data, width, height, x - x_pixel, y - y_pixel)),
{
    let dx: u8 = (x_pixel % 2) as u8;
    let dy: u8 = (y_pixel % 4) as u8;
    let grid = offset_grid(data, width, height, dx, dy);
    let gw = grown(width, dx as int);
    let gh = grown(height, dy as int);
    let x0 = x_pixel / 2;
    let y0 = y_pixel / 4;
    let cx = x / 2;
    let cy = y / 4;
    let px: u8 = (x % 2) as u8;
    let py: u8 = (y % 4) as u8;
    let i: u8 = (2 * py + px) as u8;
    let before: u8 = screen.cells[cy * screen.width + cx].bits;
    lemma_offset_grid_len(data, width, height, dx, dy);
    if gw > 0 {
        lemma_draw_grid_cell(
            screen,
            grid,
            gw,
            x0,
            y0,
            Blit::Add,
            priority,
            grid.len() as int,
            cx,
            cy,
        );
        let gx = cx - x0;
        let gy = cy - y0;
        if 0 <= gx < gw && 0 <= gy {
            if gy < gh {
                lemma_index_in_grid_int(gx, gy, gw, gh);
                lemma_offset_grid_pixels(data, width, height, dx, dy, gx, gy, px, py);
                let piece: u8 = grid[gy * gw + gx].cell.bits;
                assert(bit_is_set(before | piece, i) == (bit_is_set(before, i) || bit_is_set(
                    piece,
                    i,
                )) && (piece == 0 ==> !bit_is_set(piece, i))) by (bit_vector)
                    requires
                        i < 8,
                ;
            } else {
                assert(gy * gw + gx >= gw * gh) by (nonlinear_arith)
                    requires
                        gy >= gh,
                        gw > 0,
                        gx >= 0,
                ;
            }
        }
    }
}

/// The text of a screen has one character for every cell and one more for
/// every row, and each is a braille character or a newline.
pub proof fn lemma_text_is_braille(screen: ScreenView, n: int)
    requires
        0 <= screen.width,
        0 <= n,
    ensures
        screen.text_before(n).len() == n * (screen.width + 1),
        forall|k: int|
            0 <= k < screen.text_before(n).len() ==> (#[trigger] screen.text_before(n)[k]) == '\n'
                || Cell::of_braille_char(screen.text_before(n)[k]) is Some,
    decreases n,
{
    if n > 0 {
        lemma_text_is_braille(screen, n - 1);
        let above = screen.text_before(n - 1);
        let row = screen.row_text(n - 1);
        assert(n * (screen.width + 1) == (n - 1) * (screen.width + 1) + (screen.width + 1))
            by (nonlinear_arith);
        assert forall|k: int| 0 <= k < (above + row).len() implies (#[trigger] (above + row)[k])
            == '\n' || Cell::of_braille_char((above + row)[k]) is Some by {
            if k >= above.len() {
                let x = k - above.len();
                if x < screen.width {
                    lemma_braille_round_trip(screen.cells[(n - 1) * screen.width + x]);
                }
            }
        }
    } else {
        assert(n * (screen.width + 1) == 0) by (nonlinear_arith)
            requires
                n == 0,
        ;
    }
}

/// The text of a screen takes three bytes of UTF-8 for every cell and one
/// more for every row.
pub proof fn lemma_text_bytes(screen: ScreenView, n: int)
    requires
        0 <= screen.width,
        0 <= n,
    ensures
        encode_utf8(screen.text_before(n)).len() == n * (3 * screen.width + 1),
    decreases n,
{
    if n > 0 {
        lemma_text_bytes(screen, n - 1);
        let cells = Seq::new(
            screen.width as nat,
            |x: int| screen.cells[(n - 1) * screen.width + x].braille_char(),
        );
        assert forall|j: int| 0 <= j < cells.len() implies (#[trigger] Cell::of_braille_char(
            cells[j],
        )) is Some by {
            lemma_braille_round_trip(screen.cells[(n - 1) * screen.width + j]);
        }
        assert(is_braille_row(cells));
        lemma_braille_row_bytes(cells);
        lemma_encode_one('\n');
        assert(encode_scalar('\n' as u32).len() == 1);
        assert(screen.row_text(n - 1) =~= cells + seq!['\n']);
        lemma_encode_concat(cells, seq!['\n']);
        lemma_encode_concat(screen.text_before(n - 1), screen.row_text(n - 1));
        assert(n * (3 * screen.width + 1) == (n - 1) * (3 * screen.width + 1) + (3 * screen.width
            + 1)) by (nonlinear_arith);
    } else {
        assert(n * (3 * screen.width + 1) == 0) by (nonlinear_arith)
            requires
                n == 0,
        ;
    }
}

/// `String::push`: appends the character to the end of the string.
#[verifier::external_body]
fn push_char(text: &mut String, c: char)
    ensures
        final(text)@ == old(text)@.push(c),
{
    text.push(c);
}

/// The time that is left of a frame after `elapsed` of it has passed: none
/// where more than the frame has passed.
pub fn frame_remainder(frame: u64, elapsed: u64) -> (r: u64)
    ensures
        r == (if elapsed < frame {
            frame - elapsed
        } else {
            0
        }),
{
    if elapsed < frame {
        frame - elapsed
    } else {
        0
    }
}

impl Screen {
    /// Whether the screen's arrays have one entry for each cell.
    pub open spec fn wf(&self) -> bool {
        self@.wf()
    }

    /// Create a new empty screen with the given dimensions in cells.
    pub fn new_cells(width: u16, height: u16) -> (r: Self)
        ensures
            r.wf(),
            r@ == ScreenView::blank(width as int, height as int),
    {
        let n: usize = cell_length(width, height);
        let mut cells: Vec<Cell> = Vec::new();
        let mut deltas: Vec<Option<Priority<Cell>>> = Vec::new();
        let mut colors: Vec<Option<Priority<Color>>> = Vec::new();
        let mut i: usize = 0;
        while i < n
            invariant
                i <= n,
                cells@ == Seq::new(i as nat, |k: int| Cell { bits: 0 }),
                deltas@ == Seq::new(i as nat, |k: int| None::<Priority<Cell>>),
                colors@ == Seq::new(i as nat, |k: int| None::<Priority<Color>>),
            decreases n - i,
        {
            cells.push(Cell::empty());
            deltas.push(None);
            colors.push(None);
            i = i + 1;
            proof {
                assert(cells@ =~= Seq::new(i as nat, |k: int| Cell { bits: 0 }));
                assert(deltas@ =~= Seq::new(i as nat, |k: int| None::<Priority<Cell>>));
                assert(colors@ =~= Seq::new(i as nat, |k: int| None::<Priority<Color>>));
            }
        }
        Self { cells, deltas, colors, width, height }
    }

    /// Create a new empty screen with the given dimensions in pixels, rounded
    /// up to whole cells.
    pub fn new_pixels(width: u16, height: u16) -> (r: Self)
        ensures
            r.wf(),
            r@ == ScreenView::blank((width + 1) / 2, (height + 3) / 4),
    {
        let ((x_cell, x_pixel), (y_cell, y_pixel)) = pos_components(width, height);
        Self::new_cells(
            if x_pixel == 0 {
                x_cell
            } else {
                x_cell + 1
            },
            if y_pixel == 0 {
                y_cell
            } else {
                y_cell + 1
            },
        )
    }

    /// Get the width of the screen, in number of cells.
    pub fn width(&self) -> (w: u16)
        ensures
            w == self@.width,
    {
        self.width
    }

    /// Get the height of the screen, in number of cells.
    pub fn height(&self) -> (h: u16)
        ensures
            h == self@.height,
    {
        self.height
    }

    /// Compute the array index of a cell at position (x, y).
    pub fn index(&self, x: u16, y: u16) -> (i: usize)
        ensures
            i == y * self@.width + x,
    {
        index(x, y, self.width())
    }

    /// Compute the position (x, y) of a cell at the given array index.
    pub fn from_index(&self, i: usize) -> (r: (u16, u16))
        requires
            self@.width > 0,
        ensures
            r == crate::units::spec_from_index(i, self@.width),
            self.wf() && i < self@.cells.len() ==> r.0 == (i as int) % self@.width && r.1 == (
            i as int) / self@.width,
    {
        proof {
            if self.wf() {
                assert(self@.width * self@.height <= self@.width * 0xffff) by (nonlinear_arith)
                    requires
                        0 <= self@.width,
                        0 <= self@.height <= 0xffff,
                ;
            }
        }
        from_index(i, self.width())
    }

    /// Draws a [`Cell`] to the screen at a given cell position.
    ///
    /// The `blit` says how the cell is combined with what is there. The
    /// `priority` decides, for [`Blit::Put`] and [`Blit::Unset`], whether the
    /// result is recorded as the cell's change over one recorded before.
    ///
    /// Returns `true` if the position is on the screen; if it is not, nothing
    /// is drawn.
    pub fn draw_cell(&mut self, cell: Cell, x: u16, y: u16, blit: Blit, priority: u16) -> (drawn:
        bool)
        requires
            old(self).wf(),
        ensures
            final(self).wf(),
            drawn == old(self)@.in_bounds(x as int, y as int),
            final(self)@ == old(self)@.draw_cell(cell, x as int, y as int, blit, priority),
    {
        if x < self.width() && y < self.height() {
            let index = self.index(x, y);
            proof {
                lemma_index_in_grid(x as int, y as int, self@.width, self@.height);
            }
            let previous_cell = self.cells[index];
            let new_cell = Cell::new(
                match blit {
                    Blit::Put => cell.bits,
                    Blit::Unset => !cell.bits,
                    Blit::Add => previous_cell.bits | cell.bits,
                    Blit::Subtract => previous_cell.bits & !cell.bits,
                    Blit::Toggle => previous_cell.bits ^ cell.bits,
                },
            );
            let new = Priority::new(new_cell, priority);
            let delta = match blit {
                Blit::Put | Blit::Unset => match self.deltas[index] {
                    Some(previous) => if previous.priority > priority || (previous.priority
                        == priority && previous.value.bits > new_cell.bits) {
                        previous
                    } else {
                        new
                    },
                    None => new,
                },
                _ => new,
            };
            self.deltas.set(index, Some(delta));
            self.cells.set(index, new_cell);
            proof {
                assert(final(self)@.cells =~= old(self)@.draw_cell(
                    cell,
                    x as int,
                    y as int,
                    blit,
                    priority,
                ).cells);
                assert(final(self)@.deltas =~= old(self)@.draw_cell(
                    cell,
                    x as int,
                    y as int,
                    blit,
                    priority,
                ).deltas);
            }
            true
        } else {
            false
        }
    }

    /// Sets the color of the cell at the specified position. A color of lower
    /// priority than the one recorded there is not recorded.
    ///
    /// Returns `true` if the position is on the screen.
    pub fn draw_cell_color(&mut self, color: Color, x: u16, y: u16, priority: u16) -> (drawn: bool)
        requires
            old(self).wf(),
        ensures
            final(self).wf(),
            drawn == old(self)@.in_bounds(x as int, y as int),
            final(self)@ == old(self)@.draw_cell_color(color, x as int, y as int, priority),
    {
        if x < self.width() && y < self.height() {
            let i = self.index(x, y);
            proof {
                lemma_index_in_grid(x as int, y as int, self@.width, self@.height);
            }
            let new_color = Priority::new(color, priority);
            let kept = match self.colors[i] {
                Some(previous) => if previous.priority > priority || (previous.priority == priority
                    && previous.value.0 > color.0) {
                    previous
                } else {
                    new_color
                },
                None => new_color,
            };
            self.colors.set(i, Some(kept));
            true
        } else {
            false
        }
    }

    /// Draws the pixel at the given pixel position: [`Blit::Put`] and
    /// [`Blit::Add`] set it, [`Blit::Unset`] and [`Blit::Subtract`] unset it,
    /// [`Blit::Toggle`] flips it. The other pixels stay. The change is
    /// recorded with the highest priority.
    ///
    /// Returns `true` if the position is on the screen.
    pub fn draw_pixel(&mut self, x: u16, y: u16, blit: Blit) -> (drawn: bool)
        requires
            old(self).wf(),
        ensures
            final(self).wf(),
            drawn == old(self)@.in_bounds(x as int / 2, y as int / 4),
            final(self)@ == old(self)@.draw_pixel(x as int, y as int, blit),
    {
        let ((x_cell, x_pixel), (y_cell, y_pixel)) = pos_components(x, y);
        let blit = match blit {
            Blit::Unset => Blit::Subtract,
            Blit::Put => Blit::Add,
            blit => blit,
        };
        let cell = Cell::from_bit_position(x_pixel, y_pixel).unwrap();
        self.draw_cell(cell, x_cell, y_cell, blit, u16::MAX)
    }

    /// Returns the cell at the specified cell position, or `None` if it is
    /// not on the screen.
    pub fn get_cell(&self, x: u16, y: u16) -> (r: Option<Cell>)
        requires
            self.wf(),
        ensures
            r == (if self@.in_bounds(x as int, y as int) {
                Some(self@.cells[y * self@.width + x])
            } else {
                None
            }),
    {
        if x < self.width() && y < self.height() {
            let index = self.index(x, y);
            proof {
                lemma_index_in_grid(x as int, y as int, self@.width, self@.height);
            }
            Some(self.cells[index])
        } else {
            None
        }
    }

    /// Returns the color recorded for the cell at the specified cell
    /// position, or `None` if there is none or if it is not on the screen.
    pub fn get_color(&self, x: u16, y: u16) -> (r: Option<Color>)
        requires
            self.wf(),
        ensures
            r == (if self@.in_bounds(x as int, y as int) && self@.colors[y * self@.width
                + x] is Some {
                Some(self@.colors[y * self@.width + x]->0.value)
            } else {
                None
            }),
    {
        if x < self.width() && y < self.height() {
            let index = self.index(x, y);
            proof {
                lemma_index_in_grid(x as int, y as int, self@.width, self@.height);
            }
            match self.colors[index] {
                Some(p) => Some(p.value),
                None => None,
            }
        } else {
            None
        }
    }

    /// Returns the pixel at the specified pixel position, or `None` if it is
    /// not on the screen.
    pub fn get_pixel(&self, x: u16, y: u16) -> (r: Option<bool>)
        requires
            self.wf(),
        ensures
            r == (if self@.in_bounds(x as int / 2, y as int / 4) {
                Some(self@.cells[(y / 4) * self@.width + x / 2].pixel((x % 2) as u8, (y % 4) as u8))
            } else {
                None
            }),
    {
        let ((x_cell, x_pixel), (y_cell, y_pixel)) = pos_components(x, y);
        let mask = Cell::from_bit_position(x_pixel, y_pixel).unwrap();
        match self.get_cell(x_cell, y_cell) {
            Some(cell) => {
                proof {
                    let b = cell.bits;
                    let i: u8 = (2 * y_pixel + x_pixel) as u8;
                    assert(i < 8 ==> ((b & (1u8 << i) != 0) <==> ((b >> i) & 1 == 1)))
                        by (bit_vector);
                }
                Some(cell.bits & mask.bits != 0)
            },
            None => None,
        }
    }

    /// Draws a sprite to the screen, its top left corner at the given pixel
    /// position: every cell of the sprite's grid for that position that is not
    /// empty is drawn with the sprite's priority, and so is its color if it
    /// has one.
    ///
    /// Returns `false` if a cell that is not empty fell outside the screen;
    /// the others are drawn all the same.
    pub fn draw_sprite(&mut self, sprite: &Sprite, x_pixel: u16, y_pixel: u16, blit: Blit) -> (drawn:
        bool)
        requires
            old(self).wf(),
            sprite.wf(),
        ensures
            final(self).wf(),
            drawn == old(self)@.grid_fits(
                sprite@.grids[2 * (y_pixel % 4) + x_pixel % 2],
                sprite@.grid_width(2 * (y_pixel % 4) + x_pixel % 2),
                x_pixel as int / 2,
                y_pixel as int / 4,
                sprite@.grids[2 * (y_pixel % 4) + x_pixel % 2].len() as int,
            ),
            final(self)@ == old(self)@.draw_grid(
                sprite@.grids[2 * (y_pixel % 4) + x_pixel % 2],
                sprite@.grid_width(2 * (y_pixel % 4) + x_pixel % 2),
                x_pixel as int / 2,
                y_pixel as int / 4,
                blit,
                sprite@.priority,
                sprite@.grids[2 * (y_pixel % 4) + x_pixel % 2].len() as int,
            ),
    {
        let ((dx_cell, x_px), (dy_cell, y_px)) = pos_components(x_pixel, y_pixel);
        let offset: u8 = px_offset(x_px, y_px);
        let data: &SpriteData = sprite.grid(offset);
        let (grid_width, grid_height) = sprite.offset_size(offset);
        let priority: u16 = sprite.priority();
        let n: usize = data.len();
        proof {
            assert(grid_width * grid_height <= grid_width * 0xffff) by (nonlinear_arith)
                requires
                    0 <= grid_width,
                    0 <= grid_height <= 0xffff,
            ;
        }
        let ghost start = self@;
        let ghost grid = data@;
        let mut drawn: bool = true;
        let mut i: usize = 0;
        while i < n
            invariant
                i <= n == grid.len(),
                grid == data@,
                n == grid_width * grid_height <= grid_width * 0xffff,
                dx_cell == x_pixel / 2,
                dy_cell == y_pixel / 4,
                self.wf(),
                start.wf(),
                self@.width == start.width,
                self@.height == start.height,
                drawn == start.grid_fits(grid, grid_width as int, dx_cell as int, dy_cell as int, i as int),
                self@ == start.draw_grid(
                    grid,
                    grid_width as int,
                    dx_cell as int,
                    dy_cell as int,
                    blit,
                    priority,
                    i as int,
                ),
            decreases n - i,
        {
            let cell: ColoredCell = data.get(i).unwrap();
            let (x_cell, y_cell) = from_index(i, grid_width);
            let x: u32 = x_cell as u32 + dx_cell as u32;
            let y: u32 = y_cell as u32 + dy_cell as u32;
            let ghost before = self@;
            if !cell.cell.is_empty() {
                if x <= 0xffff && y <= 0xffff {
                    let cell_drawn = self.draw_cell(cell.cell, x as u16, y as u16, blit, priority);
                    drawn = drawn && cell_drawn;
                    match cell.color {
                        Some(color) => {
                            self.draw_cell_color(color, x as u16, y as u16, priority);
                        },
                        None => {},
                    }
                } else {
                    drawn = false;
                }
            }
            proof {
                assert(self@ == before.draw_colored_cell(cell, x as int, y as int, blit, priority));
                assert(start.cell_fits(grid, grid_width as int, dx_cell as int, dy_cell as int, i as int)
                    == (cell.cell.bits == 0 || start.in_bounds(x as int, y as int)));
            }
            i = i + 1;
        }
        drawn
    }

    /// Sets the pixel at the given pixel position if `value` is `true`, and
    /// unsets it otherwise.
    ///
    /// Returns `true` if the position is on the screen.
    pub fn set_pixel(&mut self, x: u16, y: u16, value: bool) -> (drawn: bool)
        requires
            old(self).wf(),
        ensures
            final(self).wf(),
            drawn == old(self)@.in_bounds(x as int / 2, y as int / 4),
            final(self)@ == old(self)@.draw_pixel(
                x as int,
                y as int,
                if value {
                    Blit::Add
                } else {
                    Blit::Subtract
                },
            ),
    {
        self.draw_pixel(
            x,
            y,
            if value {
                Blit::Add
            } else {
                Blit::Subtract
            },
        )
    }

    /// Flips the pixel at the given pixel position.
    ///
    /// Returns `true` if the position is on the screen.
    pub fn toggle_pixel(&mut self, x: u16, y: u16) -> (drawn: bool)
        requires
            old(self).wf(),
        ensures
            final(self).wf(),
            drawn == old(self)@.in_bounds(x as int / 2, y as int / 4),
            final(self)@ == old(self)@.draw_pixel(x as int, y as int, Blit::Toggle),
    {
        self.draw_pixel(x, y, Blit::Toggle)
    }

    /// Clears the whole screen: every cell is empty and recorded as changed,
    /// with priority 0.
    pub fn clear(&mut self)
        requires
            old(self).wf(),
        ensures
            final(self).wf(),
            final(self)@ == old(self)@.clear(),
    {
        let n: usize = self.cells.len();
        let mut i: usize = 0;
        while i < n
            invariant
                i <= n,
                self.wf(),
                n == self@.cells.len(),
                self@.width == old(self)@.width,
                self@.height == old(self)@.height,
                self@.colors == old(self)@.colors,
                forall|k: int| 0 <= k < i ==> (#[trigger] self@.cells[k]).bits == 0,
                forall|k: int|
                    0 <= k < i ==> #[trigger] self@.deltas[k] == Some(
                        Priority { value: Cell { bits: 0 }, priority: 0 },
                    ),
            decreases n - i,
        {
            self.cells.set(i, Cell::empty());
            self.deltas.set(i, Some(Priority::new(Cell::empty(), 0)));
            i = i + 1;
        }
        proof {
            assert(final(self)@.cells =~= old(self)@.clear().cells);
            assert(final(self)@.deltas =~= old(self)@.clear().deltas);
        }
    }

    /// Converts the screen to text that can be printed in a terminal: row by
    /// row, the braille character of each cell, and a newline after each row.
    /// Colors and recorded changes play no part.
    pub fn rasterize(&self) -> (text: String)
        requires
            self.wf(),
        ensures
            text@ == self@.text(),
            text@.len() == self@.height * (self@.width + 1),
            encode_utf8(text@).len() == self@.height * (3 * self@.width + 1),
    {
        proof {
            lemma_text_is_braille(self@, self@.height);
            lemma_text_bytes(self@, self@.height);
        }
        let mut text = String::new();
        let mut y: u16 = 0;
        while y < self.height()
            invariant
                self.wf(),
                y <= self@.height,
                text@ == self@.text_before(y as int),
            decreases self@.height - y,
        {
            let ghost above = text@;
            let mut x: u16 = 0;
            while x < self.width()
                invariant
                    self.wf(),
                    y < self@.height,
                    x <= self@.width,
                    text@ == above + Seq::new(
                        x as nat,
                        |k: int| self@.cells[y * self@.width + k].braille_char(),
                    ),
                decreases self@.width - x,
            {
                let i = self.index(x, y);
                proof {
                    lemma_index_in_grid(x as int, y as int, self@.width, self@.height);
                }
                push_char(&mut text, self.cells[i].to_braille_char());
                proof {
                    assert(text@ =~= above + Seq::new(
                        (x + 1) as nat,
                        |k: int| self@.cells[y * self@.width + k].braille_char(),
                    ));
                }
                x = x + 1;
            }
            push_char(&mut text, '\n');
            proof {
                assert(text@ =~= above + self@.row_text(y as int));
            }
            y = y + 1;
        }
        text
    }

    /// The commands that bring a terminal up to date with the screen: for
    /// every cell that changed, in the order of the array, the cursor moves
    /// that are needed, the cell's color if it is not the one set last, and
    /// the cell's character.
    pub fn render_commands(&self) -> (commands: Vec<Command>)
        requires
            self.wf(),
        ensures
            commands@ == self@.render(),
    {
        let mut commands: Vec<Command> = Vec::new();
        commands.push(Command::MoveTo(0, 0));
        let mut cur_x: u32 = 0;
        let mut cur_y: u32 = 0;
        let mut cur_color: Option<Color> = None;
        let n: usize = self.deltas.len();
        let mut i: usize = 0;
        while i < n
            invariant
                self.wf(),
                i <= n == self@.deltas.len(),
                cur_x <= 0xffff,
                cur_y <= 0xffff,
                commands@ == self@.render_before(i as int).commands,
                cur_x == self@.render_before(i as int).x,
                cur_y == self@.render_before(i as int).y,
                cur_color == self@.render_before(i as int).color,
            decreases n - i,
        {
            match self.deltas[i] {
                Some(delta) => {
                    proof {
                        assert(self@.width > 0) by (nonlinear_arith)
                            requires
                                0 <= i < self@.width * self@.height,
                                0 <= self@.width,
                        ;
                    }
                    let (x, y) = self.from_index(i);
                    if x as u32 == cur_x && y as u32 == cur_y {
                    } else if x as u32 == cur_x {
                        commands.push(Command::MoveToRow(y));
                    } else if y as u32 == cur_y {
                        commands.push(Command::MoveToColumn(x));
                    } else {
                        commands.push(Command::MoveTo(x, y));
                    }
                    match self.colors[i] {
                        Some(color) => {
                            let same = match cur_color {
                                Some(c) => c.0 == color.value.0,
                                None => false,
                            };
                            if !same {
                                commands.push(Command::SetForegroundColor(color.value));
                                cur_color = Some(color.value);
                            }
                        },
                        None => {},
                    }
                    commands.push(Command::Print(delta.value));
                    cur_x = x as u32 + 1;
                    cur_y = y as u32;
                },
                None => {},
            }
            i = i + 1;
        }
        commands
    }

    /// Forgets the recorded changes and colors; the cells stay.
    pub fn reset_deltas(&mut self)
        requires
            old(self).wf(),
        ensures
            final(self).wf(),
            final(self)@ == old(self)@.reset_deltas(),
    {
        let n: usize = self.deltas.len();
        let mut i: usize = 0;
        while i < n
            invariant
                i <= n,
                self.wf(),
                n == self@.deltas.len(),
                self@.width == old(self)@.width,
                self@.height == old(self)@.height,
                self@.cells == old(self)@.cells,
                forall|k: int| 0 <= k < i ==> #[trigger] self@.deltas[k] is None,
                forall|k: int| 0 <= k < i ==> #[trigger] self@.colors[k] is None,
            decreases n - i,
        {
            self.deltas.set(i, None);
            self.colors.set(i, None);
            i = i + 1;
        }
        proof {
            assert(final(self)@.deltas =~= old(self)@.reset_deltas().deltas);
            assert(final(self)@.colors =~= old(self)@.reset_deltas().colors);
        }
    }

    /// Handles the events that every screen handles: control and `c`
    /// together end the loop. Returns whether the loop goes on.
    pub fn handle_default_events(&self, event: Option<Event>, control: bool) -> (go_on: bool)
        ensures
            go_on == !(control && event == Some(Event::Char('c'))),
    {
        match event {
            Some(Event::Char(c)) => !(control && c == 'c'),
            _ => true,
        }
    }
}

} // verus!
