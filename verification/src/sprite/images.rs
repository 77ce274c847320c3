//! Sprites out of images. An image comes as plain RGBA values: four bytes for
//! each pixel, row by row.
use crate::cell::{bit_is_set, Cell};
use crate::color::{approximate, nearest_standard, Color, ColoredCell};
use crate::sprite::{data_new, data_push, Sprite, SpriteView};
use crate::units::{index, lemma_index_in_grid, lemma_index_parts};
use vstd::prelude::*;

verus! {

/// The different ways that raw pixel data can be interpreted as a sprite.
#[derive(Debug, Clone, Copy, PartialEq, Eq, PartialOrd, Ord)]
pub enum ColorMode {
    /// The sprite has no colors.
    Monochrome,
    /// Every cell has one of the 16 standard colors.
    Standard,
    /// Every cell has a color of the whole palette.
    Rgb,
}

/// The value of channel `c` (red, green, blue, alpha) of the pixel at (x, y) of
/// an image that is `width` pixels wide.
pub open spec fn channel(rgba: Seq<u8>, width: int, x: int, y: int, c: int) -> u8 {
    rgba[4 * (y * width + x) + c]
}

/// Whether the pixel at (x, y) is opaque: its alpha is above 128.
pub open spec fn is_opaque(rgba: Seq<u8>, width: int, x: int, y: int) -> bool {
    channel(rgba, width, x, y, 3) > 128
}

/// The pixels of the cell in cell column `cx` and cell row `cy` that its
/// first `n` pixels give, of the eight taken row by row: a pixel is set where
/// the image is opaque.
pub open spec fn opaque_bits_among(rgba: Seq<u8>, width: int, cx: int, cy: int, n: int) -> u8
    decreases n,
{
    if n <= 0 {
        0
    } else {
        opaque_bits_among(rgba, width, cx, cy, n - 1) | (if is_opaque(
            rgba,
            width,
            2 * cx + (n - 1) % 2,
            4 * cy + (n - 1) / 2,
        ) {
            1u8 << ((n - 1) as u8)
        } else {
            0u8
        })
    }
}

/// The color that pixel `k` of the cell at (cx, cy) votes for, if it votes:
/// with the alpha channel in use only opaque pixels vote. The color is the
/// approximation of the pixel's RGB triplet, among the standard colors in
/// [`ColorMode::Standard`] and in the whole palette otherwise.
pub open spec fn pixel_vote(
    rgba: Seq<u8>,
    width: int,
    cx: int,
    cy: int,
    k: int,
    color_mode: ColorMode,
    use_alpha_channel: bool,
) -> Option<Color> {
    let x = 2 * cx + k % 2;
    let y = 4 * cy + k / 2;
    if is_opaque(rgba, width, x, y) || !use_alpha_channel {
        Some(
            if color_mode is Rgb {
                approximate(
                    channel(rgba, width, x, y, 0),
                    channel(rgba, width, x, y, 1),
                    channel(rgba, width, x, y, 2),
                )
            } else {
                nearest_standard(
                    channel(rgba, width, x, y, 0),
                    channel(rgba, width, x, y, 1),
                    channel(rgba, width, x, y, 2),
                )
            },
        )
    } else {
        None
    }
}

/// The number of votes for `color` among the first `n`.
pub open spec fn votes_among(votes: Seq<Option<Color>>, color: Color, n: int) -> int
    decreases n,
{
    if n <= 0 {
        0
    } else {
        votes_among(votes, color, n - 1) + (if votes[n - 1] == Some(color) {
            1int
        } else {
            0int
        })
    }
}

/// The number of votes for `color`.
pub open spec fn votes_for(votes: Seq<Option<Color>>, color: Color) -> int {
    votes_among(votes, color, votes.len() as int)
}

/// The color with the most votes among the colors whose palette number is
/// below `n`, and of several with the most votes the one with the highest
/// number; none where none of them has a vote.
pub open spec fn winner_among(votes: Seq<Option<Color>>, n: int) -> Option<Color>
    decreases n,
{
    if n <= 0 {
        None
    } else {
        let before = winner_among(votes, n - 1);
        let color = Color((n - 1) as u8);
        if votes_for(votes, color) > 0 && (before is None || votes_for(votes, color) >= votes_for(
            votes,
            before->0,
        )) {
            Some(color)
        } else {
            before
        }
    }
}

/// The color with the most votes, and of several the one with the highest
/// palette number; none where there is no vote.
pub open spec fn winner(votes: Seq<Option<Color>>) -> Option<Color> {
    winner_among(votes, 256)
}

/// The cell in cell column `cx` and cell row `cy` of the sprite of an image.
/// With the alpha channel in use its pixels are the opaque pixels of the
/// image, else all of them. Its color is the winner of its pixels' votes, and
/// none in [`ColorMode::Monochrome`].
pub open spec fn image_cell(
    rgba: Seq<u8>,
    width: int,
    cx: int,
    cy: int,
    color_mode: ColorMode,
    use_alpha_channel: bool,
) -> ColoredCell {
    ColoredCell {
        cell: Cell {
            bits: if use_alpha_channel {
                opaque_bits_among(rgba, width, cx, cy, 8)
            } else {
                0xff
            },
        },
        color: if color_mode is Monochrome {
            None
        } else {
            winner(
                Seq::new(
                    8,
                    |k: int| pixel_vote(rgba, width, cx, cy, k, color_mode, use_alpha_channel),
                ),
            )
        },
    }
}

/// The cells of the sprite of an image of `width` by `height` pixels, row by
/// row: one cell for every whole block of 2 by 4 pixels.
pub open spec fn image_cells(
    rgba: Seq<u8>,
    width: int,
    height: int,
    color_mode: ColorMode,
    use_alpha_channel: bool,
) -> Seq<ColoredCell> {
    Seq::new(
        ((width / 2) * (height / 4)) as nat,
        |i: int|
            image_cell(
                rgba,
                width,
                i % (width / 2),
                i / (width / 2),
                color_mode,
                use_alpha_channel,
            ),
    )
}

/// The RGBA values of an image of `width` by `height` pixels after it has been
/// resized to `new_width` by `new_height` pixels, every new pixel taken from the
/// nearest old one.
pub uninterp spec fn nearest_resized(
    rgba: Seq<u8>,
    width: u32,
    height: u32,
    new_width: u32,
    new_height: u32,
) -> Seq<u8>;

/// `image::imageops::resize` with `image::imageops::FilterType::Nearest`, on
/// the image that `image::ImageBuffer::from_raw` makes of the values, and
/// `image::ImageBuffer::into_raw` on what it returns: the values of the
/// resized image, four for each of its `new_width` by `new_height` pixels. It
/// is not called for a size that the crate's buffers cannot have, nor to make
/// pixels out of none.
#[verifier::external_body]
fn resize_nearest(rgba: &[u8], width: u32, height: u32, new_width: u32, new_height: u32) -> (r: Vec<
    u8,
>)
    requires
        rgba@.len() == 4 * width * height,
        32 * new_width * new_height <= usize::MAX,
        32 * width * new_height <= usize::MAX,
        new_width > 0 && new_height > 0 ==> width > 0 && height > 0,
    ensures
        r@ == nearest_resized(rgba@, width, height, new_width, new_height),
        r@.len() == 4 * new_width * new_height,
{
    let source = image::RgbaImage::from_raw(width, height, rgba.to_vec()).unwrap();
    image::imageops::resize(
        &source,
        new_width,
        new_height,
        image::imageops::FilterType::Nearest,
    ).into_raw()
}

/// The four channels of the pixel at (x, y).
fn pixel_at(rgba: &[u8], width: u16, height: u16, x: u16, y: u16) -> (p: (u8, u8, u8, u8))
    requires
        rgba@.len() == 4 * width * height,
        x < width,
        y < height,
    ensures
        p.0 == channel(rgba@, width as int, x as int, y as int, 0),
        p.1 == channel(rgba@, width as int, x as int, y as int, 1),
        p.2 == channel(rgba@, width as int, x as int, y as int, 2),
        p.3 == channel(rgba@, width as int, x as int, y as int, 3),
{
    let i: usize = index(x, y, width);
    let len: usize = rgba.len();
    proof {
        lemma_index_in_grid(x as int, y as int, width as int, height as int);
        assert(4 * (width * height) == 4 * width * height) by (nonlinear_arith);
        assert(4 * i + 3 < len);
    }
    (rgba[4 * i], rgba[4 * i + 1], rgba[4 * i + 2], rgba[4 * i + 3])
}

/// Counts the votes for one color.
fn count_votes(votes: &[Option<Color>; 8], color: u8) -> (n: u8)
    ensures
        n == votes_for(votes@, Color(color)),
        n <= 8,
{
    let mut n: u8 = 0;
    let mut k: usize = 0;
    while k < 8
        invariant
            k <= 8,
            n <= k,
            n == votes_among(votes@, Color(color), k as int),
        decreases 8 - k,
    {
        match votes[k] {
            Some(c) => {
                if c.0 == color {
                    n = n + 1;
                }
            },
            None => {},
        }
        k = k + 1;
    }
    n
}

/// Finds the color with the most votes.
fn count_winner(votes: &[Option<Color>; 8]) -> (r: Option<Color>)
    ensures
        r == winner(votes@),
{
    let mut best: Option<Color> = None;
    let mut best_votes: u8 = 0;
    let mut color: u16 = 0;
    while color < 256
        invariant
            color <= 256,
            best == winner_among(votes@, color as int),
            best is Some ==> best_votes == votes_for(votes@, best->0),
        decreases 256 - color,
    {
        let n: u8 = count_votes(votes, color as u8);
        let takes: bool = match best {
            Some(_) => n >= best_votes,
            None => true,
        };
        if n > 0 && takes {
            best = Some(Color(color as u8));
            best_votes = n;
        }
        color = color + 1;
    }
    best
}

/// Computes one cell of the sprite of an image.
fn cell_of_block(
    rgba: &[u8],
    width: u16,
    height: u16,
    cx: u16,
    cy: u16,
    color_mode: ColorMode,
    use_alpha_channel: bool,
) -> (cell: ColoredCell)
    requires
        rgba@.len() == 4 * width * height,
        cx < width / 2,
        cy < height / 4,
    ensures
        cell == image_cell(
            rgba@,
            width as int,
            cx as int,
            cy as int,
            color_mode,
            use_alpha_channel,
        ),
{
    let mut bits: u8 = 0;
    let mut votes: [Option<Color>; 8] = [None, None, None, None, None, None, None, None];
    let mut k: u8 = 0;
    while k < 8
        invariant
            k <= 8,
            rgba@.len() == 4 * width * height,
            cx < width / 2,
            cy < height / 4,
            bits == opaque_bits_among(rgba@, width as int, cx as int, cy as int, k as int),
            forall|j: int|
                0 <= j < k ==> #[trigger] votes@[j] == pixel_vote(
                    rgba@,
                    width as int,
                    cx as int,
                    cy as int,
                    j,
                    color_mode,
                    use_alpha_channel,
                ),
        decreases 8 - k,
    {
        let x: u16 = 2 * cx + (k % 2) as u16;
        let y: u16 = 4 * cy + (k / 2) as u16;
        let (r, g, b, a) = pixel_at(rgba, width, height, x, y);
        if a > 128 {
            bits = bits | (1u8 << k);
        } else {
            assert(bits | 0u8 == bits) by (bit_vector);
        }
        if a > 128 || !use_alpha_channel {
            votes[k as usize] = Some(
                match color_mode {
                    ColorMode::Rgb => Color::from_rgb_approximate(r, g, b),
                    _ => Color::standard_color_approximate(r, g, b),
                },
            );
        } else {
            votes[k as usize] = None;
        }
        k = k + 1;
    }
    let cell = if use_alpha_channel {
        Cell::new(bits)
    } else {
        Cell::full()
    };
    let color = match color_mode {
        ColorMode::Monochrome => None,
        _ => {
            assert(votes@ =~= Seq::new(
                8,
                |k: int|
                    pixel_vote(
                        rgba@,
                        width as int,
                        cx as int,
                        cy as int,
                        k,
                        color_mode,
                        use_alpha_channel,
                    ),
            ));
            count_winner(&votes)
        },
    };
    ColoredCell::new(cell, color)
}

impl Sprite {
    /// Makes a sprite of an image of `width` by `height` pixels, given as RGBA
    /// values, after the image has been enlarged `scale` times with
    /// nearest-neighbor sampling. `color_mode` says which colors the cells
    /// get, and `use_alpha_channel` whether the alpha channel decides which
    /// pixels are set. See [`Sprite::from_pixels`] for what is made of the
    /// enlarged image.
    pub fn from_image_data(
        rgba: &[u8],
        width: u32,
        height: u32,
        color_mode: ColorMode,
        scale: u16,
        use_alpha_channel: bool,
        priority: u16,
    ) -> (r: Self)
        requires
            rgba@.len() == 4 * width * height,
            width * scale <= 0xffff,
            height * scale <= 0xffff,
            32 * (width * scale) * (height * scale) <= usize::MAX,
        ensures
            r.wf(),
            r@ == SpriteView::of_cells(
                image_cells(
                    nearest_resized(
                        rgba@,
                        width,
                        height,
                        (width * scale) as u32,
                        (height * scale) as u32,
                    ),
                    width * scale,
                    height * scale,
                    color_mode,
                    use_alpha_channel,
                ),
                (width * scale) / 2,
                (height * scale) / 4,
                priority,
            ),
    {
        let new_width: u32 = width * scale as u32;
        let new_height: u32 = height * scale as u32;
        proof {
            assert(32 * width * new_height <= 32 * new_width * new_height && (new_width > 0
                && new_height > 0 ==> width > 0 && height > 0)) by (nonlinear_arith)
                requires
                    new_width == width * scale,
                    new_height == height * scale,
                    0 <= width,
                    0 <= height,
                    0 <= scale,
            ;
            assert(32 * new_width * new_height == 32 * (width * scale) * (height * scale))
                by (nonlinear_arith)
                requires
                    new_width == width * scale,
                    new_height == height * scale,
            ;
        }
        let resized = resize_nearest(rgba, width, height, new_width, new_height);
        Self::from_pixels(
            resized.as_slice(),
            new_width as u16,
            new_height as u16,
            color_mode,
            use_alpha_channel,
            priority,
        )
    }

    /// Makes a sprite of an image of `width_px` by `height_px` pixels, given
    /// as RGBA values. There is one cell for every whole block of 2 by 4
    /// pixels. With `use_alpha_channel` the pixels that are set are the opaque
    /// ones, those whose alpha is above 128, and only they vote for the color
    /// of their cell; without it every pixel is set and votes. A cell gets the
    /// color that most of its pixels vote for, and the one with the highest
    /// palette number of several such colors.
    pub fn from_pixels(
        rgba: &[u8],
        width_px: u16,
        height_px: u16,
        color_mode: ColorMode,
        use_alpha_channel: bool,
        priority: u16,
    ) -> (r: Self)
        requires
            rgba@.len() == 4 * width_px * height_px,
        ensures
            r.wf(),
            r@ == SpriteView::of_cells(
                image_cells(
                    rgba@,
                    width_px as int,
                    height_px as int,
                    color_mode,
                    use_alpha_channel,
                ),
                width_px as int / 2,
                height_px as int / 4,
                priority,
            ),
    {
        let width_cells: u16 = width_px / 2;
        let height_cells: u16 = height_px / 4;
        let ghost cells = image_cells(
            rgba@,
            width_px as int,
            height_px as int,
            color_mode,
            use_alpha_channel,
        );
        let mut data = data_new();
        let mut y: u16 = 0;
        while y < height_cells
            invariant
                y <= height_cells,
                width_cells == width_px / 2,
                height_cells == height_px / 4,
                rgba@.len() == 4 * width_px * height_px,
                cells == image_cells(
                    rgba@,
                    width_px as int,
                    height_px as int,
                    color_mode,
                    use_alpha_channel,
                ),
                data@ == cells.take(y * width_cells),
            decreases height_cells - y,
        {
            let mut x: u16 = 0;
            while x < width_cells
                invariant
                    y < height_cells,
                    x <= width_cells,
                    width_cells == width_px / 2,
                    height_cells == height_px / 4,
                    rgba@.len() == 4 * width_px * height_px,
                    cells == image_cells(
                        rgba@,
                        width_px as int,
                        height_px as int,
                        color_mode,
                        use_alpha_channel,
                    ),
                    data@ == cells.take(y * width_cells + x),
                decreases width_cells - x,
            {
                let cell = cell_of_block(
                    rgba,
                    width_px,
                    height_px,
                    x,
                    y,
                    color_mode,
                    use_alpha_channel,
                );
                proof {
                    lemma_index_in_grid(x as int, y as int, width_cells as int, height_cells as int);
                    lemma_index_parts(x as int, y as int, width_cells as int);
                    let i = y * width_cells + x;
                    assert(cells[i] == cell);
                    assert(cells.take(i + 1) =~= cells.take(i).push(cells[i]));
                }
                data_push(&mut data, cell);
                x = x + 1;
            }
            proof {
                assert((y + 1) * width_cells == y * width_cells + width_cells)
                    by (nonlinear_arith);
            }
            y = y + 1;
        }
        proof {
            assert(cells.take(height_cells * width_cells) =~= cells) by {
                assert(height_cells * width_cells == width_cells * height_cells)
                    by (nonlinear_arith);
            }
        }
        Self::new(data, width_cells, height_cells, priority)
    }
}

/// With the alpha channel in use, the pixels of a cell of an image's sprite
/// are the opaque pixels of its block of the image.
pub proof fn lemma_image_cell_pixels(
    rgba: Seq<u8>,
    width: int,
    cx: int,
    cy: int,
    color_mode: ColorMode,
    px: u8,
    py: u8,
)
    requires
        px < 2,
        py < 4,
    ensures
        image_cell(rgba, width, cx, cy, color_mode, true).cell.pixel(px, py) == is_opaque(
            rgba,
            width,
            2 * cx + px,
            4 * cy + py,
        ),
        image_cell(rgba, width, cx, cy, color_mode, false).cell.pixel(px, py),
{
    let i: u8 = (2 * py + px) as u8;
    lemma_opaque_bits(rgba, width, cx, cy, 8, i);
    assert(i < 8 ==> bit_is_set(0xffu8, i)) by (bit_vector);
}

/// Bit `i` of the pixels that the first `n` pixels of a block give is set
/// where pixel `i` is among them and opaque.
proof fn lemma_opaque_bits(rgba: Seq<u8>, width: int, cx: int, cy: int, n: int, i: u8)
    requires
        0 <= n <= 8,
        i < 8,
    ensures
        bit_is_set(opaque_bits_among(rgba, width, cx, cy, n), i) == (i < n && is_opaque(
            rgba,
            width,
            2 * cx + i % 2,
            4 * cy + i / 2,
        )),
    decreases n,
{
    if n > 0 {
        lemma_opaque_bits(rgba, width, cx, cy, n - 1, i);
        let a: u8 = opaque_bits_among(rgba, width, cx, cy, n - 1);
        let m: u8 = (n - 1) as u8;
        assert(m < 8 && i < 8 ==> (bit_is_set(a | (1u8 << m), i) == (bit_is_set(a, i) || i == m))
            && bit_is_set(a | 0u8, i) == bit_is_set(a, i)) by (bit_vector);
    } else {
        assert(i < 8 ==> !bit_is_set(0u8, i)) by (bit_vector);
    }
}

/// No color has a negative number of votes.
proof fn lemma_votes_not_negative(votes: Seq<Option<Color>>, color: Color, n: int)
    ensures
        votes_among(votes, color, n) >= 0,
    decreases n,
{
    if n > 0 {
        lemma_votes_not_negative(votes, color, n - 1);
    }
}

/// The winner among the colors below `n` has a vote, no color below `n` has
/// more votes, and those with as many have a lower palette number or are the
/// winner; where there is no winner, no color below `n` has a vote.
pub proof fn lemma_winner_has_most_votes(votes: Seq<Option<Color>>, n: int, color: Color)
    requires
        0 <= n <= 256,
        color.0 < n,
    ensures
        match winner_among(votes, n) {
            Some(w) => w.0 < n && votes_for(votes, w) > 0 && votes_for(votes, color) <= votes_for(
                votes,
                w,
            ) && (votes_for(votes, color) == votes_for(votes, w) ==> color.0 <= w.0),
            None => votes_for(votes, color) == 0,
        },
    decreases n,
{
    lemma_votes_not_negative(votes, color, votes.len() as int);
    if n > 1 && color.0 < n - 1 {
        lemma_winner_has_most_votes(votes, n - 1, color);
    }
    lemma_winner_in_range(votes, n - 1);
    lemma_winner_in_range(votes, n);
    let candidate = Color((n - 1) as u8);
    lemma_votes_not_negative(votes, candidate, votes.len() as int);
    if color.0 == n - 1 {
        assert(candidate == color);
    }
}

/// A winner among the colors below `n` is one of them and has a vote.
proof fn lemma_winner_in_range(votes: Seq<Option<Color>>, n: int)
    requires
        0 <= n <= 256,
    ensures
        match winner_among(votes, n) {
            Some(w) => w.0 < n && votes_for(votes, w) > 0,
            None => true,
        },
    decreases n,
{
    if n > 0 {
        lemma_winner_in_range(votes, n - 1);
    }
}

} // verus!
