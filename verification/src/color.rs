//! ANSI terminal colors, and cells that carry one.
use crate::cell::Cell;
use vstd::prelude::*;

pub mod standard;

verus! {

/// An index into the ANSI 256-color palette: 0 to 15 are the standard and
/// bright named colors, 16 to 231 a 6x6x6 RGB cube, 232 to 255 a greyscale ramp
/// of 24 steps.
#[derive(Debug, Clone, Copy, Default, PartialEq, Eq, PartialOrd, Ord, Structural)]
pub struct Color(pub u8);

/// Options for drawing color.
pub struct ColorFlags {
    /// When `true`, color is applied when the cell is drawn, even if the cell is empty.
    ///
    /// Otherwise, color is only applied to nonempty cells.
    pub apply_on_empty: bool,
}

/// A [`Cell`] with associated [`Color`] data. No color means that drawing the
/// cell sets no foreground color.
#[derive(Clone, Copy, PartialEq, Eq, Debug, Default, Structural)]
pub struct ColoredCell {
    pub cell: Cell,
    pub color: Option<Color>,
}

/// The six values that a component of the RGB cube takes.
pub open spec fn rgb_scale() -> Seq<u8> {
    seq![0u8, 95u8, 135u8, 175u8, 215u8, 255u8]
}

/// The 24 values of the greyscale ramp: step `i` is `10 * i + 8`.
pub open spec fn grey_scale() -> Seq<u8> {
    Seq::new(24, |i: int| (10 * i + 8) as u8)
}

/// The distance between two values of one channel.
pub open spec fn gap(a: u8, b: u8) -> int {
    if a >= b {
        a - b
    } else {
        b - a
    }
}

/// The index of the value among the first `n` of `scale` that is nearest to
/// `target`; of two that are equally near, the later one.
pub open spec fn nearest_among(scale: Seq<u8>, target: u8, n: int) -> int
    decreases n,
{
    if n <= 1 {
        0
    } else {
        let before = nearest_among(scale, target, n - 1);
        if gap(scale[n - 1], target) <= gap(scale[before], target) {
            n - 1
        } else {
            before
        }
    }
}

/// The index of the value of `scale` that is nearest to `target`; of two that
/// are equally near, the later one.
pub open spec fn nearest(scale: Seq<u8>, target: u8) -> int {
    nearest_among(scale, target, scale.len() as int)
}

/// The cube of the distance between two triplets, in the metric that colors
/// are compared by: the sum of the cubed channel distances. Its cube root
/// orders triplets as it does.
pub open spec fn cubed_distance(a: (u8, u8, u8), b: (u8, u8, u8)) -> int {
    gap(a.0, b.0) * gap(a.0, b.0) * gap(a.0, b.0) + gap(a.1, b.1) * gap(a.1, b.1) * gap(a.1, b.1)
        + gap(a.2, b.2) * gap(a.2, b.2) * gap(a.2, b.2)
}

/// The approximate RGB triplet of a standard or bright color (0 to 15).
pub open spec fn standard_rgb(index: u8) -> (u8, u8, u8) {
    if index == 7 {
        (192, 192, 192)
    } else if index == 8 {
        (128, 128, 128)
    } else {
        let level: u8 = if index < 8 {
            128
        } else {
            255
        };
        (
            if index % 2 == 1 {
                level
            } else {
                0
            },
            if (index / 2) % 2 == 1 {
                level
            } else {
                0
            },
            if (index / 4) % 2 == 1 {
                level
            } else {
                0
            },
        )
    }
}

/// The approximate RGB triplet of an ANSI color.
pub open spec fn rgb_of(index: u8) -> (u8, u8, u8) {
    if index < 16 {
        standard_rgb(index)
    } else if index < 232 {
        (
            rgb_scale()[((index - 16) / 36) % 6],
            rgb_scale()[((index - 16) / 6) % 6],
            rgb_scale()[(index - 16) % 6],
        )
    } else {
        (grey_scale()[index - 232], grey_scale()[index - 232], grey_scale()[index - 232])
    }
}

/// The color of the RGB cube with the given components, each clipped to 5.
pub open spec fn cube_color(r: u8, g: u8, b: u8) -> Color {
    Color(
        ((if r < 5 {
            r
        } else {
            5
        }) * 36 + (if g < 5 {
            g
        } else {
            5
        }) * 6 + (if b < 5 {
            b
        } else {
            5
        }) + 16) as u8,
    )
}

/// The color of the greyscale ramp at the given step, clipped to 23.
pub open spec fn grey_color(step: u8) -> Color {
    Color(
        (232 + (if step < 23 {
            step
        } else {
            23
        })) as u8,
    )
}

/// The color of the RGB cube whose components are each nearest to those of the
/// triplet.
pub open spec fn nearest_cube_color(r: u8, g: u8, b: u8) -> Color {
    cube_color(
        nearest(rgb_scale(), r) as u8,
        nearest(rgb_scale(), g) as u8,
        nearest(rgb_scale(), b) as u8,
    )
}

/// The color of the greyscale ramp that is nearest to the triplet's average.
pub open spec fn nearest_grey_color(r: u8, g: u8, b: u8) -> Color {
    grey_color(nearest(grey_scale(), ((r + g + b) / 3) as u8) as u8)
}

/// The ANSI color that approximates an RGB triplet: the nearer of the nearest
/// cube color and the nearest grey, the cube color when both are equally near.
pub open spec fn approximate(r: u8, g: u8, b: u8) -> Color {
    if cubed_distance(rgb_of(nearest_cube_color(r, g, b).0), (r, g, b)) > cubed_distance(
        rgb_of(nearest_grey_color(r, g, b).0),
        (r, g, b),
    ) {
        nearest_grey_color(r, g, b)
    } else {
        nearest_cube_color(r, g, b)
    }
}

/// The first of the standard colors below `n` that is nearest to the triplet.
pub open spec fn nearest_standard_among(rgb: (u8, u8, u8), n: int) -> int
    decreases n,
{
    if n <= 1 {
        0
    } else {
        let before = nearest_standard_among(rgb, n - 1);
        if cubed_distance(rgb_of((n - 1) as u8), rgb) < cubed_distance(rgb_of(before as u8), rgb) {
            n - 1
        } else {
            before
        }
    }
}

/// The standard color that approximates an RGB triplet: the first of the 16
/// that is nearest to it.
pub open spec fn nearest_standard(r: u8, g: u8, b: u8) -> Color {
    Color(nearest_standard_among((r, g, b), 16) as u8)
}

/// Whether `index` is the first of the 16 standard colors that is nearest to
/// the triplet.
pub open spec fn is_nearest_standard(index: u8, rgb: (u8, u8, u8)) -> bool {
    &&& index < 16
    &&& forall|j: u8|
        j < 16 ==> cubed_distance(rgb_of(index), rgb) <= #[trigger] cubed_distance(rgb_of(j), rgb)
    &&& forall|j: u8|
        j < index ==> cubed_distance(rgb_of(index), rgb) < #[trigger] cubed_distance(
            rgb_of(j),
            rgb,
        )
}

/// One value of the RGB scale.
fn rgb_level(index: u8) -> (r: u8)
    requires
        index < 6,
    ensures
        r == rgb_scale()[index as int],
{
    if index == 0 {
        0
    } else if index == 1 {
        95
    } else if index == 2 {
        135
    } else if index == 3 {
        175
    } else if index == 4 {
        215
    } else {
        255
    }
}

/// The cube of the distance between two values of one channel.
fn cubed_gap(a: u8, b: u8) -> (r: u32)
    ensures
        r == gap(a, b) * gap(a, b) * gap(a, b),
        r <= 16581375,
{
    let d: u32 = if a >= b {
        (a - b) as u32
    } else {
        (b - a) as u32
    };
    assert(d * d <= 65025 && d * d * d <= 16581375) by (nonlinear_arith)
        requires
            d <= 255,
    ;
    d * d * d
}

/// The cubed distance from a triplet to another.
fn dist(a: (u8, u8, u8), b: (u8, u8, u8)) -> (r: u32)
    ensures
        r == cubed_distance(a, b),
{
    cubed_gap(a.0, b.0) + cubed_gap(a.1, b.1) + cubed_gap(a.2, b.2)
}

/// Picks the value of the scale that is closest to the target, and returns
/// its index.
fn interpolate_component(scale: &[u8], target: u8) -> (r: u8)
    requires
        0 < scale@.len() <= 256,
    ensures
        r == nearest(scale@, target),
        r < scale@.len(),
{
    let mut best: usize = 0;
    let mut i: usize = 1;
    while i < scale.len()
        invariant
            1 <= i <= scale@.len() <= 256,
            best < i,
            best == nearest_among(scale@, target, i as int),
        decreases scale@.len() - i,
    {
        let here: u8 = scale[i];
        let there: u8 = scale[best];
        let d_here: u8 = if here >= target {
            here - target
        } else {
            target - here
        };
        let d_there: u8 = if there >= target {
            there - target
        } else {
            target - there
        };
        if d_here <= d_there {
            best = i;
        }
        i = i + 1;
    }
    best as u8
}

impl Color {
    /// Creates a new color from an 8-bit ANSI color value.
    pub fn new(color: u8) -> (r: Self)
        ensures
            r.0 == color,
    {
        Self(color)
    }

    /// Returns an ANSI color that is visually similar to the specified RGB
    /// value. There are only 256 ANSI colors, so this is not exact.
    ///
    /// * Find the color of the RGB cube that is componentwise closest to the
    ///   triplet, each component going to the larger value on a tie.
    /// * Find the greyscale value that is closest to the average of the
    ///   components.
    /// * Pick the one of these two that is closer to the input, by the sum of
    ///   the cubed differences of the components, and the cube color on a tie.
    pub fn from_rgb_approximate(r: u8, g: u8, b: u8) -> (c: Self)
        ensures
            c == approximate(r, g, b),
    {
        let rgb: [u8; 6] = [0, 95, 135, 175, 215, 255];
        let grey: [u8; 24] = [
            8,
            18,
            28,
            38,
            48,
            58,
            68,
            78,
            88,
            98,
            108,
            118,
            128,
            138,
            148,
            158,
            168,
            178,
            188,
            198,
            208,
            218,
            228,
            238,
        ];
        assert(rgb@ =~= rgb_scale());
        assert(grey@ =~= grey_scale());
        let components = Self::from_ansi_components(
            interpolate_component(rgb.as_slice(), r),
            interpolate_component(rgb.as_slice(), g),
            interpolate_component(rgb.as_slice(), b),
        );
        let average: u8 = ((r as u16 + g as u16 + b as u16) / 3) as u8;
        let greyscale = Self::from_ansi_greyscale(interpolate_component(grey.as_slice(), average));
        let components_rgb = components.to_rgb_approximate();
        let greyscale_rgb = greyscale.to_rgb_approximate();
        if dist(components_rgb, (r, g, b)) > dist(greyscale_rgb, (r, g, b)) {
            greyscale
        } else {
            components
        }
    }

    /// Returns the standard color that is closest to the given RGB triplet, by
    /// the sum of the cubed differences of the components; of several that are
    /// equally close, the one with the lowest number. The standard colors are
    /// taken as triplets of 0, 128 and 255, except for white, which is
    /// (192, 192, 192).
    pub fn standard_color_approximate(r: u8, g: u8, b: u8) -> (c: Self)
        ensures
            c == nearest_standard(r, g, b),
            is_nearest_standard(c.0, (r, g, b)),
    {
        let mut best: u8 = 0;
        let mut best_dist: u32 = dist(Color(0).to_rgb_approximate(), (r, g, b));
        let mut i: u8 = 1;
        while i < 16
            invariant
                1 <= i <= 16,
                best < i,
                best == nearest_standard_among((r, g, b), i as int),
                best_dist == cubed_distance(rgb_of(best), (r, g, b)),
                forall|j: u8|
                    j < i ==> best_dist <= #[trigger] cubed_distance(rgb_of(j), (r, g, b)),
                forall|j: u8|
                    j < best ==> best_dist < #[trigger] cubed_distance(rgb_of(j), (r, g, b)),
            decreases 16 - i,
        {
            let d: u32 = dist(Color(i).to_rgb_approximate(), (r, g, b));
            if d < best_dist {
                best = i;
                best_dist = d;
            }
            i = i + 1;
        }
        Color(best)
    }

    /// Returns a new color with the specified red, green and blue components.
    /// Each component may span from 0 to 5 (inclusive); higher values are
    /// clipped to 5.
    pub fn from_ansi_components(r: u8, g: u8, b: u8) -> (c: Self)
        ensures
            c == cube_color(r, g, b),
            16 <= c.0 <= 231,
    {
        let r: u8 = if r < 5 {
            r
        } else {
            5
        };
        let g: u8 = if g < 5 {
            g
        } else {
            5
        };
        let b: u8 = if b < 5 {
            b
        } else {
            5
        };
        Self(r * 36 + g * 6 + b + 16)
    }

    /// Returns a new color with the specified greyscale value, from 0 to 23
    /// (inclusive), on a scale from black to white; higher values are clipped
    /// to 23.
    pub fn from_ansi_greyscale(step: u8) -> (c: Self)
        ensures
            c == grey_color(step),
            232 <= c.0,
    {
        let step: u8 = if step < 23 {
            step
        } else {
            23
        };
        Self(232 + step)
    }

    /// Returns the approximate RGB color associated with this ANSI color.
    /// Terminals may theme the colors differently, the standard ones above all.
    pub fn to_rgb_approximate(self) -> (rgb: (u8, u8, u8))
        ensures
            rgb == rgb_of(self.0),
    {
        let index: u8 = self.0;
        if index < 16 {
            if index == 7 {
                (192, 192, 192)
            } else if index == 8 {
                (128, 128, 128)
            } else {
                let level: u8 = if index < 8 {
                    128
                } else {
                    255
                };
                let r: u8 = if index % 2 == 1 {
                    level
                } else {
                    0
                };
                let g: u8 = if (index / 2) % 2 == 1 {
                    level
                } else {
                    0
                };
                let b: u8 = if (index / 4) % 2 == 1 {
                    level
                } else {
                    0
                };
                (r, g, b)
            }
        } else if index < 232 {
            let offset: u8 = index - 16;
            (rgb_level((offset / 36) % 6), rgb_level((offset / 6) % 6), rgb_level(offset % 6))
        } else {
            let step: u8 = index - 232;
            let level: u8 = step * 10 + 8;
            (level, level, level)
        }
    }
}

impl ColoredCell {
    /// Creates a new [`ColoredCell`] from its parts.
    pub fn new(cell: Cell, color: Option<Color>) -> (r: Self)
        ensures
            r.cell == cell,
            r.color == color,
    {
        Self { cell, color }
    }

    /// Merges a colored piece into this cell: the pixels are combined with a
    /// bitwise OR, and the color is that of the piece.
    pub fn merge_cell(&mut self, cell: Cell, color: Option<Color>)
        ensures
            final(self).cell.bits == old(self).cell.bits | cell.bits,
            final(self).color == color,
    {
        self.cell = Cell::new(self.cell.bits | cell.bits);
        self.color = color;
    }
}

/// The nearest value of a scale is in the scale, no value is nearer to the
/// target, and every later value is farther from it.
pub proof fn lemma_nearest_is_nearest(scale: Seq<u8>, target: u8, n: int)
    requires
        1 <= n <= scale.len(),
    ensures
        0 <= nearest_among(scale, target, n) < n,
        forall|j: int|
            0 <= j < n ==> gap(scale[nearest_among(scale, target, n)], target) <= gap(
                #[trigger] scale[j],
                target,
            ),
        forall|j: int|
            nearest_among(scale, target, n) < j < n ==> gap(
                scale[nearest_among(scale, target, n)],
                target,
            ) < gap(#[trigger] scale[j], target),
    decreases n,
{
    if n > 1 {
        lemma_nearest_is_nearest(scale, target, n - 1);
    }
}

/// A color of the RGB cube has the scale values of its components as its
/// triplet, and a color of the greyscale ramp has `10 * step + 8` three times.
pub proof fn lemma_color_round_trip(r: u8, g: u8, b: u8, step: u8)
    requires
        r <= 5,
        g <= 5,
        b <= 5,
        step <= 23,
    ensures
        rgb_of(cube_color(r, g, b).0) == (
            rgb_scale()[r as int],
            rgb_scale()[g as int],
            rgb_scale()[b as int],
        ),
        rgb_of(grey_color(step).0) == (
            (10 * step + 8) as u8,
            (10 * step + 8) as u8,
            (10 * step + 8) as u8,
        ),
{
}

/// The greyscale ramp gets strictly lighter with every step.
pub proof fn lemma_greyscale_increasing(low: u8, high: u8)
    requires
        low < high <= 23,
    ensures
        rgb_of(grey_color(low).0).0 < rgb_of(grey_color(high).0).0,
{
}

} // verus!
