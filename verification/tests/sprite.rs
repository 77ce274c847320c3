use ti::cell::Cell;
use ti::color::{Color, ColoredCell};
use ti::screen::{Blit, Screen};
use ti::sprite::images::ColorMode;
use ti::sprite::{Sprite, SpriteData};

fn cells_of(data: &SpriteData) -> Vec<ColoredCell> {
    (0..data.len()).map(|i| data.get(i).unwrap()).collect()
}

fn bits_of(data: &SpriteData) -> Vec<u8> {
    cells_of(data).iter().map(|c| c.cell.bits).collect()
}

#[test]
fn draw_unaliged_cell() {
    let mut screen = Screen::new_cells(2, 2);
    let sprite = Sprite::from_braille_string(&["⣿"], None, 0).unwrap();
    screen.draw_sprite(&sprite, 0, 0, Blit::Put);
    // unicode escapes used because many editors don't like blank characters
    assert_eq!(screen.rasterize(), "⣿\u{2800}\n\u{2800}\u{2800}\n");
    screen.clear();
    screen.draw_sprite(&sprite, 1, 1, Blit::Put);
    assert_eq!(screen.rasterize(), "⢰⡆\n⠈⠁\n");
    screen.clear();
    screen.draw_sprite(&sprite, 2, 2, Blit::Put);
    assert_eq!(screen.rasterize(), "\u{2800}⣤\n\u{2800}⠛\n");
}

#[test]
fn toggle_unaligned_cell() {
    let mut screen = Screen::new_cells(2, 2);
    let sprite = Sprite::from_braille_string(&["⣿"], None, 0).unwrap();
    screen.draw_sprite(&sprite, 0, 0, Blit::Put);
    screen.draw_sprite(&sprite, 1, 1, Blit::Toggle);
    assert_eq!(screen.rasterize(), "⡏⡆\n⠈⠁\n");
}

#[test]
fn draw_monochrome_sprite() {
    let mut screen = Screen::new_cells(3, 2);
    let s = &["⢰⣶⡆", "⠸⠿⠇"];
    let sprite = Sprite::from_braille_string(s, None, 0).unwrap();
    screen.draw_sprite(&sprite, 0, 0, Blit::Put);
    assert_eq!(screen.rasterize(), "⢰⣶⡆\n⠸⠿⠇\n");
    screen.draw_sprite(&sprite, 1, 1, Blit::Toggle);
    assert_eq!(screen.rasterize(), "⢰⠒⢢\n⠸⣀⣸\n");
    screen.draw_sprite(&sprite, 2, 4, Blit::Unset);
}

#[test]
fn from_braille_string_sizes() {
    let sprite = Sprite::from_braille_string(&["⢰⣶⡆", "⠸⠿⠇"], Some(Color::new(9)), 4).unwrap();
    assert_eq!(sprite.default_width(), 3);
    assert_eq!(sprite.default_height(), 2);
    assert_eq!(sprite.priority, 4);
    assert_eq!(sprite.priority(), 4);
    assert_eq!(sprite.offset_size(0), (3, 2));
    assert_eq!(sprite.offset_size(1), (4, 2));
    assert_eq!(sprite.offset_size(2), (3, 3));
    assert_eq!(sprite.offset_size(7), (4, 3));
    for offset in 0..8u8 {
        let (w, h) = sprite.offset_size(offset);
        assert_eq!(sprite.offsets[offset as usize].len(), w as usize * h as usize);
        assert_eq!(sprite.grid(offset).len(), w as usize * h as usize);
    }
    assert_eq!(sprite.index(2, 1, 0), 5);
    assert_eq!(sprite.index(2, 1, 1), 6);
    assert_eq!(sprite.index(2, 1, 2), 5);
    assert_eq!(sprite.from_index(5, 0), (2, 1));
    assert_eq!(sprite.from_index(5, 1), (1, 1));
    let base = cells_of(&sprite.offsets[0]);
    let expected: Vec<ColoredCell> = "⢰⣶⡆⠸⠿⠇"
        .chars()
        .map(|c| ColoredCell::new(Cell::from_braille(c).unwrap(), Some(Color::new(9))))
        .collect();
    assert_eq!(base, expected);
}

#[test]
fn from_braille_string_rejects_malformed_rows() {
    assert!(Sprite::from_braille_string(&["⣿⣿", "⣿"], None, 0).is_none());
    assert!(Sprite::from_braille_string(&["⣿", "⣿⣿"], None, 0).is_none());
    assert!(Sprite::from_braille_string(&["⣿a"], None, 0).is_none());
    assert!(Sprite::from_braille_string(&["abc"], None, 0).is_none());
    assert!(Sprite::from_braille_string(&["⣿", "abc"], None, 0).is_none());
    assert!(Sprite::from_braille_string(&["a"], None, 0).is_none());
    assert!(Sprite::from_braille_string(&["€"], None, 0).is_none());
}

#[test]
fn from_braille_string_without_cells() {
    let none: [&str; 0] = [];
    let sprite = Sprite::from_braille_string(&none, None, 3).unwrap();
    assert_eq!(sprite.offset_size(0), (0, 0));
    assert_eq!(sprite.offsets[0].len(), 0);
    assert_eq!(sprite.offsets[3].len(), 1);
    let sprite = Sprite::from_braille_string(&["", ""], None, 3).unwrap();
    assert_eq!(sprite.offset_size(0), (0, 0));
    assert_eq!(sprite.priority, 3);
}

#[test]
fn empty_sprite_has_grids_of_their_own_size() {
    let sprite = Sprite::empty(2, 3, 1);
    let sizes: Vec<usize> = sprite.offsets.iter().map(|g| g.len()).collect();
    assert_eq!(sizes, vec![6, 9, 8, 12, 8, 12, 8, 12]);
    for grid in sprite.offsets.iter() {
        assert!(cells_of(grid).iter().all(|c| *c == ColoredCell::default()));
    }
    let mut screen = Screen::new_cells(1, 1);
    assert!(screen.draw_sprite(&sprite, 5, 5, Blit::Put));
    assert_eq!(screen.rasterize(), "\u{2800}\n");
}

#[test]
fn new_splits_every_cell_over_its_neighbors() {
    let red = Some(Color::new(1));
    let blue = Some(Color::new(4));
    let data = SpriteData::from_cells(&vec![
        ColoredCell::new(Cell::new(0xff), red),
        ColoredCell::new(Cell::new(0x01), blue),
    ]);
    assert_eq!(data.len(), 2);
    assert_eq!(data.get(1), Some(ColoredCell::new(Cell::new(0x01), blue)));
    assert_eq!(data.get(2), None);
    let sprite = Sprite::new(data, 2, 1, 0);
    assert_eq!(bits_of(&sprite.offsets[0]), vec![0xff, 0x01]);
    // One pixel right: width 3.
    assert_eq!(bits_of(&sprite.offsets[1]), vec![0xaa, 0x55 | 0x02, 0x00]);
    // One pixel down: height 2.
    assert_eq!(bits_of(&sprite.offsets[2]), vec![0xfc, 0x04, 0x03, 0x00]);
    // One right and one down.
    assert_eq!(
        bits_of(&sprite.offsets[3]),
        vec![0xa8, 0x54 | 0x08, 0x00, 0x02, 0x01, 0x00]
    );
    // Three down.
    assert_eq!(bits_of(&sprite.offsets[6]), vec![0xc0, 0x40, 0x3f, 0x00]);
    // The color of a cell is that of the last cell merged into it.
    let colors: Vec<Option<Color>> = cells_of(&sprite.offsets[1]).iter().map(|c| c.color).collect();
    assert_eq!(colors, vec![red, blue, blue]);
    let colors: Vec<Option<Color>> = cells_of(&sprite.offsets[3]).iter().map(|c| c.color).collect();
    assert_eq!(colors, vec![red, blue, blue, red, blue, blue]);
}

#[test]
fn every_offset_draws_the_same_pixels() {
    let sprite = Sprite::from_braille_string(&["⢌⣈", "⡱⠶"], None, 0).unwrap();
    let mut reference = Screen::new_cells(2, 2);
    reference.draw_sprite(&sprite, 0, 0, Blit::Put);
    for dy in 0..8u16 {
        for dx in 0..4u16 {
            let mut screen = Screen::new_cells(4, 4);
            assert!(screen.draw_sprite(&sprite, dx, dy, Blit::Put));
            for y in 0..16u16 {
                for x in 0..8u16 {
                    let expected = x >= dx
                        && y >= dy
                        && x - dx < 4
                        && y - dy < 8
                        && reference.get_pixel(x - dx, y - dy) == Some(true);
                    assert_eq!(screen.get_pixel(x, y), Some(expected));
                }
            }
        }
    }
}

#[test]
fn sprite_colors_go_by_priority() {
    let low = Sprite::from_braille_string(&["⣿"], Some(Color::new(2)), 1).unwrap();
    let high = Sprite::from_braille_string(&["⣿"], Some(Color::new(5)), 8).unwrap();
    let mut first = Screen::new_cells(2, 1);
    assert!(first.draw_sprite(&low, 0, 0, Blit::Put));
    assert!(first.draw_sprite(&high, 0, 0, Blit::Put));
    let mut second = Screen::new_cells(2, 1);
    assert!(second.draw_sprite(&high, 0, 0, Blit::Put));
    assert!(second.draw_sprite(&low, 0, 0, Blit::Put));
    assert_eq!(first.get_color(0, 0), Some(Color::new(5)));
    assert_eq!(second.get_color(0, 0), Some(Color::new(5)));
    assert_eq!(first.get_color(1, 0), None);

    // Overlap in one neighbor cell only.
    let mut third = Screen::new_cells(2, 1);
    assert!(third.draw_sprite(&high, 1, 0, Blit::Add));
    assert!(third.draw_sprite(&low, 2, 0, Blit::Add));
    assert_eq!(third.get_color(0, 0), Some(Color::new(5)));
    assert_eq!(third.get_color(1, 0), Some(Color::new(5)));
    assert_eq!(third.rasterize(), "⢸⣿\n");
}

#[test]
fn sprite_over_the_edge_is_drawn_where_it_fits() {
    let sprite = Sprite::from_braille_string(&["⣿⣿", "⣿⣿"], Some(Color::new(3)), 0).unwrap();
    let mut screen = Screen::new_cells(2, 2);
    assert!(!screen.draw_sprite(&sprite, 2, 4, Blit::Put));
    assert_eq!(screen.rasterize(), "\u{2800}\u{2800}\n\u{2800}⣿\n");
    assert_eq!(screen.get_color(1, 1), Some(Color::new(3)));
    assert_eq!(screen.get_color(0, 0), None);

    let mut screen = Screen::new_cells(2, 2);
    assert!(!screen.draw_sprite(&sprite, 3, 5, Blit::Put));
    assert_eq!(screen.rasterize(), "\u{2800}\u{2800}\n\u{2800}⢰\n");

    let mut screen = Screen::new_cells(2, 2);
    assert!(!screen.draw_sprite(&sprite, 65535, 65535, Blit::Put));
    assert!(!screen.draw_sprite(&sprite, 4, 0, Blit::Put));
    assert_eq!(screen.rasterize(), "\u{2800}\u{2800}\n\u{2800}\u{2800}\n");

    // Empty cells of a sprite fall outside without harm.
    let sparse = Sprite::from_braille_string(&["⣿\u{2800}"], None, 0).unwrap();
    let mut screen = Screen::new_cells(1, 1);
    assert!(screen.draw_sprite(&sparse, 0, 0, Blit::Put));
    assert_eq!(screen.rasterize(), "⣿\n");
}

#[test]
fn empty_cells_of_a_sprite_are_transparent() {
    let mut screen = Screen::new_cells(2, 1);
    screen.draw_cell(Cell::new(0x0f), 0, 0, Blit::Put, 0);
    screen.draw_cell(Cell::new(0xf0), 1, 0, Blit::Put, 0);
    let sprite = Sprite::from_braille_string(&["\u{2800}⣿"], Some(Color::new(6)), 0).unwrap();
    assert!(screen.draw_sprite(&sprite, 0, 0, Blit::Put));
    assert_eq!(screen.get_cell(0, 0), Some(Cell::new(0x0f)));
    assert_eq!(screen.get_cell(1, 0), Some(Cell::new(0xff)));
    assert_eq!(screen.get_color(0, 0), None);
    assert_eq!(screen.get_color(1, 0), Some(Color::new(6)));
}

#[test]
fn recolor_keeps_the_pixels() {
    let sprite = Sprite::from_braille_string(&["⢌⣈", "⡱⠶"], Some(Color::new(1)), 6).unwrap();
    let grey = sprite.recolor(|c| if c.cell.bits % 2 == 0 { Some(Color::new(240)) } else { None });
    assert_eq!(grey.priority, 6);
    assert_eq!(grey.offset_size(0), (2, 2));
    let before = cells_of(&sprite.offsets[0]);
    let after = cells_of(&grey.offsets[0]);
    assert_eq!(after.len(), 4);
    for (b, a) in before.iter().zip(after.iter()) {
        assert_eq!(a.cell, b.cell);
        assert_eq!(a.color, if b.cell.bits % 2 == 0 { Some(Color::new(240)) } else { None });
    }
    for k in 1..8 {
        assert_eq!(bits_of(&grey.offsets[k]), bits_of(&sprite.offsets[k]));
    }
    let copy = sprite.clone();
    assert_eq!(cells_of(&copy.offsets[5]), cells_of(&sprite.offsets[5]));
}

#[test]
fn rectangle_is_cut_at_its_pixel_size() {
    let sprite = Sprite::rectangle(3, 5, Some(Color::new(2)), 0);
    assert_eq!(sprite.offset_size(0), (2, 2));
    let mut screen = Screen::new_cells(2, 2);
    assert!(screen.draw_sprite(&sprite, 0, 0, Blit::Put));
    assert_eq!(screen.rasterize(), "⣿⡇\n⠉⠁\n");
    for y in 0..8u16 {
        for x in 0..4u16 {
            assert_eq!(screen.get_pixel(x, y), Some(x < 3 && y < 5));
        }
    }
    let sprite = Sprite::rectangle(4, 8, None, 0);
    assert_eq!(bits_of(&sprite.offsets[0]), vec![0xff; 4]);
    let sprite = Sprite::rectangle(2, 6, None, 0);
    assert_eq!(bits_of(&sprite.offsets[0]), vec![0xff, 0x0f]);
    let sprite = Sprite::rectangle(1, 7, None, 0);
    assert_eq!(bits_of(&sprite.offsets[0]), vec![0x55, 0x15]);
    let sprite = Sprite::rectangle(0, 9, None, 0);
    assert_eq!(sprite.offset_size(0), (0, 3));
    assert_eq!(sprite.offsets[0].len(), 0);
}

fn image(pixels: &[[u8; 4]]) -> Vec<u8> {
    pixels.iter().flat_map(|p| p.iter().copied()).collect()
}

#[test]
fn from_pixels_sets_the_opaque_pixels() {
    let red = [255, 0, 0, 255];
    let blue = [0, 0, 255, 200];
    let clear = [0, 255, 0, 128];
    // 2 wide, 4 tall: one cell.
    let rgba = image(&[red, clear, blue, blue, clear, red, clear, clear]);
    let sprite = Sprite::from_pixels(&rgba, 2, 4, ColorMode::Rgb, true, 2);
    assert_eq!(sprite.offset_size(0), (1, 1));
    assert_eq!(sprite.priority, 2);
    // Two votes each for red and blue: the higher palette number wins.
    assert_eq!(
        cells_of(&sprite.offsets[0]),
        vec![ColoredCell::new(Cell::new(0b0010_1101), Some(Color::new(196)))]
    );
    assert_eq!(Color::from_rgb_approximate(255, 0, 0), Color::new(196));
    assert_eq!(Color::from_rgb_approximate(0, 0, 255), Color::new(21));

    let sprite = Sprite::from_pixels(&rgba, 2, 4, ColorMode::Standard, true, 0);
    assert_eq!(
        cells_of(&sprite.offsets[0]),
        vec![ColoredCell::new(Cell::new(0b0010_1101), Some(Color::new(12)))]
    );

    let sprite = Sprite::from_pixels(&rgba, 2, 4, ColorMode::Monochrome, true, 0);
    assert_eq!(
        cells_of(&sprite.offsets[0]),
        vec![ColoredCell::new(Cell::new(0b0010_1101), None)]
    );

    // Without the alpha channel every pixel is set and votes: green has four.
    let sprite = Sprite::from_pixels(&rgba, 2, 4, ColorMode::Standard, false, 0);
    assert_eq!(
        cells_of(&sprite.offsets[0]),
        vec![ColoredCell::new(Cell::full(), Some(Color::new(10)))]
    );
    let sprite = Sprite::from_pixels(&rgba, 2, 4, ColorMode::Monochrome, false, 0);
    assert_eq!(cells_of(&sprite.offsets[0]), vec![ColoredCell::new(Cell::full(), None)]);
}

#[test]
fn from_pixels_without_opaque_pixels_has_no_color() {
    let rgba = image(&[[9, 9, 9, 0]; 8]);
    let sprite = Sprite::from_pixels(&rgba, 2, 4, ColorMode::Rgb, true, 0);
    assert_eq!(cells_of(&sprite.offsets[0]), vec![ColoredCell::new(Cell::empty(), None)]);
}

#[test]
fn from_pixels_lays_cells_out_row_by_row() {
    // 4 wide, 8 tall: 2 by 2 cells; only the pixel at (3, 5) is opaque.
    let mut pixels = vec![[0u8, 0, 0, 0]; 32];
    pixels[5 * 4 + 3] = [255, 255, 255, 255];
    let sprite = Sprite::from_pixels(&image(&pixels), 4, 8, ColorMode::Rgb, true, 0);
    assert_eq!(sprite.offset_size(0), (2, 2));
    assert_eq!(
        cells_of(&sprite.offsets[0]),
        vec![
            ColoredCell::default(),
            ColoredCell::default(),
            ColoredCell::default(),
            ColoredCell::new(Cell::new(0b1000), Some(Color::new(231))),
        ]
    );
    // Pixels beyond the last whole cell are left out.
    let sprite = Sprite::from_pixels(&image(&vec![[1u8, 2, 3, 255]; 15]), 3, 5, ColorMode::Rgb, true, 0);
    assert_eq!(sprite.offset_size(0), (1, 1));
    assert_eq!(bits_of(&sprite.offsets[0]), vec![0xff]);
}

#[test]
fn from_image_data_enlarges_the_image() {
    // 1 wide, 2 tall, enlarged twice: 2 wide, 4 tall.
    let rgba = image(&[[255, 0, 0, 255], [0, 0, 255, 0]]);
    let sprite = Sprite::from_image_data(&rgba, 1, 2, ColorMode::Rgb, 2, true, 7);
    assert_eq!(sprite.offset_size(0), (1, 1));
    assert_eq!(sprite.priority, 7);
    assert_eq!(
        cells_of(&sprite.offsets[0]),
        vec![ColoredCell::new(Cell::new(0x0f), Some(Color::new(196)))]
    );
    // 2 wide, 4 tall, as it is.
    let rgba = image(&[[0, 0, 0, 255]; 8]);
    let sprite = Sprite::from_image_data(&rgba, 2, 4, ColorMode::Monochrome, 1, true, 0);
    assert_eq!(cells_of(&sprite.offsets[0]), vec![ColoredCell::new(Cell::full(), None)]);
    let sprite = Sprite::from_image_data(&rgba, 2, 4, ColorMode::Monochrome, 3, true, 0);
    assert_eq!(sprite.offset_size(0), (3, 3));
    assert_eq!(bits_of(&sprite.offsets[0]), vec![0xff; 9]);
}
