use ti::cell::Cell;
use ti::color::standard;
use ti::color::{Color, ColoredCell};

#[test]
fn test_from_ansi_components() {
    assert_eq!(Color::from_ansi_components(1, 2, 3), Color::new(67));
    assert_eq!(Color::from_ansi_components(0, 0, 0), Color::new(16));
    assert_eq!(Color::from_ansi_components(5, 5, 5), Color::new(231));
    assert_eq!(Color::from_ansi_components(6, 7, 8), Color::new(231));
}

#[test]
fn test_from_ansi_greyscale() {
    assert_eq!(Color::from_ansi_greyscale(0), Color::new(232));
    assert_eq!(Color::from_ansi_greyscale(1), Color::new(233));
    assert_eq!(Color::from_ansi_greyscale(10), Color::new(242));
    assert_eq!(Color::from_ansi_greyscale(23), Color::new(255));
    assert_eq!(Color::from_ansi_greyscale(100), Color::new(255));
}

#[test]
fn test_component_approximation_exact() {
    assert_eq!(
        Color::from_rgb_approximate(0, 0, 0),
        Color::from_ansi_components(0, 0, 0)
    );
    assert_eq!(
        Color::from_rgb_approximate(255, 255, 255),
        Color::from_ansi_components(5, 5, 5)
    );
    assert_eq!(
        Color::from_rgb_approximate(95, 135, 215),
        Color::from_ansi_components(1, 2, 4)
    )
}

#[test]
fn test_greyscale_approximation_exact() {
    assert_eq!(
        Color::from_rgb_approximate(8, 8, 8),
        Color::from_ansi_greyscale(0)
    );
    assert_eq!(
        Color::from_rgb_approximate(58, 58, 58),
        Color::from_ansi_greyscale(5)
    );
    assert_eq!(
        Color::from_rgb_approximate(238, 238, 238),
        Color::from_ansi_greyscale(23)
    )
}

#[test]
fn test_component_approximation() {
    assert_eq!(
        Color::from_rgb_approximate(1, 0, 0),
        Color::from_ansi_components(0, 0, 0)
    );
    assert_eq!(
        Color::from_rgb_approximate(129, 251, 2),
        Color::from_ansi_components(2, 5, 0)
    );
}

#[test]
fn test_greyscale_approximation() {
    assert_eq!(
        Color::from_rgb_approximate(64, 59, 62),
        Color::from_ansi_greyscale(5)
    );
    assert_eq!(
        Color::from_rgb_approximate(240, 241, 242),
        Color::from_ansi_greyscale(23)
    );
}

#[test]
fn test_greyscale_incrementing() {
    let colors: Vec<_> = (0..24).map(Color::from_ansi_greyscale).collect();
    let mut sorted = colors.clone();
    sorted.sort_by(|a, b| a.to_rgb_approximate().0.cmp(&b.to_rgb_approximate().0));
    assert_eq!(colors, sorted)
}

#[test]
fn test_standard_color_approx() {
    assert_eq!(
        Color::standard_color_approximate(12, 8, 3),
        Color::new(standard::BLACK)
    );
    assert_eq!(
        Color::standard_color_approximate(124, 45, 55),
        Color::new(standard::RED)
    );
    assert_eq!(
        Color::standard_color_approximate(184, 125, 200),
        Color::new(standard::WHITE)
    );
    assert_eq!(
        Color::standard_color_approximate(244, 225, 240),
        Color::new(standard::BRIGHT_WHITE)
    );
    assert_eq!(
        Color::standard_color_approximate(254, 1, 128),
        Color::new(standard::MAGENTA)
    );
    assert_eq!(
        Color::standard_color_approximate(254, 1, 126),
        Color::new(standard::BRIGHT_RED)
    );
}

#[test]
fn cube_colors_have_their_scale_values() {
    let scale = [0u8, 95, 135, 175, 215, 255];
    for r in 0..6u8 {
        for g in 0..6u8 {
            for b in 0..6u8 {
                assert_eq!(
                    Color::from_ansi_components(r, g, b).to_rgb_approximate(),
                    (scale[r as usize], scale[g as usize], scale[b as usize])
                );
            }
        }
    }
}

#[test]
fn greyscale_steps_are_ten_apart_from_eight() {
    for s in 0..24u8 {
        let v = 10 * s + 8;
        assert_eq!(Color::from_ansi_greyscale(s).to_rgb_approximate(), (v, v, v));
    }
    for s in 0..23u8 {
        assert!(
            Color::from_ansi_greyscale(s).to_rgb_approximate().0
                < Color::from_ansi_greyscale(s + 1).to_rgb_approximate().0
        );
    }
}

#[test]
fn standard_colors_have_their_triplets() {
    let expected = [
        (0, 0, 0),
        (128, 0, 0),
        (0, 128, 0),
        (128, 128, 0),
        (0, 0, 128),
        (128, 0, 128),
        (0, 128, 128),
        (192, 192, 192),
        (128, 128, 128),
        (255, 0, 0),
        (0, 255, 0),
        (255, 255, 0),
        (0, 0, 255),
        (255, 0, 255),
        (0, 255, 255),
        (255, 255, 255),
    ];
    for i in 0..16u8 {
        assert_eq!(Color::new(i).to_rgb_approximate(), expected[i as usize]);
    }
    assert_eq!(Color::new(standard::BRIGHT_CYAN).to_rgb_approximate(), (0, 255, 255));
}

#[test]
fn component_ties_go_to_the_larger_value() {
    // 115 lies midway between 95 and 135, 235 midway between 215 and 255.
    assert_eq!(
        Color::from_rgb_approximate(115, 0, 235),
        Color::from_ansi_components(2, 0, 5)
    );
    // 114 is nearer to 95.
    assert_eq!(
        Color::from_rgb_approximate(114, 0, 255),
        Color::from_ansi_components(1, 0, 5)
    );
}

#[test]
fn grey_is_taken_only_when_it_is_nearer() {
    // (8, 8, 8): the cube gives (0, 0, 0) at distance 3 * 8^3, the ramp is exact.
    assert_eq!(Color::from_rgb_approximate(8, 8, 8), Color::new(232));
    // (95, 95, 95) is a point of the cube: it wins over the grey at 98.
    assert_eq!(Color::from_rgb_approximate(95, 95, 95), Color::new(59));
    // (4, 4, 4) is as far from (0, 0, 0) as from (8, 8, 8): the cube color wins.
    assert_eq!(Color::from_rgb_approximate(4, 4, 4), Color::new(16));
    assert_eq!(Color::from_rgb_approximate(5, 5, 5), Color::new(232));
}

#[test]
fn standard_ties_go_to_the_first() {
    // (64, 0, 0) is as far from black as from red.
    assert_eq!(Color::standard_color_approximate(64, 0, 0), Color::new(standard::BLACK));
    assert_eq!(Color::standard_color_approximate(65, 0, 0), Color::new(standard::RED));
    assert_eq!(Color::standard_color_approximate(0, 0, 0), Color::new(0));
    assert_eq!(Color::standard_color_approximate(255, 255, 255), Color::new(15));
}

#[test]
fn merge_cell_ors_bits_and_takes_color() {
    let mut c = ColoredCell::new(Cell::new(0b0101), Some(Color::new(3)));
    c.merge_cell(Cell::new(0b0110), Some(Color::new(9)));
    assert_eq!(c, ColoredCell::new(Cell::new(0b0111), Some(Color::new(9))));
    c.merge_cell(Cell::new(0), None);
    assert_eq!(c, ColoredCell::new(Cell::new(0b0111), None));
    assert_eq!(ColoredCell::default(), ColoredCell::new(Cell::empty(), None));
}
