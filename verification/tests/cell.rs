use std::collections::HashSet;
use ti::cell::{Cell, OffsetCell, BRAILLE_BASE_CODEPOINT};

#[test]
fn unique_offset() {
    let map: HashSet<_> = (0u8..=255).map(|n| Cell::new(n).braille_offset()).collect();
    assert_eq!(map.len(), 256);
}

#[test]
fn braille_round_trip() {
    for i in 0..=255u8 {
        let c = char::from_u32(BRAILLE_BASE_CODEPOINT + i as u32).unwrap();
        assert_eq!(i, Cell::from_braille(c).unwrap().braille_offset());
        assert_eq!(
            c,
            std::str::from_utf8(&Cell::from_braille(c).unwrap().to_braille_utf8())
                .unwrap()
                .chars()
                .next()
                .unwrap()
        );
    }
}

#[test]
fn correct_braille() {
    assert_eq!(Cell::new(0).to_braille_utf8(), [226, 160, 128]);
    assert_eq!(Cell::new(1).to_braille_utf8(), [226, 160, 129]);
    assert_eq!(Cell::new(2).to_braille_utf8(), [226, 160, 136]);
    assert_eq!(Cell::new(4).to_braille_utf8(), [226, 160, 130]);
    assert_eq!(Cell::new(8).to_braille_utf8(), [226, 160, 144]);
    assert_eq!(Cell::new(16).to_braille_utf8(), [226, 160, 132]);
    assert_eq!(Cell::new(32).to_braille_utf8(), [226, 160, 160]);
    assert_eq!(Cell::new(64).to_braille_utf8(), [226, 161, 128]);
    assert_eq!(Cell::new(128).to_braille_utf8(), [226, 162, 128]);
}

#[test]
fn cell_round_trip_through_char() {
    for b in 0..=255u8 {
        let cell = Cell::new(b);
        let c = cell.to_braille_char();
        assert_eq!(Cell::from_braille(c), Some(cell));
        let bytes = cell.to_braille_utf8();
        assert_eq!(std::str::from_utf8(&bytes).unwrap().chars().next(), Some(c));
        let mut expected = [0u8; 3];
        c.encode_utf8(&mut expected);
        assert_eq!(bytes, expected);
    }
}

#[test]
fn to_braille_char_is_offset_from_base() {
    assert_eq!(Cell::new(0).to_braille_char(), '\u{2800}');
    assert_eq!(Cell::new(0xff).to_braille_char(), '⣿');
    assert_eq!(Cell::new(0b10).to_braille_char(), '\u{2808}');
    assert_eq!(Cell::new(0b0011_1100).braille_offset(), 0b0011_0110);
}

#[test]
fn from_braille_rejects_other_characters() {
    assert_eq!(Cell::from_braille('a'), None);
    assert_eq!(Cell::from_braille('\u{27ff}'), None);
    assert_eq!(Cell::from_braille('\u{2900}'), None);
    assert_eq!(Cell::from_braille('\u{2800}'), Some(Cell::empty()));
    assert_eq!(Cell::from_braille('\u{28ff}'), Some(Cell::full()));
}

#[test]
fn empty_and_full() {
    assert!(Cell::empty().is_empty());
    assert!(!Cell::empty().is_full());
    assert!(Cell::full().is_full());
    assert!(!Cell::full().is_empty());
    assert_eq!(Cell::full().bits, 0xff);
    assert_eq!(Cell::new(3) | Cell::new(0x30), Cell::new(0x33));
}

#[test]
fn from_bit_position_sets_one_bit() {
    for y in 0..4u8 {
        for x in 0..2u8 {
            assert_eq!(Cell::from_bit_position(x, y), Some(Cell::new(1 << (2 * y + x))));
        }
    }
    assert_eq!(Cell::from_bit_position(2, 0), None);
    assert_eq!(Cell::from_bit_position(0, 4), None);
    assert_eq!(Cell::from_bit_position(255, 255), None);
}

fn quad(split: OffsetCell) -> [u8; 4] {
    match split {
        OffsetCell::Aligned { cell } => [cell.bits, 0, 0, 0],
        OffsetCell::Horizontal { left, right } => [left.bits, right.bits, 0, 0],
        OffsetCell::Vertical { up, down } => [up.bits, 0, down.bits, 0],
        OffsetCell::Corner { ul, ur, dl, dr } => [ul.bits, ur.bits, dl.bits, dr.bits],
    }
}

fn pixel_of(cells: [u8; 4], x: u8, y: u8) -> bool {
    let cell = cells[(2 * (y / 4) + x / 2) as usize];
    (cell >> (2 * (y % 4) + x % 2)) & 1 == 1
}

#[test]
fn with_offset_conserves_bits() {
    for b in 0..=255u8 {
        for dy in 0..4u8 {
            for dx in 0..2u8 {
                let cells = quad(Cell::new(b).with_offset(dx, dy));
                for y in 0..8u8 {
                    for x in 0..4u8 {
                        let from_source = x >= dx
                            && y >= dy
                            && x - dx < 2
                            && y - dy < 4
                            && (b >> (2 * (y - dy) + (x - dx))) & 1 == 1;
                        assert_eq!(pixel_of(cells, x, y), from_source);
                    }
                }
            }
        }
    }
}

#[test]
fn with_offset_shapes() {
    assert!(matches!(Cell::full().with_offset(0, 0), OffsetCell::Aligned { .. }));
    assert!(matches!(Cell::full().with_offset(1, 0), OffsetCell::Horizontal { .. }));
    assert!(matches!(Cell::full().with_offset(0, 3), OffsetCell::Vertical { .. }));
    assert!(matches!(Cell::full().with_offset(1, 2), OffsetCell::Corner { .. }));
    assert!(matches!(Cell::full().with_offset(2, 4), OffsetCell::Aligned { .. }));
    assert_eq!(quad(Cell::full().with_offset(3, 5)), [0xa8, 0x54, 0x02, 0x01]);
    assert_eq!(quad(Cell::full().with_offset(1, 0)), [0xaa, 0x55, 0, 0]);
    assert_eq!(quad(Cell::full().with_offset(0, 2)), [0xf0, 0, 0x0f, 0]);
}
