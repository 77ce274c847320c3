use ti::cell::Cell;
use ti::color::Color;
use ti::event::Event;
use ti::screen::{frame_remainder, Blit, Command, Priority, Screen};

#[test]
fn simple_screen_size_pixels() {
    let screen = Screen::new_pixels(16, 24);
    assert_eq!(screen.width(), 8);
    assert_eq!(screen.height(), 6);
}

#[test]
fn odd_screen_size_pixels() {
    let screen = Screen::new_pixels(3, 3);
    assert_eq!(screen.width(), 2);
    assert_eq!(screen.height(), 1);
}

#[test]
fn make_square() {
    let mut screen = Screen::new_pixels(8, 8);
    assert_eq!(screen.width(), 4);
    assert_eq!(screen.height(), 2);
    for i in 0..8 {
        screen.set_pixel(i, 0, true);
        screen.set_pixel(i, 7, true);
        screen.set_pixel(0, i, true);
        screen.set_pixel(7, i, true);
    }
    assert_eq!(&screen.rasterize(), "⡏⠉⠉⢹\n⣇⣀⣀⣸\n");
}

#[test]
fn blit_types() {
    let mut screen = Screen::new_pixels(1, 1);
    assert_eq!(screen.get_pixel(0, 0), Some(false));
    screen.set_pixel(0, 0, true);
    assert_eq!(screen.get_pixel(0, 0), Some(true));
    screen.set_pixel(0, 0, true);
    assert_eq!(screen.get_pixel(0, 0), Some(true));
    screen.set_pixel(0, 0, false);
    assert_eq!(screen.get_pixel(0, 0), Some(false));
    screen.set_pixel(0, 0, false);
    assert_eq!(screen.get_pixel(0, 0), Some(false));
    screen.toggle_pixel(0, 0);
    assert_eq!(screen.get_pixel(0, 0), Some(true));
    screen.toggle_pixel(0, 0);
    assert_eq!(screen.get_pixel(0, 0), Some(false));
}

#[test]
fn draw_cell() {
    let mut screen = Screen::new_cells(2, 1);
    let cell = Cell::new(0b0011_1100);
    screen.draw_cell(cell, 0, 0, Blit::Put, 0);
    assert_eq!(screen.get_cell(0, 0), Some(cell));
    assert_eq!(screen.get_cell(1, 0), Some(Cell::new(0)));
    screen.draw_cell(cell, 1, 0, Blit::Unset, 0);
    assert_eq!(screen.get_cell(0, 0), Some(cell));
    assert_eq!(screen.get_cell(1, 0), Some(Cell::new(!cell.bits)));
    screen.draw_cell(cell, 0, 0, Blit::Toggle, 0);
    assert_eq!(screen.get_cell(0, 0), Some(Cell::new(0)));
    assert_eq!(screen.get_cell(1, 0), Some(Cell::new(!cell.bits)));
    assert_eq!(screen.get_cell(1, 0), Some(Cell::new(0xC3)));
}

#[test]
fn draw_cell_blits() {
    let mut screen = Screen::new_cells(1, 1);
    assert!(screen.draw_cell(Cell::new(0b1100), 0, 0, Blit::Add, 0));
    assert!(screen.draw_cell(Cell::new(0b0110), 0, 0, Blit::Add, 0));
    assert_eq!(screen.get_cell(0, 0), Some(Cell::new(0b1110)));
    assert!(screen.draw_cell(Cell::new(0b0100), 0, 0, Blit::Subtract, 0));
    assert_eq!(screen.get_cell(0, 0), Some(Cell::new(0b1010)));
    assert!(screen.draw_cell(Cell::new(0b0011), 0, 0, Blit::Toggle, 0));
    assert_eq!(screen.get_cell(0, 0), Some(Cell::new(0b1001)));
    assert!(screen.draw_cell(Cell::new(0b0011), 0, 0, Blit::Unset, 0));
    assert_eq!(screen.get_cell(0, 0), Some(Cell::new(0b1111_1100)));
    assert!(screen.draw_cell(Cell::new(0b0011), 0, 0, Blit::Put, 0));
    assert_eq!(screen.get_cell(0, 0), Some(Cell::new(0b0011)));
}

#[test]
fn draw_cell_out_of_bounds_changes_nothing() {
    let mut screen = Screen::new_cells(4, 2);
    let cell = Cell::from_braille('⢌').unwrap();
    assert!(screen.draw_cell(cell, 0, 0, Blit::Put, 0));
    assert!(!screen.draw_cell(cell, 99, 99, Blit::Put, 0));
    assert!(!screen.draw_cell(cell, 4, 0, Blit::Put, 0));
    assert!(!screen.draw_cell(cell, 0, 2, Blit::Put, 0));
    assert!(!screen.draw_cell_color(Color::new(1), 4, 1, 0));
    assert!(!screen.draw_pixel(8, 0, Blit::Put));
    assert!(!screen.draw_pixel(0, 8, Blit::Put));
    assert_eq!(screen.rasterize(), "⢌\u{2800}\u{2800}\u{2800}\n\u{2800}\u{2800}\u{2800}\u{2800}\n");
    assert_eq!(screen.get_cell(4, 6), None);
    assert_eq!(screen.get_color(999, 999), None);
    assert_eq!(screen.get_pixel(99, 0), None);
}

#[test]
fn index_and_from_index() {
    let screen = Screen::new_cells(4, 2);
    assert_eq!(screen.index(0, 1), 4);
    assert_eq!(screen.index(3, 1), 7);
    assert_eq!(screen.from_index(6), (2, 1));
    assert_eq!(ti::units::from_index(6, 4), (2, 1));
    assert_eq!(ti::units::from_index(0, 1), (0, 0));
}

#[test]
fn draw_pixel_keeps_the_other_pixels() {
    let mut screen = Screen::new_cells(1, 1);
    assert!(screen.draw_cell(Cell::new(0b1000_0001), 0, 0, Blit::Put, 0));
    assert!(screen.draw_pixel(1, 0, Blit::Put));
    assert_eq!(screen.get_cell(0, 0), Some(Cell::new(0b1000_0011)));
    assert!(screen.draw_pixel(0, 0, Blit::Unset));
    assert_eq!(screen.get_cell(0, 0), Some(Cell::new(0b1000_0010)));
    assert!(screen.draw_pixel(1, 3, Blit::Toggle));
    assert_eq!(screen.get_cell(0, 0), Some(Cell::new(0b0000_0010)));
    assert!(screen.draw_pixel(0, 2, Blit::Add));
    assert!(screen.draw_pixel(1, 0, Blit::Subtract));
    assert_eq!(screen.get_cell(0, 0), Some(Cell::new(0b0001_0000)));
    assert_eq!(screen.get_pixel(0, 2), Some(true));
    assert_eq!(screen.get_pixel(1, 2), Some(false));
}

#[test]
fn color_of_higher_priority_stays() {
    let mut screen = Screen::new_cells(2, 1);
    let low = Color::new(23);
    let high = Color::new(5);
    assert_eq!(screen.get_color(1, 0), None);
    assert!(screen.draw_cell_color(low, 1, 0, 1));
    assert_eq!(screen.get_color(1, 0), Some(low));
    assert!(screen.draw_cell_color(high, 1, 0, 7));
    assert_eq!(screen.get_color(1, 0), Some(high));
    assert!(screen.draw_cell_color(low, 1, 0, 1));
    assert_eq!(screen.get_color(1, 0), Some(high));
    assert_eq!(screen.get_color(0, 0), None);

    let mut other = Screen::new_cells(2, 1);
    assert!(other.draw_cell_color(high, 1, 0, 7));
    assert!(other.draw_cell_color(low, 1, 0, 1));
    assert_eq!(other.get_color(1, 0), Some(high));
}

#[test]
fn color_of_equal_priority_goes_by_number() {
    let mut screen = Screen::new_cells(1, 1);
    assert!(screen.draw_cell_color(Color::new(9), 0, 0, 3));
    assert!(screen.draw_cell_color(Color::new(4), 0, 0, 3));
    assert_eq!(screen.get_color(0, 0), Some(Color::new(9)));
    assert!(screen.draw_cell_color(Color::new(12), 0, 0, 3));
    assert_eq!(screen.get_color(0, 0), Some(Color::new(12)));
}

#[test]
fn render_commands_of_a_fresh_screen() {
    let screen = Screen::new_cells(3, 2);
    assert_eq!(screen.render_commands(), vec![Command::MoveTo(0, 0)]);
}

#[test]
fn render_commands_move_only_where_needed() {
    let mut screen = Screen::new_cells(3, 3);
    let a = Cell::new(1);
    let b = Cell::new(2);
    screen.draw_cell(a, 0, 0, Blit::Put, 0);
    screen.draw_cell(b, 1, 0, Blit::Put, 0);
    screen.draw_cell(a, 2, 1, Blit::Put, 0);
    screen.draw_cell(b, 0, 2, Blit::Put, 0);
    screen.draw_cell(a, 2, 2, Blit::Put, 0);
    screen.draw_cell_color(Color::new(7), 1, 0, 0);
    screen.draw_cell_color(Color::new(7), 2, 1, 4);
    screen.draw_cell_color(Color::new(8), 2, 2, 0);
    assert_eq!(
        screen.render_commands(),
        vec![
            Command::MoveTo(0, 0),
            Command::Print(a),
            Command::SetForegroundColor(Color::new(7)),
            Command::Print(b),
            Command::MoveToRow(1),
            Command::Print(a),
            Command::MoveTo(0, 2),
            Command::Print(b),
            Command::MoveToColumn(2),
            Command::SetForegroundColor(Color::new(8)),
            Command::Print(a),
        ]
    );
    screen.reset_deltas();
    assert_eq!(screen.render_commands(), vec![Command::MoveTo(0, 0)]);
    assert_eq!(screen.get_cell(1, 0), Some(b));
    assert_eq!(screen.get_color(1, 0), None);
}

#[test]
fn put_records_the_change_of_higher_priority() {
    let mut screen = Screen::new_cells(1, 1);
    screen.draw_cell(Cell::new(0x0f), 0, 0, Blit::Put, 5);
    screen.draw_cell(Cell::new(0xf0), 0, 0, Blit::Put, 2);
    // The cell itself is what was drawn last, the recorded change is the
    // one of higher priority.
    assert_eq!(screen.get_cell(0, 0), Some(Cell::new(0xf0)));
    assert_eq!(
        screen.render_commands(),
        vec![Command::MoveTo(0, 0), Command::Print(Cell::new(0x0f))]
    );
    // The other blits record what they drew, whatever the priority.
    screen.draw_cell(Cell::new(0x01), 0, 0, Blit::Add, 0);
    assert_eq!(
        screen.render_commands(),
        vec![Command::MoveTo(0, 0), Command::Print(Cell::new(0xf1))]
    );
}

#[test]
fn clear_empties_and_marks_every_cell() {
    let mut screen = Screen::new_cells(2, 1);
    screen.draw_cell(Cell::full(), 1, 0, Blit::Put, 9);
    screen.reset_deltas();
    screen.clear();
    assert_eq!(screen.get_cell(1, 0), Some(Cell::empty()));
    assert_eq!(
        screen.render_commands(),
        vec![
            Command::MoveTo(0, 0),
            Command::Print(Cell::empty()),
            Command::Print(Cell::empty()),
        ]
    );
    assert_eq!(screen.rasterize(), "\u{2800}\u{2800}\n");
}

#[test]
fn rasterize_has_three_bytes_for_each_cell() {
    let screen = Screen::new_cells(5, 3);
    let text = screen.rasterize();
    assert_eq!(text.len(), 3 * (5 * 3 + 1));
    for line in text.lines() {
        assert_eq!(line.len(), 15);
        assert!(line.chars().all(|c| ('\u{2800}'..='\u{28ff}').contains(&c)));
    }
    assert_eq!(Screen::new_cells(0, 2).rasterize(), "\n\n");
    assert_eq!(Screen::new_cells(2, 0).rasterize(), "");
}

#[test]
fn priority_new_keeps_its_parts() {
    let p = Priority::new(Cell::new(3), 9);
    assert_eq!(p.value, Cell::new(3));
    assert_eq!(p.priority, 9);
}

#[test]
fn control_c_ends_the_loop() {
    let screen = Screen::new_cells(1, 1);
    assert!(!screen.handle_default_events(Some(Event::Char('c')), true));
    assert!(screen.handle_default_events(Some(Event::Char('c')), false));
    assert!(screen.handle_default_events(Some(Event::Char('d')), true));
    assert!(screen.handle_default_events(Some(Event::Esc), true));
    assert!(screen.handle_default_events(None, true));
}

#[test]
fn frame_remainder_is_never_negative() {
    assert_eq!(frame_remainder(16_666_666, 6_000_000), 10_666_666);
    assert_eq!(frame_remainder(16_666_666, 16_666_666), 0);
    assert_eq!(frame_remainder(16_666_666, 20_000_000), 0);
}
