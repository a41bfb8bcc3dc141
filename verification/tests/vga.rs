use tictactoe::game::event::Player;
use tictactoe::game::table::{Table, Win};
use tictactoe::vga::{VgaChar, VgaWriter, VGA_CELLS, VGA_WIDTH};

fn screen(color: u8) -> VgaWriter {
    VgaWriter::new(vec![VgaChar::new(b'.', color); VGA_CELLS])
}

fn row_text(w: &VgaWriter, row: usize) -> String {
    w.cells()[row * VGA_WIDTH..(row + 1) * VGA_WIDTH].iter().map(|c| c.character as char).collect()
}

fn cell(w: &VgaWriter, row: usize, col: usize) -> VgaChar {
    w.cells()[row * VGA_WIDTH + col]
}

fn padded(s: &str) -> String {
    format!("{:<80}", s)
}

#[test]
fn vga_char_new_keeps_its_parts() {
    let c = VgaChar::new(b'A', 0x1f);
    assert_eq!(c.character, b'A');
    assert_eq!(c.color, 0x1f);
}

#[test]
fn new_writer_keeps_the_screen() {
    let w = screen(0x07);
    assert_eq!(w.cells().len(), VGA_CELLS);
    assert!(w.cells().iter().all(|c| *c == VgaChar::new(b'.', 0x07)));
}

#[test]
fn writes_start_at_the_top_left_in_white() {
    let mut w = screen(0x07);
    w.write_string("Hi");
    assert_eq!(cell(&w, 0, 0), VgaChar::new(b'H', 0x0f));
    assert_eq!(cell(&w, 0, 1), VgaChar::new(b'i', 0x0f));
    assert_eq!(cell(&w, 0, 2), VgaChar::new(b'.', 0x07));
}

#[test]
fn set_color_applies_to_later_writes() {
    let mut w = screen(0x07);
    w.write_string("a");
    w.set_color(0x4e);
    w.write_string("b");
    assert_eq!(cell(&w, 0, 0), VgaChar::new(b'a', 0x0f));
    assert_eq!(cell(&w, 0, 1), VgaChar::new(b'b', 0x4e));
}

#[test]
fn unprintable_bytes_show_as_squares() {
    let mut w = screen(0x07);
    w.write_string("a\té");
    assert_eq!(cell(&w, 0, 0).character, b'a');
    assert_eq!(cell(&w, 0, 1).character, 0xfe);
    // 'é' is two bytes in UTF-8, each shown as a square
    assert_eq!(cell(&w, 0, 2).character, 0xfe);
    assert_eq!(cell(&w, 0, 3).character, 0xfe);
    assert_eq!(cell(&w, 0, 4).character, b'.');
}

#[test]
fn line_feed_moves_to_the_next_line() {
    let mut w = screen(0x07);
    w.write_string("ab\ncd");
    assert_eq!(&row_text(&w, 0)[..3], "ab.");
    assert_eq!(&row_text(&w, 1)[..3], "cd.");
}

#[test]
fn full_line_wraps() {
    let mut w = screen(0x07);
    let line: String = std::iter::repeat('x').take(80).collect();
    w.write_string(&line);
    assert_eq!(row_text(&w, 0), line);
    assert_eq!(&row_text(&w, 1)[..1], ".");
    w.write_string("y");
    assert_eq!(&row_text(&w, 1)[..2], "y.");
}

#[test]
fn writing_past_the_last_line_scrolls() {
    let mut w = screen(0x07);
    w.write_string("top\n");
    for _ in 0..23 {
        w.write_string("\n");
    }
    w.write_string("last");
    assert_eq!(&row_text(&w, 24)[..5], "last.");
    assert_eq!(&row_text(&w, 0)[..4], "top.");
    w.set_color(0x02);
    w.write_string("\nnew");
    // every line moved up; the old first line is gone
    assert_eq!(&row_text(&w, 0)[..4], "....");
    assert_eq!(&row_text(&w, 23)[..5], "last.");
    assert_eq!(&row_text(&w, 24)[..4], "new ");
    assert_eq!(cell(&w, 24, 5), VgaChar::new(b' ', 0x02));
}

#[test]
fn clear_blanks_in_the_current_color() {
    let mut w = screen(0x07);
    w.write_string("abc\ndef");
    w.set_color(0x1e);
    w.clear();
    assert!(w.cells().iter().all(|c| *c == VgaChar::new(b' ', 0x1e)));
    w.write_string("z");
    assert_eq!(cell(&w, 0, 0), VgaChar::new(b'z', 0x1e));
}

#[test]
fn empty_board_shows_the_digit_keys() {
    let mut w = screen(0x07);
    w.draw_table(&Table::new(), Vec::new(), None);
    assert_eq!(row_text(&w, 0), padded("Tic Tac Toe"));
    assert_eq!(row_text(&w, 1), padded(""));
    assert_eq!(row_text(&w, 2), padded("     |     |     "));
    assert_eq!(row_text(&w, 3), padded("  1  |  2  |  3  "));
    assert_eq!(row_text(&w, 4), padded("     |     |     "));
    assert_eq!(row_text(&w, 5), padded(" ----+-----+---- "));
    assert_eq!(row_text(&w, 7), padded("  4  |  5  |  6  "));
    assert_eq!(row_text(&w, 9), padded(" ----+-----+---- "));
    assert_eq!(row_text(&w, 11), padded("  7  |  8  |  9  "));
    assert_eq!(row_text(&w, 12), padded("     |     |     "));
    assert_eq!(row_text(&w, 13), padded(""));
    assert_eq!(cell(&w, 3, 2), VgaChar::new(b'1', 0x08));
    assert_eq!(cell(&w, 3, 5), VgaChar::new(b'|', 0x0f));
    assert_eq!(cell(&w, 11, 14), VgaChar::new(b'9', 0x08));
    // the screen was cleared in the writer's colour before drawing
    assert_eq!(cell(&w, 20, 0), VgaChar::new(b' ', 0x0f));
}

#[test]
fn marks_are_drawn_in_their_colors() {
    let mut t = Table::new();
    t.state[0] = Some(Player::X);
    t.state[4] = Some(Player::O);
    let mut w = screen(0x07);
    w.draw_table(&t, Vec::new(), None);
    assert_eq!(row_text(&w, 3), padded("  X  |  2  |  3  "));
    assert_eq!(row_text(&w, 7), padded("  4  |  O  |  6  "));
    assert_eq!(cell(&w, 3, 2), VgaChar::new(b'X', 0x0B));
    assert_eq!(cell(&w, 7, 8), VgaChar::new(b'O', 0x0E));
}

#[test]
fn errors_are_listed_below_the_board() {
    let mut w = screen(0x07);
    w.draw_table(
        &Table::new(),
        vec!["Cell already occupied".to_string(), "oops".to_string()],
        None,
    );
    assert_eq!(row_text(&w, 13), padded(""));
    assert_eq!(row_text(&w, 14), padded("Error: Cell already occupied"));
    assert_eq!(row_text(&w, 15), padded(""));
    assert_eq!(row_text(&w, 16), padded("Error: oops"));
    assert_eq!(cell(&w, 14, 0), VgaChar::new(b'E', 0x0C));
}

#[test]
fn row_win_is_struck_and_announced() {
    let mut t = Table::new();
    for i in 0..3 {
        t.state[i] = Some(Player::X);
    }
    let mut w = screen(0x07);
    w.draw_table(&t, Vec::new(), Some((Player::X, Win(0, 1, 2))));
    assert_eq!(row_text(&w, 3), padded("  X-----X-----X  "));
    assert_eq!(cell(&w, 3, 3), VgaChar::new(b'-', 0x0C));
    assert_eq!(cell(&w, 3, 2), VgaChar::new(b'X', 0x0B));
    assert_eq!(row_text(&w, 14), padded("Player X wins!"));
    assert_eq!(cell(&w, 14, 0), VgaChar::new(b'P', 0x0A));
}

#[test]
fn column_win_is_struck() {
    let mut t = Table::new();
    for i in [1, 4, 7] {
        t.state[i] = Some(Player::O);
    }
    let mut w = screen(0x07);
    w.draw_table(&t, Vec::new(), Some((Player::O, Win(1, 4, 7))));
    for row in [4, 5, 6, 8, 9, 10] {
        assert_eq!(cell(&w, row, 8), VgaChar::new(b'|', 0x0D));
    }
    assert_eq!(cell(&w, 7, 8), VgaChar::new(b'O', 0x0E));
    assert_eq!(cell(&w, 12, 8), VgaChar::new(b' ', 0x0f));
    assert_eq!(row_text(&w, 14), padded("Player O wins!"));
}

#[test]
fn diagonal_wins_are_struck() {
    let mut t = Table::new();
    for i in [0, 4, 8] {
        t.state[i] = Some(Player::X);
    }
    let mut w = screen(0x07);
    w.draw_table(&t, Vec::new(), Some((Player::X, Win(0, 4, 8))));
    for (row, col) in [(4, 4), (5, 5), (6, 6), (8, 10), (9, 11), (10, 12)] {
        assert_eq!(cell(&w, row, col), VgaChar::new(b'\\', 0x0C));
    }
    let mut w = screen(0x07);
    w.draw_table(&t, Vec::new(), Some((Player::O, Win(6, 4, 2))));
    for (row, col) in [(4, 12), (5, 11), (6, 10), (8, 6), (9, 5), (10, 4)] {
        assert_eq!(cell(&w, row, col), VgaChar::new(b'/', 0x0D));
    }
}

#[test]
fn scattered_win_draws_no_line() {
    let mut w = screen(0x07);
    let mut plain = screen(0x07);
    w.draw_table(&Table::new(), Vec::new(), Some((Player::X, Win(0, 5, 7))));
    plain.draw_table(&Table::new(), Vec::new(), None);
    for row in 0..13 {
        assert_eq!(row_text(&w, row), row_text(&plain, row));
    }
}

#[test]
fn drawing_does_not_depend_on_what_was_on_screen() {
    let mut t = Table::new();
    t.state[4] = Some(Player::O);
    let mut a = screen(0x07);
    let mut b = VgaWriter::new(vec![VgaChar::new(b'#', 0x5a); VGA_CELLS]);
    b.write_string("some\nold\ntext");
    a.draw_table(&t, vec!["e".to_string()], None);
    b.draw_table(&t, vec!["e".to_string()], None);
    assert_eq!(a.cells(), b.cells());
}

#[test]
fn writing_in_two_parts_is_writing_the_whole() {
    let mut a = screen(0x07);
    let mut b = screen(0x07);
    a.write_string("ab\nc");
    a.write_string("d\u{1}e");
    b.write_string("ab\ncd\u{1}e");
    assert_eq!(a.cells(), b.cells());
}

#[test]
fn write_byte_puts_a_byte_and_line_feed_breaks_the_line() {
    let mut w = screen(0x07);
    w.write_byte(b'q');
    w.write_byte(b'\n');
    w.write_byte(0x01);
    assert_eq!(cell(&w, 0, 0), VgaChar::new(b'q', 0x0f));
    // write_byte puts any byte as it is
    assert_eq!(cell(&w, 1, 0), VgaChar::new(0x01, 0x0f));
}

#[test]
fn drawing_leaves_white_as_the_colour() {
    let mut w = screen(0x07);
    w.set_color(0x4c);
    w.draw_table(&Table::new(), vec!["x".to_string()], Some((Player::O, Win(2, 4, 6))));
    w.write_string("z");
    let z = w.cells().iter().rposition(|c| c.character == b'z').unwrap();
    assert_eq!(w.cells()[z].color, 0x0f);
}
