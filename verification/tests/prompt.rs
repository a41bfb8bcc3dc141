use tictactoe::vga_buffer::{dos_prompt, Color, ColorCode, ScreenChar, Writer, BUFFER_CELLS, BUFFER_WIDTH};

fn blank_screen() -> Vec<ScreenChar> {
    vec![ScreenChar { ascii_character: b'.', color_code: ColorCode(0x01) }; BUFFER_CELLS]
}

fn row_text(chars: &[ScreenChar], row: usize) -> String {
    chars[row * BUFFER_WIDTH..(row + 1) * BUFFER_WIDTH].iter().map(|c| c.ascii_character as char).collect()
}

#[test]
fn color_codes_pack_background_and_foreground() {
    assert_eq!(ColorCode::new(Color::LightGray, Color::Black), ColorCode(0x07));
    assert_eq!(ColorCode::new(Color::Yellow, Color::Blue), ColorCode(0x1e));
    assert_eq!(ColorCode::new(Color::White, Color::White), ColorCode(0xff));
    assert_eq!(Color::Pink.value(), 13);
}

#[test]
fn prompt_writes_on_the_bottom_line() {
    let mut w = Writer::new(blank_screen(), ColorCode(0x07));
    w.write_byte(b'A');
    w.write_string("bc");
    let chars = w.chars();
    assert_eq!(&row_text(chars, 24)[..4], "Abc.");
    assert_eq!(chars[24 * BUFFER_WIDTH], ScreenChar { ascii_character: b'A', color_code: ColorCode(0x07) });
    assert_eq!(&row_text(chars, 23)[..1], ".");
}

#[test]
fn prompt_line_break_scrolls_everything_up() {
    let mut screen = blank_screen();
    screen[0] = ScreenChar { ascii_character: b'T', color_code: ColorCode(0x01) };
    screen[BUFFER_WIDTH] = ScreenChar { ascii_character: b'S', color_code: ColorCode(0x01) };
    let mut w = Writer::new(screen, ColorCode(0x07));
    w.write_string("one\ntwo");
    let chars = w.chars();
    assert_eq!(&row_text(chars, 0)[..1], "S");
    assert_eq!(&row_text(chars, 23)[..4], "one.");
    assert_eq!(&row_text(chars, 24)[..4], "two ");
    assert_eq!(chars[24 * BUFFER_WIDTH + 3], ScreenChar { ascii_character: b' ', color_code: ColorCode(0x07) });
}

#[test]
fn prompt_wraps_a_full_line() {
    let mut w = Writer::new(blank_screen(), ColorCode(0x07));
    let line: String = std::iter::repeat('x').take(80).collect();
    w.write_string(&line);
    w.write_string("y");
    let chars = w.chars();
    assert_eq!(row_text(chars, 23), line);
    assert_eq!(&row_text(chars, 24)[..2], "y ");
}

#[test]
fn prompt_replaces_unprintable_bytes() {
    let mut w = Writer::new(blank_screen(), ColorCode(0x07));
    w.write_string("a\u{7f}b");
    let chars = w.chars();
    assert_eq!(chars[24 * BUFFER_WIDTH].ascii_character, b'a');
    assert_eq!(chars[24 * BUFFER_WIDTH + 1].ascii_character, 0xfe);
    assert_eq!(chars[24 * BUFFER_WIDTH + 2].ascii_character, b'b');
}

#[test]
fn dos_prompt_writes_light_gray_on_black() {
    let out = dos_prompt(blank_screen(), "C:\\>");
    assert_eq!(&row_text(&out, 24)[..5], "C:\\>.");
    assert_eq!(out[24 * BUFFER_WIDTH], ScreenChar { ascii_character: b'C', color_code: ColorCode(0x07) });
    assert_eq!(out.len(), BUFFER_CELLS);
}
