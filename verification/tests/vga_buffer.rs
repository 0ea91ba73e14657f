use kernel_core::vga_buffer::{
    hide_cursor, update_cursor, Color, ColorCode, Screen, ScreenChar, Writer, VGA_ADDRESS,
    VGA_HEIGHT, VGA_HIDDEN_LINES, VGA_HISTORY, VGA_SCREENS, VGA_WIDTH,
};

const WHITE: ColorCode = ColorCode(0x0f);

fn cell(byte: u8) -> ScreenChar {
    ScreenChar { ascii_character: byte, color_code: WHITE }
}

fn blank() -> ScreenChar {
    cell(b' ')
}

fn text(writer: &Writer, row: usize) -> String {
    writer.buffer[row].iter().map(|c| c.ascii_character as char).collect::<String>()
        .trim_end()
        .to_string()
}

#[test]
fn dimensions() {
    assert_eq!(VGA_ADDRESS, 0xb8000);
    assert_eq!(VGA_WIDTH, 80);
    assert_eq!(VGA_HEIGHT, 25);
    assert_eq!(VGA_HISTORY, 50);
    assert_eq!(VGA_HIDDEN_LINES, 25);
    assert_eq!(VGA_SCREENS, 4);
}

#[test]
fn colour_codes() {
    assert_eq!(Color::Black.code(), 0);
    assert_eq!(Color::Blue.code(), 1);
    assert_eq!(Color::LightGray.code(), 7);
    assert_eq!(Color::DarkGray.code(), 8);
    assert_eq!(Color::Yellow.code(), 14);
    assert_eq!(Color::White.code(), 15);
    assert_eq!(ColorCode::new(Color::White, Color::Black), ColorCode(0x0f));
    assert_eq!(ColorCode::new(Color::Yellow, Color::Blue), ColorCode(0x1e));
    assert_eq!(ColorCode::new(Color::Black, Color::White), ColorCode(0xf0));
    assert_eq!(ColorCode::new(Color::Black, Color::Black), ColorCode(0x00));
    assert_eq!(ColorCode::new(Color::White, Color::White), ColorCode(0xff));
}

#[test]
fn the_empty_cell_is_a_black_space() {
    assert_eq!(
        ScreenChar::empty(),
        ScreenChar { ascii_character: 0x20, color_code: ColorCode(0) }
    );
}

#[test]
fn cursor_registers() {
    assert_eq!(
        update_cursor(24, 5),
        vec![(0x3d4, 0x0e), (0x3d5, 0x07), (0x3d4, 0x0f), (0x3d5, 0x85)]
    );
    assert_eq!(
        update_cursor(0, 0),
        vec![(0x3d4, 0x0e), (0x3d5, 0x00), (0x3d4, 0x0f), (0x3d5, 0x00)]
    );
    assert_eq!(
        update_cursor(3, 16),
        vec![(0x3d4, 0x0e), (0x3d5, 0x01), (0x3d4, 0x0f), (0x3d5, 0x00)]
    );
    // 26 * 80 = 2080 = 0x820
    assert_eq!(hide_cursor(), vec![(0x3d4, 0x0e), (0x3d5, 0x08), (0x3d4, 0x0f), (0x3d5, 0x20)]);
    // only the low sixteen bits count
    assert_eq!(
        update_cursor(0, 0x12345),
        vec![(0x3d4, 0x0e), (0x3d5, 0x23), (0x3d4, 0x0f), (0x3d5, 0x45)]
    );
}

#[test]
fn a_new_screen_and_a_new_writer_are_empty() {
    let screen = Screen::new();
    assert_eq!(screen.history, 0);
    assert_eq!(screen.scroll_up, 0);
    assert!(screen.bytes.iter().all(|row| row.iter().all(|c| *c == ScreenChar::empty())));
    let writer = Writer::new();
    assert_eq!(writer.column_position, 0);
    assert_eq!(writer.color_code, WHITE);
    assert_eq!(writer.screen_idx, 0);
    assert_eq!(writer.cursor, 0);
    assert!(writer.buffer.iter().all(|row| row.iter().all(|c| *c == ScreenChar::empty())));
    assert_eq!(writer.screens.len(), 4);
}

#[test]
fn a_byte_goes_to_the_last_row() {
    let mut writer = Writer::new();
    writer.write_byte(b'H');
    writer.write_byte(b'i');
    assert_eq!(writer.buffer[24][0], cell(b'H'));
    assert_eq!(writer.buffer[24][1], cell(b'i'));
    assert_eq!(writer.buffer[24][2], ScreenChar::empty());
    assert_eq!(writer.screens[0].bytes[49][0], cell(b'H'));
    assert_eq!(writer.screens[0].bytes[49][1], cell(b'i'));
    assert_eq!(writer.column_position, 2);
    assert_eq!(writer.cursor, 24 * 80 + 2);
    assert_eq!(writer.screens[0].history, 0);
    assert_eq!(writer.screens[1].bytes[49][0], ScreenChar::empty());
}

#[test]
fn a_line_feed_moves_the_text_up() {
    let mut writer = Writer::new();
    writer.write_str("one\ntwo");
    assert_eq!(text(&writer, 23), "one");
    assert_eq!(text(&writer, 24), "two");
    assert_eq!(writer.buffer[24][3], blank());
    assert_eq!(writer.buffer[23][3], ScreenChar::empty());
    assert_eq!(writer.screens[0].bytes[48][0], cell(b'o'));
    assert_eq!(writer.screens[0].bytes[49][0], cell(b't'));
    assert_eq!(writer.column_position, 3);
    assert_eq!(writer.cursor, 24 * 80 + 3);
    assert_eq!(writer.screens[0].history, 1);
}

#[test]
fn the_new_row_has_the_current_colours() {
    let mut writer = Writer::new();
    writer.set_foreground_color(Color::Red);
    writer.write_byte(b'\n');
    let red = ScreenChar { ascii_character: b' ', color_code: ColorCode(0x04) };
    assert!(writer.buffer[24].iter().all(|c| *c == red));
    assert!(writer.screens[0].bytes[49].iter().all(|c| *c == red));
    assert!(writer.buffer[23].iter().all(|c| *c == ScreenChar::empty()));
    writer.write_byte(b'x');
    assert_eq!(
        writer.buffer[24][0],
        ScreenChar { ascii_character: b'x', color_code: ColorCode(0x04) }
    );
    writer.reset_foreground_color();
    assert_eq!(writer.color_code, WHITE);
    writer.write_byte(b'y');
    assert_eq!(writer.buffer[24][1], cell(b'y'));
}

#[test]
fn a_full_line_wraps_with_the_next_byte() {
    let mut writer = Writer::new();
    writer.write_bytes(b'a', 80);
    assert_eq!(writer.column_position, 80);
    assert_eq!(writer.cursor, 24 * 80 + 80);
    assert_eq!(writer.screens[0].history, 0);
    assert!(writer.buffer[24].iter().all(|c| *c == cell(b'a')));
    writer.write_byte(b'b');
    assert_eq!(writer.column_position, 1);
    assert!(writer.buffer[23].iter().all(|c| *c == cell(b'a')));
    assert_eq!(writer.buffer[24][0], cell(b'b'));
    assert_eq!(writer.buffer[24][1], blank());
    assert_eq!(writer.screens[0].history, 1);
}

#[test]
fn write_bytes_repeats() {
    let mut writer = Writer::new();
    writer.write_bytes(b'-', 3);
    writer.write_bytes(b'+', 0);
    assert_eq!(text(&writer, 24), "---");
    assert_eq!(writer.column_position, 3);
    writer.write_bytes(b'\n', 2);
    assert_eq!(text(&writer, 22), "---");
    assert_eq!(text(&writer, 23), "");
    assert_eq!(writer.screens[0].history, 2);
}

#[test]
fn bytes_that_do_not_print_become_blocks() {
    let mut writer = Writer::new();
    writer.write_str("a\tb\u{e9}~\u{7f} ");
    let row: Vec<u8> = writer.buffer[24][..9].iter().map(|c| c.ascii_character).collect();
    // the letter after b takes two bytes
    assert_eq!(row, vec![b'a', 0xfe, b'b', 0xfe, 0xfe, b'~', 0xfe, b' ', b' ']);
    assert_eq!(writer.column_position, 8);
}

#[test]
fn the_history_is_limited() {
    let mut writer = Writer::new();
    for line in 0..60 {
        writer.write_byte(b'A' + (line % 26) as u8);
        writer.write_byte(b'\n');
    }
    assert_eq!(writer.screens[0].history, 25);
    // the last line written is number 59, one row above the empty last row
    assert_eq!(writer.buffer[23][0], cell(b'A' + (59 % 26) as u8));
    assert_eq!(writer.buffer[0][0], cell(b'A' + (36 % 26) as u8));
    assert_eq!(writer.screens[0].bytes[0][0], cell(b'A' + (11 % 26) as u8));
    assert_eq!(text(&writer, 24), "");
}

#[test]
fn moving_up_shows_older_rows_and_hides_the_cursor() {
    let mut writer = Writer::new();
    writer.write_str("first\nsecond\nthird");
    assert_eq!(writer.screens[0].history, 2);
    writer.move_up();
    assert_eq!(writer.screens[0].scroll_up, 1);
    assert_eq!(text(&writer, 24), "second");
    assert_eq!(text(&writer, 23), "first");
    assert_eq!(writer.cursor, 26 * 80);
    writer.move_up();
    assert_eq!(text(&writer, 24), "first");
    writer.move_up();
    assert_eq!(writer.screens[0].scroll_up, 2);
    assert_eq!(text(&writer, 24), "first");
    writer.move_down();
    assert_eq!(text(&writer, 24), "second");
    assert_eq!(writer.cursor, 26 * 80);
    writer.move_down();
    assert_eq!(text(&writer, 24), "third");
    assert_eq!(writer.cursor, 24 * 80 + 5);
    writer.move_down();
    assert_eq!(writer.screens[0].scroll_up, 0);
    assert_eq!(text(&writer, 24), "third");
}

#[test]
fn moving_all_the_way() {
    let mut writer = Writer::new();
    writer.write_str("first\nsecond\nthird\nfourth");
    writer.move_all_the_way_up();
    assert_eq!(writer.screens[0].scroll_up, 3);
    assert_eq!(text(&writer, 24), "first");
    assert_eq!(writer.cursor, 26 * 80);
    writer.move_all_the_way_up();
    assert_eq!(writer.screens[0].scroll_up, 3);
    writer.move_all_the_way_down();
    assert_eq!(writer.screens[0].scroll_up, 0);
    assert_eq!(text(&writer, 24), "fourth");
    assert_eq!(writer.cursor, 24 * 80 + 6);
    writer.move_all_the_way_down();
    assert_eq!(text(&writer, 24), "fourth");
}

#[test]
fn writing_while_moved_up_does_not_show() {
    let mut writer = Writer::new();
    writer.write_str("first\nsecond");
    writer.move_up();
    writer.write_byte(b'!');
    assert_eq!(text(&writer, 24), "first");
    assert_eq!(writer.screens[0].bytes[49][6], cell(b'!'));
    assert_eq!(writer.cursor, 26 * 80);
    writer.move_down();
    assert_eq!(text(&writer, 24), "second!");
}

#[test]
fn reset_history_keeps_the_text() {
    let mut writer = Writer::new();
    writer.write_str("first\nsecond");
    writer.reset_history();
    assert_eq!(writer.screens[0].history, 0);
    assert_eq!(text(&writer, 23), "first");
    writer.move_up();
    assert_eq!(writer.screens[0].scroll_up, 0);
    assert_eq!(text(&writer, 24), "second");
}

#[test]
fn screens_are_apart() {
    let mut writer = Writer::new();
    writer.write_str("zero");
    writer.switch_screen(2, 7);
    assert_eq!(writer.screen_idx, 2);
    assert_eq!(writer.column_position, 7);
    assert_eq!(writer.cursor, 24 * 80 + 7);
    assert_eq!(text(&writer, 24), "");
    writer.write_str("two");
    assert_eq!(writer.buffer[24][7], cell(b't'));
    assert_eq!(writer.screens[0].bytes[49][0], cell(b'z'));
    assert_eq!(writer.screens[2].bytes[49][7], cell(b't'));
    writer.switch_screen(0, 4);
    assert_eq!(text(&writer, 24), "zero");
    assert_eq!(writer.column_position, 4);
}

#[test]
fn switch_screen_refuses_what_makes_no_sense() {
    let mut writer = Writer::new();
    writer.write_str("zero");
    writer.switch_screen(0, 1);
    assert_eq!(writer.column_position, 4);
    writer.switch_screen(4, 1);
    assert_eq!(writer.screen_idx, 0);
    writer.switch_screen(1, 80);
    assert_eq!(writer.screen_idx, 0);
    assert_eq!(writer.column_position, 4);
    assert_eq!(text(&writer, 24), "zero");
    writer.switch_screen(3, 79);
    assert_eq!(writer.screen_idx, 3);
    assert_eq!(writer.column_position, 79);
}

#[test]
fn clearing_the_display_keeps_the_screen() {
    let mut writer = Writer::new();
    writer.write_str("text");
    writer.clear_vga_buffer();
    assert!(writer.buffer.iter().all(|row| row.iter().all(|c| *c == ScreenChar::empty())));
    assert_eq!(writer.screens[0].bytes[49][0], cell(b't'));
    assert_eq!(writer.column_position, 4);
    writer.redraw();
    assert_eq!(text(&writer, 24), "text");
}

#[test]
fn set_cursor_moves_the_next_character() {
    let mut writer = Writer::new();
    writer.set_cursor(10);
    assert_eq!(writer.column_position, 10);
    assert_eq!(writer.cursor, 24 * 80 + 10);
    writer.write_byte(b'x');
    assert_eq!(writer.buffer[24][10], cell(b'x'));
    writer.set_cursor(200);
    assert_eq!(writer.cursor, 24 * 80 + 200);
    writer.write_byte(b'y');
    assert_eq!(writer.buffer[24][0], cell(b'y'));
    assert_eq!(writer.buffer[23][10], cell(b'x'));
}

#[test]
fn new_line_starts_at_column_zero() {
    let mut writer = Writer::new();
    writer.write_str("abc");
    writer.new_line();
    assert_eq!(writer.column_position, 0);
    assert_eq!(writer.cursor, 24 * 80);
    assert_eq!(text(&writer, 23), "abc");
}
