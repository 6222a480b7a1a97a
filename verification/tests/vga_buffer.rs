use platinium_os::console::{
    error, print, report_panic, try_error, try_print, try_println, try_warning, warning,
};
use platinium_os::fault::Fault;
use platinium_os::vga_buffer::{
    fits, Color, ColorCode, ScreenChar, Writer, BUFFER_HEIGHT, BUFFER_WIDTH,
};

const WHITE: ColorCode = ColorCode(0x0f);
const CURSOR: ColorCode = ColorCode(0xf0);

#[test]
fn color_codes_are_their_place_in_the_list() {
    assert_eq!(Color::Black.code(), 0);
    assert_eq!(Color::Blue.code(), 1);
    assert_eq!(Color::Red.code(), 4);
    assert_eq!(Color::LightGray.code(), 7);
    assert_eq!(Color::LightRed.code(), 12);
    assert_eq!(Color::Yellow.code(), 14);
    assert_eq!(Color::White.code(), 15);
}

#[test]
fn color_code_packs_background_and_foreground() {
    assert_eq!(ColorCode::new(Color::White, Color::Black), ColorCode(0x0f));
    assert_eq!(ColorCode::new(Color::Black, Color::White), ColorCode(0xf0));
    assert_eq!(ColorCode::new(Color::Yellow, Color::Blue), ColorCode(0x1e));
    assert_eq!(ColorCode::new(Color::LightRed, Color::Black), ColorCode(0x0c));
}

#[test]
fn new_writer_is_blank() {
    let writer = Writer::new();
    assert_eq!(writer.row_position(), 0);
    assert_eq!(writer.column_position(), 0);
    assert_eq!(writer.color_code(), WHITE);
    for row in [0, 12, BUFFER_HEIGHT - 1] {
        for col in [0, 40, BUFFER_WIDTH - 1] {
            assert_eq!(
                writer.read(row, col),
                ScreenChar { ascii_character: 0, color_code: WHITE }
            );
        }
    }
    assert_eq!(writer.row_into_string(0), "");
}

#[test]
fn write_byte_fills_the_cell_and_moves_the_highlight() {
    let mut writer = Writer::new();
    writer.change_color_code(ColorCode::new(Color::Green, Color::Black));
    writer.write_byte(b'a');
    assert_eq!(writer.column_position(), 1);
    assert_eq!(writer.read(0, 0), ScreenChar { ascii_character: b'a', color_code: ColorCode(0x02) });
    assert_eq!(writer.read(0, 1), ScreenChar { ascii_character: 0, color_code: CURSOR });
    writer.write_byte(b'b');
    assert_eq!(writer.read(0, 1), ScreenChar { ascii_character: b'b', color_code: ColorCode(0x02) });
    assert_eq!(writer.read(0, 2).color_code, CURSOR);
    assert_eq!(writer.row_into_string(0), "ab");
}

#[test]
fn line_feed_starts_a_new_line() {
    let mut writer = Writer::new();
    writer.write_string("ab\ncd");
    assert_eq!(writer.row_position(), 1);
    assert_eq!(writer.column_position(), 2);
    assert_eq!(writer.row_into_string(0), "ab");
    assert_eq!(writer.row_into_string(1), "cd");
    // the cell that the cursor left at the end of the first line is plain
    assert_eq!(writer.read(0, 2), ScreenChar { ascii_character: 0, color_code: WHITE });
}

#[test]
fn unprintable_bytes_are_shown_as_squares() {
    let mut writer = Writer::new();
    writer.write_string("a\tb\u{e9}");
    assert_eq!(writer.read(0, 0).ascii_character, b'a');
    assert_eq!(writer.read(0, 1).ascii_character, 0xfe);
    assert_eq!(writer.read(0, 2).ascii_character, b'b');
    // the two bytes of the letter with an accent
    assert_eq!(writer.read(0, 3).ascii_character, 0xfe);
    assert_eq!(writer.read(0, 4).ascii_character, 0xfe);
    assert_eq!(writer.column_position(), 5);
}

#[test]
fn a_row_takes_seventy_nine_characters() {
    let writer = Writer::new();
    let fit = "x".repeat(79);
    let over = "x".repeat(80);
    assert!(writer.accepts(&fit));
    assert!(!writer.accepts(&over));
    assert!(writer.accepts(&format!("{}\n{}", fit, fit)));
    assert_eq!(fits(0, &fit), Some(79));
    assert_eq!(fits(1, &fit), None);
    assert_eq!(fits(70, "abc\nde"), Some(2));
    assert_eq!(fits(79, ""), Some(79));
    assert_eq!(fits(79, "\n"), Some(0));
    assert_eq!(fits(79, "a"), None);
}

#[test]
fn last_row_scrolls() {
    let mut writer = Writer::new();
    for k in 0..BUFFER_HEIGHT - 1 {
        writer.write_string(&format!("line {}\n", k));
    }
    assert_eq!(writer.row_position(), BUFFER_HEIGHT - 1);
    writer.write_string("last");
    assert_eq!(writer.row_into_string(0), "line 0");
    assert_eq!(writer.row_into_string(BUFFER_HEIGHT - 1), "last");
    writer.write_string("\n");
    assert_eq!(writer.row_position(), BUFFER_HEIGHT - 1);
    assert_eq!(writer.column_position(), 0);
    assert_eq!(writer.row_into_string(0), "line 1");
    assert_eq!(writer.row_into_string(BUFFER_HEIGHT - 3), "line 23");
    assert_eq!(writer.row_into_string(BUFFER_HEIGHT - 2), "last");
    assert_eq!(writer.row_into_string(BUFFER_HEIGHT - 1), "");
}

#[test]
fn clear_wipes_with_the_current_colours() {
    let mut writer = Writer::new();
    writer.write_string("abc\ndef");
    writer.change_color_code(ColorCode(0x1e));
    writer.clear();
    assert_eq!(writer.row_position(), 0);
    assert_eq!(writer.column_position(), 0);
    assert_eq!(writer.read(0, 0), ScreenChar { ascii_character: 0, color_code: ColorCode(0x1e) });
    assert_eq!(writer.read(24, 79), ScreenChar { ascii_character: 0, color_code: ColorCode(0x1e) });
    assert_eq!(writer.row_into_string(1), "");
}

#[test]
fn clear_row_wipes_one_row() {
    let mut writer = Writer::new();
    writer.write_string("abc\ndef\nghi");
    writer.clear_row(1);
    assert_eq!(writer.row_into_string(0), "abc");
    assert_eq!(writer.row_into_string(1), "");
    assert_eq!(writer.row_into_string(2), "ghi");
    assert_eq!(writer.row_position(), 2);
    assert_eq!(writer.column_position(), 3);
}

#[test]
fn move_left_stops_at_the_first_column() {
    let mut writer = Writer::new();
    writer.write_string("ab");
    writer.move_left();
    assert_eq!(writer.column_position(), 1);
    assert_eq!(writer.read(0, 1), ScreenChar { ascii_character: b'b', color_code: CURSOR });
    assert_eq!(writer.read(0, 2), ScreenChar { ascii_character: 0, color_code: WHITE });
    writer.move_left();
    writer.move_left();
    assert_eq!(writer.column_position(), 0);
}

#[test]
fn move_right_passes_characters_only() {
    let mut writer = Writer::new();
    assert!(!writer.can_move_right());
    writer.write_string("ab");
    assert!(writer.can_move_right());
    writer.move_right();
    // the cell to the left held a character
    assert_eq!(writer.column_position(), 3);
    writer.move_right();
    // the cell to the left is empty now
    assert_eq!(writer.column_position(), 3);
}

#[test]
fn move_right_needs_a_cell_to_go_to() {
    let mut writer = Writer::new();
    writer.write_string(&"x".repeat(79));
    assert_eq!(writer.column_position(), 79);
    assert!(!writer.can_move_right());
}

#[test]
fn backspace_wipes_the_cell_before_the_cursor() {
    let mut writer = Writer::new();
    writer.write_string("ab");
    writer.backspace();
    assert_eq!(writer.column_position(), 1);
    assert_eq!(writer.row_into_string(0), "a");
    assert_eq!(writer.read(0, 1), ScreenChar { ascii_character: 0, color_code: CURSOR });
    writer.backspace();
    writer.backspace();
    assert_eq!(writer.column_position(), 0);
    assert_eq!(writer.row_into_string(0), "");
}

#[test]
fn set_column_position_moves_the_cursor() {
    let mut writer = Writer::new();
    writer.write_string("abc");
    writer.set_column_position(1);
    assert_eq!(writer.column_position(), 1);
    writer.write_byte(b'x');
    assert_eq!(writer.row_into_string(0), "axc");
}

#[test]
fn print_and_println() {
    let mut writer = Writer::new();
    print(&mut writer, "ab");
    platinium_os::console::println(&mut writer, "cd");
    assert_eq!(writer.row_into_string(0), "abcd");
    assert_eq!((writer.row_position(), writer.column_position()), (1, 0));
}

#[test]
fn error_is_light_red_and_leaves_white() {
    let mut writer = Writer::new();
    writer.change_color_code(ColorCode(0x02));
    error(&mut writer, "oops");
    assert_eq!(writer.row_into_string(0), "ERROR: oops");
    assert_eq!(writer.read(0, 0), ScreenChar { ascii_character: b'E', color_code: ColorCode(0x0c) });
    assert_eq!(writer.read(0, 10).color_code, ColorCode(0x0c));
    assert_eq!(writer.color_code(), WHITE);
    assert_eq!((writer.row_position(), writer.column_position()), (1, 0));
}

#[test]
fn warning_is_yellow_and_leaves_white() {
    let mut writer = Writer::new();
    warning(&mut writer, "careful");
    assert_eq!(writer.row_into_string(0), "careful");
    assert_eq!(writer.read(0, 0).color_code, ColorCode(0x0e));
    assert_eq!(writer.color_code(), WHITE);
}

#[test]
fn checked_writes_refuse_what_does_not_fit() {
    let mut writer = Writer::new();
    writer.write_string(&"x".repeat(75));
    assert_eq!(try_print(&mut writer, "abcde"), Err(Fault::ColumnOutOfBounds));
    assert_eq!(try_println(&mut writer, "abcde"), Err(Fault::ColumnOutOfBounds));
    assert_eq!(try_error(&mut writer, "a"), Err(Fault::ColumnOutOfBounds));
    assert_eq!(try_warning(&mut writer, "abcde"), Err(Fault::ColumnOutOfBounds));
    // nothing was written and the colours are as they were
    assert_eq!(writer.column_position(), 75);
    assert_eq!(writer.color_code(), WHITE);
    assert_eq!(try_print(&mut writer, "abc"), Ok(()));
    assert_eq!(writer.column_position(), 78);
    assert_eq!(try_warning(&mut writer, "d"), Ok(()));
    assert_eq!(writer.column_position(), 0);
}

#[test]
fn panic_report_is_light_red_for_good() {
    let mut writer = Writer::new();
    report_panic(&mut writer, "panicked at main");
    assert_eq!(writer.row_into_string(0), "panicked at main");
    assert_eq!(writer.color_code(), ColorCode(0x0c));
    let mut full = Writer::new();
    full.write_string(&"x".repeat(79));
    report_panic(&mut full, "no room");
    assert_eq!(full.color_code(), ColorCode(0x0c));
    assert_eq!(full.row_position(), 0);
}
