use kernel_core::vga_buffer::Color;
use kernel_core::vga_buffer::ColorCode;
use kernel_core::vga_buffer::ScreenChar;
use kernel_core::vga_buffer::Writer;
use kernel_core::vga_buffer::_print;

fn empty_char() -> ScreenChar {
    ScreenChar { ascii_character: b' ', color_code: ColorCode::new(Color::Blue, Color::Yellow) }
}

fn construct_writer() -> Writer {
    Writer::new(ColorCode::new(Color::Yellow, Color::Blue), empty_char())
}

#[test]
fn write_byte() {
    let mut writer = construct_writer();

    writer.write_byte(b'X');
    writer.write_byte(b'Y');
    writer.write_byte(b'\n');
    writer.write_byte(b'Z');

    for i in 0..25 {
        for j in 0..80 {
            let screen_char = writer.char_at(i, j);
            if i == 0 && j == 0 {
                assert_eq!(screen_char.ascii_character, b'X');
                assert_eq!(screen_char.color_code, writer.color_code);
            } else if i == 0 && j == 1 {
                assert_eq!(screen_char.ascii_character, b'Y');
                assert_eq!(screen_char.color_code, writer.color_code);
            } else if i == 1 && j == 0 {
                assert_eq!(screen_char.ascii_character, b'Z');
                assert_eq!(screen_char.color_code, writer.color_code);
            } else {
                assert_eq!(screen_char, empty_char());
            }
        }
    }
}

#[test]
fn write_string() {
    let mut writer = construct_writer();

    writer.write_string("The big brown fox jumps over the lazy god. ");
    writer.write_string("Lorem ipsum dolor sit amet consectetur adipiscing elit.");
    writer.write_byte(b'\n');
    writer.write_string("The big brown fox jumps over the lazy god. ");
    writer.write_string("Lorem ipsum dolor sit amet consectetur adipiscing elit. ");
    writer.write_string("The big brown fox jumps over the lazy god. ");
    writer.write_string("Lorem ipsum dolor sit amet consectetur adipiscing elit.");

    for i in 0..25 {
        for j in 0..80 {
            let screen_char = writer.char_at(i, j);
            if i == 0 && j == 79 {
                assert_eq!(screen_char.ascii_character, b'u');
                assert_eq!(screen_char.color_code, writer.color_code);
            } else if i == 1 && j == 0 {
                assert_eq!(screen_char.ascii_character, b'r');
                assert_eq!(screen_char.color_code, writer.color_code);
            } else if i == 2 && j == 0 {
                assert_eq!(screen_char.ascii_character, b'T');
                assert_eq!(screen_char.color_code, writer.color_code);
            } else if i == 4 && j == 0 {
                assert_eq!(screen_char.ascii_character, b's');
                assert_eq!(screen_char.color_code, writer.color_code);
            } else if (i == 1 && j > 17) || (i == 4 && j > 36) || i > 4 {
                assert_eq!(screen_char, empty_char());
            }
        }
    }
}

#[test]
fn color_code_packs_background_high() {
    assert_eq!(ColorCode::new(Color::Yellow, Color::Black).0, 14);
    assert_eq!(ColorCode::new(Color::White, Color::Blue).0, (1 << 4) | 15);
    assert_eq!(ColorCode::new(Color::Black, Color::White).0, 15 << 4);
}

#[test]
fn unprintable_bytes_show_replacement() {
    let mut writer = construct_writer();
    // a two-byte encoded character arrives as two unprintable bytes
    writer.write_string("\u{e9}");
    assert_eq!(writer.char_at(0, 0).ascii_character, 0xfe);
    assert_eq!(writer.char_at(0, 1).ascii_character, 0xfe);
    assert_eq!(writer.char_at(0, 2), empty_char());
}

#[test]
fn line_wrap_at_column_limit() {
    let mut writer = construct_writer();
    for _ in 0..81 {
        writer.write_byte(b'a');
    }
    assert_eq!(writer.char_at(0, 79).ascii_character, b'a');
    assert_eq!(writer.char_at(1, 0).ascii_character, b'a');
    assert_eq!(writer.char_at(1, 1), empty_char());
}

#[test]
fn scroll_moves_rows_up() {
    let mut writer = construct_writer();
    // fill 26 lines; the first line scrolls off the top
    for n in 0..26 {
        let byte = b'A' + (n % 26) as u8;
        writer.write_byte(byte);
        writer.write_byte(b'\n');
    }
    // after scrolling once, row 0 shows the second line written
    assert_eq!(writer.char_at(0, 0).ascii_character, b'B');
    assert_eq!(writer.char_at(24, 0).ascii_character, b'Z');
    // the freed bottom row was cleared in the writer's colour
    assert_eq!(writer.char_at(24, 1).ascii_character, b' ');
    assert_eq!(writer.char_at(24, 1).color_code, writer.color_code);
}

#[test]
fn print_forwards_to_writer() {
    let mut writer = construct_writer();
    _print(&mut writer, "ok");
    assert_eq!(writer.char_at(0, 0).ascii_character, b'o');
    assert_eq!(writer.char_at(0, 1).ascii_character, b'k');
}
