use kernel_core::interrupts::init_pics;
use kernel_core::keyboard::KeyText;
use kernel_core::keyboard::KeyboardDecoder;
use kernel_core::keyboard::write_decoded;
use kernel_core::pics::EndOfInterrupt;
use kernel_core::vga_buffer::Color;
use kernel_core::vga_buffer::ColorCode;
use kernel_core::vga_buffer::ScreenChar;
use kernel_core::vga_buffer::Writer;

fn fresh_writer() -> Writer {
    let color = ColorCode::new(Color::Yellow, Color::Black);
    Writer::new(color, ScreenChar { ascii_character: b' ', color_code: color })
}

#[test]
fn character_key_is_shown_and_acknowledged() {
    let mut keyboard = KeyboardDecoder::new();
    let mut writer = fresh_writer();
    let mut pics = init_pics();
    // scancode set 1: 0x1e is the make code of the A key
    let ack = keyboard.keyboard_interrupt_handler(0x1e, &mut writer, &mut pics);
    assert_eq!(ack, EndOfInterrupt::Primary);
    assert_eq!(writer.char_at(0, 0).ascii_character, b'a');
    assert_eq!(writer.char_at(0, 1).ascii_character, b' ');
}

#[test]
fn key_release_shows_nothing_but_still_acknowledges() {
    let mut keyboard = KeyboardDecoder::new();
    let mut writer = fresh_writer();
    let mut pics = init_pics();
    // 0x9e is the break code of the A key: no displayable output
    let ack = keyboard.keyboard_interrupt_handler(0x9e, &mut writer, &mut pics);
    assert_eq!(ack, EndOfInterrupt::Primary);
    assert_eq!(writer.char_at(0, 0).ascii_character, b' ');
}

#[test]
fn successive_keys_advance_the_cursor() {
    let mut keyboard = KeyboardDecoder::new();
    let mut writer = fresh_writer();
    let mut pics = init_pics();
    // scancode set 1 make codes: H, I
    keyboard.keyboard_interrupt_handler(0x23, &mut writer, &mut pics);
    keyboard.keyboard_interrupt_handler(0x17, &mut writer, &mut pics);
    assert_eq!(writer.char_at(0, 0).ascii_character, b'h');
    assert_eq!(writer.char_at(0, 1).ascii_character, b'i');
}

#[test]
fn write_decoded_shows_character_encoding() {
    let mut writer = fresh_writer();
    write_decoded(&mut writer, &KeyText::Unicode('x'));
    assert_eq!(writer.char_at(0, 0).ascii_character, b'x');
    // a character outside the code page is shown as replacement bytes
    write_decoded(&mut writer, &KeyText::Unicode('\u{e9}'));
    assert_eq!(writer.char_at(0, 1).ascii_character, 0xfe);
    assert_eq!(writer.char_at(0, 2).ascii_character, 0xfe);
}

#[test]
fn write_decoded_shows_key_name() {
    let mut writer = fresh_writer();
    write_decoded(&mut writer, &KeyText::Raw(String::from("AltLeft")));
    let expected = b"AltLeft";
    for (i, b) in expected.iter().enumerate() {
        assert_eq!(writer.char_at(0, i).ascii_character, *b);
    }
}
