use timestampname::extractor::input::Input;
use timestampname::extractor::input::InputError;
use timestampname::extractor::inputbox::InputBox;
use timestampname::extractor::Endianness;

fn source(bytes: &[u8]) -> InputBox {
    InputBox::create("data.bin".to_string(), "bin".to_string(), bytes.to_vec())
}

#[test]
fn input_box_keeps_what_it_was_given() {
    let held = source(&[1, 2, 3]);
    assert_eq!(held.name(), "data.bin");
    assert_eq!(held.ext(), "bin");
    assert_eq!(held.size(), 3);
    assert_eq!(held.file(), &vec![1, 2, 3]);
}

#[test]
fn whole_file_view() {
    let held = source(&[1, 2, 3, 4, 5]);
    let input = Input::create(&held);
    assert_eq!(input.offset(), 0);
    assert_eq!(input.limit(), 5);
    assert_eq!(input.cursor(), 0);
    assert_eq!(input.name(), "data.bin");
    assert_eq!(input.ext(), "bin");
}

#[test]
fn integers_in_both_byte_orders() {
    let held = source(&[0x12, 0x34, 0x56, 0x78, 0x9a, 0xbc, 0xde, 0xf0, 0xff]);
    let mut input = Input::create(&held);
    assert_eq!(input.read_u16(&Endianness::Big), Ok(0x1234));
    assert_eq!(input.cursor(), 2);
    assert_eq!(input.read_u16(&Endianness::Little), Ok(0x7856));
    assert_eq!(input.seek(0), Ok(()));
    assert_eq!(input.read_u32(&Endianness::Big), Ok(0x1234_5678));
    assert_eq!(input.read_u32(&Endianness::Little), Ok(0xf0de_bc9a));
    assert_eq!(input.cursor(), 8);
    assert_eq!(input.seek(0), Ok(()));
    assert_eq!(input.read_u64(&Endianness::Big), Ok(0x1234_5678_9abc_def0));
    assert_eq!(input.seek(0), Ok(()));
    assert_eq!(input.read_u64(&Endianness::Little), Ok(0xf0de_bc9a_7856_3412));
}

#[test]
fn a_read_must_end_before_the_limit() {
    let held = source(&[1, 2, 3, 4]);
    let mut input = Input::create(&held);
    assert_eq!(
        input.read_u32(&Endianness::Big),
        Err(InputError::Eof { requested: 4, position: 0, limit: 4 })
    );
    assert_eq!(input.cursor(), 0);
    assert_eq!(input.read_u16(&Endianness::Big), Ok(0x0102));
    assert_eq!(
        input.read_u16(&Endianness::Big),
        Err(InputError::Eof { requested: 2, position: 2, limit: 4 })
    );
    assert_eq!(
        input.read_u64(&Endianness::Big),
        Err(InputError::Eof { requested: 8, position: 2, limit: 4 })
    );
    assert_eq!(input.cursor(), 2);
}

#[test]
fn text_is_read_as_utf8() {
    let held = source("Exif\u{e9}z!".as_bytes());
    let mut input = Input::create(&held);
    assert_eq!(input.read_string(4), Ok("Exif".to_string()));
    assert_eq!(input.cursor(), 4);
    assert_eq!(input.read_string(0), Ok(String::new()));
    assert_eq!(input.read_string(1), Err(InputError::InvalidText));
    assert_eq!(input.cursor(), 4);
    assert_eq!(input.read_string(3), Ok("\u{e9}z".to_string()));
    assert_eq!(
        input.read_string(1),
        Err(InputError::Eof { requested: 1, position: 7, limit: 8 })
    );
}

#[test]
fn seek_and_skip() {
    let held = source(&[0; 10]);
    let mut input = Input::create(&held);
    assert_eq!(input.seek(9), Ok(()));
    assert_eq!(input.cursor(), 9);
    assert_eq!(input.seek(10), Err(InputError::SeekEof { position: 10, limit: 10 }));
    assert_eq!(input.cursor(), 9);
    assert_eq!(input.seek(3), Ok(()));
    assert_eq!(input.ff(4), Ok(()));
    assert_eq!(input.cursor(), 7);
    assert_eq!(input.ff(3), Err(InputError::SeekEof { position: 10, limit: 10 }));
    assert_eq!(
        input.ff(u64::MAX),
        Err(InputError::SkipOverflow { position: 7, length: u64::MAX })
    );
    assert_eq!(input.cursor(), 7);
}

#[test]
fn section_starts_at_the_cursor() {
    let held = source(&[0, 1, 2, 3, 4, 5, 6, 7, 8, 9]);
    let mut input = Input::create(&held);
    assert_eq!(input.seek(2), Ok(()));
    let mut outer = input.section(6);
    assert_eq!((outer.offset(), outer.limit(), outer.cursor()), (2, 6, 0));
    assert_eq!(input.cursor(), 2);
    assert_eq!(outer.seek(1), Ok(()));
    let mut inner = outer.section(4);
    assert_eq!((inner.offset(), inner.limit(), inner.cursor()), (3, 4, 0));
    assert_eq!(inner.read_u16(&Endianness::Big), Ok(0x0304));
    assert_eq!(inner.name(), "data.bin");
}

#[test]
fn reads_stay_inside_a_section() {
    let held = source(&[0, 1, 2, 3, 4, 5, 6, 7, 8, 9]);
    let mut input = Input::create(&held);
    assert_eq!(input.seek(2), Ok(()));
    let mut section = input.section(4);
    assert_eq!(section.read_u16(&Endianness::Big), Ok(0x0203));
    assert_eq!(
        section.read_u16(&Endianness::Big),
        Err(InputError::Eof { requested: 2, position: 2, limit: 4 })
    );
    let mut section = input.section(4);
    assert_eq!(section.read_string(3), Ok("\u{2}\u{3}\u{4}".to_string()));
    assert_eq!(
        section.read_string(1),
        Err(InputError::Eof { requested: 1, position: 3, limit: 4 })
    );
    let mut section = input.section(4);
    assert_eq!(
        section.read_u32(&Endianness::Big),
        Err(InputError::Eof { requested: 4, position: 0, limit: 4 })
    );
    assert_eq!(section.seek(4), Err(InputError::SeekEof { position: 4, limit: 4 }));
}

#[test]
fn a_section_longer_than_the_file_is_truncated() {
    let held = source(&[b'a', b'b', b'c', b'd']);
    let mut input = Input::create(&held);
    assert_eq!(input.seek(2), Ok(()));
    let mut section = input.section(100);
    assert_eq!(section.read_u32(&Endianness::Big), Err(InputError::Truncated));
    assert_eq!(section.read_string(5), Err(InputError::ShortText));
    assert_eq!(section.cursor(), 0);
    assert_eq!(section.read_string(2), Ok("cd".to_string()));
    assert_eq!(section.read_u16(&Endianness::Big), Err(InputError::Truncated));
    assert_eq!(section.seek(50), Ok(()));
    assert_eq!(section.read_string(1), Err(InputError::ShortText));
    assert_eq!(section.read_string(0), Ok(String::new()));
}

#[test]
fn section_offsets_stop_at_the_largest_offset() {
    let held = source(&[0; 4]);
    let mut input = Input::create(&held);
    assert_eq!(input.seek(3), Ok(()));
    let mut wide = input.section(u64::MAX);
    assert_eq!(wide.seek(u64::MAX - 1), Ok(()));
    let mut beyond = wide.section(8);
    assert_eq!(beyond.offset(), u64::MAX);
    assert_eq!(beyond.read_u16(&Endianness::Big), Err(InputError::Truncated));
}

#[test]
fn input_errors_in_words() {
    assert_eq!(
        InputError::Eof { requested: 2, position: 7, limit: 8 }.message(),
        "EOF: reading 2 bytes from 7, input length: 8"
    );
    assert_eq!(
        InputError::SeekEof { position: 12, limit: 10 }.message(),
        "EOF: seeking position 12, input length: 10"
    );
    assert_eq!(
        InputError::SkipOverflow { position: 1, length: u64::MAX }.message(),
        "EOF: skipping 18446744073709551615 bytes from 1"
    );
    assert_eq!(InputError::Truncated.message(), "failed to fill whole buffer");
    assert_eq!(
        InputError::ShortText.message(),
        "string read result is shorter than expected"
    );
    assert_eq!(InputError::InvalidText.message(), "stream did not contain valid UTF-8");
    assert_eq!(
        InputError::ShortBox { size: 4, header: 8 }.message(),
        "box size 4 is less than its header of 8"
    );
}
