use nixauth::reader::Reader;
use nixauth::writer::Writer;

#[test]
fn writer_appends_little_endian() {
    let mut writer = Writer::new();
    writer.append_u8(0xAB);
    writer.append_u16le(0x1234);
    writer.append_u32le(0xDEADBEEF);
    writer.append_bytes(b"xy");
    assert_eq!(writer.contents(), &[0xAB, 0x34, 0x12, 0xEF, 0xBE, 0xAD, 0xDE, b'x', b'y'][..]);
}

#[test]
fn reader_reads_back_what_was_written() {
    let bytes = [0xABu8, 0x34, 0x12, 0xEF, 0xBE, 0xAD, 0xDE, b'h', b'i', 0, 1, 2, 3];
    let mut reader = Reader::new(&bytes);
    assert_eq!(reader.read_u8(), Ok(0xAB));
    assert_eq!(reader.read_u16le(), Ok(0x1234));
    assert_eq!(reader.read_u32le(), Ok(0xDEADBEEF));
    let (reader, name) = reader.read_ascii_str();
    assert_eq!(name, Ok("hi"));
    let (reader, rest) = reader.read_bytes(3);
    assert_eq!(rest, Ok(&[1u8, 2, 3][..]));
    assert_eq!(reader.read_u8(), Err(()));
}

#[test]
fn short_reads_leave_the_reader_in_place() {
    let bytes = [1u8, 2, 3];
    let mut reader = Reader::new(&bytes);
    assert_eq!(reader.read_u32le(), Err(()));
    assert_eq!(reader.read_u16le(), Ok(0x0201));
    assert_eq!(reader.read_u16le(), Err(()));
    let (reader, too_long) = reader.read_bytes(2);
    assert_eq!(too_long, Err(()));
    assert_eq!(reader.read_u8(), Ok(3));
}

#[test]
fn ascii_string_needs_terminator_and_ascii() {
    let unterminated = [b'a', b'b'];
    let mut reader = Reader::new(&unterminated);
    let (reader, r) = reader.read_ascii_str();
    assert_eq!(r, Err(()));
    assert_eq!(reader.read_u8(), Ok(b'a'));

    let non_ascii = [b'a', 0xC3, 0xA9, 0];
    let mut reader = Reader::new(&non_ascii);
    let (reader, r) = reader.read_ascii_str();
    assert_eq!(r, Err(()));
    assert_eq!(reader.read_u8(), Ok(b'a'));

    let empty = [0u8, 7];
    let mut reader = Reader::new(&empty);
    let (reader, r) = reader.read_ascii_str();
    assert_eq!(r, Ok(""));
    assert_eq!(reader.read_u8(), Ok(7));
}
