use unpak::text::strip_terminator;
use unpak::{Error, IoKind, Reader};

fn eof() -> Error {
    Error::Io(IoKind::UnexpectedEof)
}

#[test]
fn integers_are_little_endian() {
    let data = [0x01u8, 0x02, 0x03, 0x04, 0x05, 0x06, 0x07, 0x08, 0x09];
    let mut r = Reader::new(&data);
    assert_eq!(r.read_u8(), Ok(0x01));
    assert_eq!(r.stream_position(), 1);
    let mut r = Reader::new(&data);
    assert_eq!(r.read_u16(), Ok(0x0201));
    assert_eq!(r.stream_position(), 2);
    let mut r = Reader::new(&data);
    assert_eq!(r.read_u32(), Ok(0x04030201));
    assert_eq!(r.stream_position(), 4);
    let mut r = Reader::new(&data);
    assert_eq!(r.read_u64(), Ok(0x0807060504030201));
    assert_eq!(r.stream_position(), 8);
    assert_eq!(r.read_u8(), Ok(0x09));
    assert_eq!(r.read_u8(), Err(eof()));
    let wide: Vec<u8> = (1..=17).collect();
    let mut r = Reader::new(&wide);
    assert_eq!(r.read_u128(), Ok(0x100f0e0d0c0b0a090807060504030201));
    assert_eq!(r.stream_position(), 16);
    assert_eq!(r.read_u128(), Err(eof()));
}

#[test]
fn signed_lengths() {
    let mut r = Reader::new(&[0xff, 0xff, 0xff, 0xff]);
    assert_eq!(r.read_i32(), Ok(-1));
    let mut r = Reader::new(&[0x00, 0x00, 0x00, 0x80]);
    assert_eq!(r.read_i32(), Ok(i32::MIN));
    let mut r = Reader::new(&[0xff, 0xff, 0xff, 0x7f]);
    assert_eq!(r.read_i32(), Ok(i32::MAX));
    let mut r = Reader::new(&[0xfe, 0xff, 0xff, 0xff]);
    assert_eq!(r.read_i32(), Ok(-2));
}

#[test]
fn reads_past_the_end_fail() {
    let data = [1u8, 2, 3];
    assert_eq!(Reader::new(&data).read_u32(), Err(eof()));
    assert_eq!(Reader::new(&data).read_u64(), Err(eof()));
    assert_eq!(Reader::new(&data).read_i32(), Err(eof()));
    assert_eq!(Reader::new(&data[..1]).read_u16(), Err(eof()));
    assert_eq!(Reader::new(&[]).read_u8(), Err(eof()));
    assert_eq!(Reader::new(&[]).read_bool(), Err(eof()));
    assert_eq!(Reader::new(&data).read_len(4), Err(eof()));
    assert_eq!(Reader::new(&data).read_guid(), Err(eof()));
    assert_eq!(Reader::new(&data).read_hash(), Err(eof()));
    let mut r = Reader::new(&data);
    r.seek(10);
    assert_eq!(r.read_u8(), Err(eof()));
    assert_eq!(r.read_len(0), Err(eof()));
    let mut r = Reader::new(&data);
    r.seek(u64::MAX);
    assert_eq!(r.read_len(u64::MAX), Err(eof()));
}

#[test]
fn bool_is_strict() {
    assert_eq!(Reader::new(&[0]).read_bool(), Ok(false));
    assert_eq!(Reader::new(&[1]).read_bool(), Ok(true));
    assert_eq!(Reader::new(&[2]).read_bool(), Err(Error::Bool(2)));
    assert_eq!(Reader::new(&[255]).read_bool(), Err(Error::Bool(255)));
    for n in 2..=255u8 {
        assert_eq!(Reader::new(&[n]).read_bool(), Err(Error::Bool(n)));
    }
}

#[test]
fn guid_and_hash_widths() {
    let data = [7u8; 40];
    let mut r = Reader::new(&data);
    assert_eq!(r.read_guid(), Ok(()));
    assert_eq!(r.stream_position(), 16);
    assert_eq!(r.read_hash(), Ok(()));
    assert_eq!(r.stream_position(), 36);
    assert_eq!(r.skip(4), Ok(()));
    assert_eq!(r.stream_position(), 40);
    assert_eq!(r.skip(1), Err(eof()));
}

#[test]
fn read_len_and_take_copy_the_bytes() {
    let data = [10u8, 11, 12, 13, 14];
    let mut r = Reader::new(&data);
    r.seek(1);
    assert_eq!(r.read_len(3), Ok(vec![11, 12, 13]));
    assert_eq!(r.stream_position(), 4);
    assert_eq!(r.take(1), Ok(&data[4..5]));
    assert_eq!(r.take(0), Ok(&data[5..5]));
    assert_eq!(r.len(), 5);
}

#[test]
fn utf8_string_loses_its_terminator() {
    let mut data = vec![6, 0, 0, 0];
    data.extend_from_slice(b"hello\0");
    data.push(0x99);
    let mut r = Reader::new(&data);
    assert_eq!(r.read_string(), Ok("hello".to_string()));
    assert_eq!(r.stream_position(), 10);
}

#[test]
fn utf8_string_with_multibyte_characters() {
    let text = "gr\u{fc}\u{df}e \u{4e16}\u{754c} \u{1f600}\0";
    let mut data = (text.len() as i32).to_le_bytes().to_vec();
    data.extend_from_slice(text.as_bytes());
    let mut r = Reader::new(&data);
    assert_eq!(r.read_name(), Ok("gr\u{fc}\u{df}e \u{4e16}\u{754c} \u{1f600}".to_string()));
    assert_eq!(r.stream_position() as usize, data.len());
}

#[test]
fn empty_string() {
    let mut r = Reader::new(&[0, 0, 0, 0, 9]);
    assert_eq!(r.read_string(), Ok(String::new()));
    assert_eq!(r.stream_position(), 4);
}

#[test]
fn last_character_is_dropped_whatever_it_is() {
    let mut data = vec![3, 0, 0, 0];
    data.extend_from_slice(b"abc");
    assert_eq!(Reader::new(&data).read_string(), Ok("ab".to_string()));
}

#[test]
fn utf16_string() {
    // "h\u{e9}\u{1f600}" and a NUL: 5 code units
    let units: Vec<u16> = "h\u{e9}\u{1f600}\0".encode_utf16().collect();
    assert_eq!(units.len(), 5);
    let mut data = (-5i32).to_le_bytes().to_vec();
    for u in &units {
        data.extend_from_slice(&u.to_le_bytes());
    }
    data.push(1);
    let mut r = Reader::new(&data);
    assert_eq!(r.read_string(), Ok("h\u{e9}\u{1f600}".to_string()));
    assert_eq!(r.stream_position(), 14);
}

#[test]
fn invalid_utf8_is_refused() {
    let data = [2u8, 0, 0, 0, 0xff, 0x00];
    assert_eq!(Reader::new(&data).read_string(), Err(Error::Utf8));
    let data = [2u8, 0, 0, 0, 0xc3, 0x28];
    assert_eq!(Reader::new(&data).read_string(), Err(Error::Utf8));
}

#[test]
fn invalid_utf16_is_refused() {
    // a lone high surrogate
    let data = [0xffu8, 0xff, 0xff, 0xff, 0x00, 0xd8];
    assert_eq!(Reader::new(&data).read_string(), Err(Error::Utf16));
    // a low surrogate first
    let data = [0xfeu8, 0xff, 0xff, 0xff, 0x00, 0xdc, 0x41, 0x00];
    assert_eq!(Reader::new(&data).read_string(), Err(Error::Utf16));
}

#[test]
fn string_that_is_cut_short() {
    let data = [5u8, 0, 0, 0, b'a', b'b'];
    assert_eq!(Reader::new(&data).read_string(), Err(eof()));
    let data = [0xfeu8, 0xff, 0xff, 0xff, 0x41, 0x00, 0x42];
    assert_eq!(Reader::new(&data).read_string(), Err(eof()));
    let data = [5u8, 0, 0];
    assert_eq!(Reader::new(&data).read_string(), Err(eof()));
    // the most negative length
    let data = [0u8, 0, 0, 0x80, 1, 2, 3, 4];
    assert_eq!(Reader::new(&data).read_string(), Err(eof()));
}

#[test]
fn strip_terminator_drops_one_character() {
    assert_eq!(strip_terminator("abc\0".to_string()), "abc");
    assert_eq!(strip_terminator("\u{1f600}".to_string()), "");
    assert_eq!(strip_terminator(String::new()), "");
    assert_eq!(strip_terminator("a\0\0".to_string()), "a\0");
}
