use ircjournal::read::{bare, decode, find_last_line_feed, find_line_end, trim, LogReader};

#[test]
fn line_ends_just_past_its_line_feed() {
    let data = b"ab\ncd\n\nef";
    assert_eq!(find_line_end(data, 0), 3);
    assert_eq!(find_line_end(data, 1), 3);
    assert_eq!(find_line_end(data, 2), 3);
    assert_eq!(find_line_end(data, 3), 6);
    assert_eq!(find_line_end(data, 6), 7);
    assert_eq!(find_line_end(data, 7), 9);
    assert_eq!(find_line_end(data, 9), 9);
    assert_eq!(find_line_end(b"", 0), 0);
}

#[test]
fn last_line_feed_is_found_from_the_back() {
    assert_eq!(find_last_line_feed(b"ab\ncd\n\nef"), Some(6));
    assert_eq!(find_last_line_feed(b"ab\n"), Some(2));
    assert_eq!(find_last_line_feed(b"\n"), Some(0));
    assert_eq!(find_last_line_feed(b"abc"), None);
    assert_eq!(find_last_line_feed(b""), None);
}

#[test]
fn only_valid_utf8_is_text() {
    assert_eq!(decode(b"hello"), Some("hello"));
    assert_eq!(decode("ça rime pas".as_bytes()), Some("ça rime pas"));
    assert_eq!(decode(b""), Some(""));
    assert_eq!(decode(&[0xff]), None);
    assert_eq!(decode(&[b'a', 0xc3]), None);
    assert_eq!(decode(&[0xc0, 0x80]), None);
    assert_eq!(decode(&[0xed, 0xa0, 0x80]), None);
}

#[test]
fn trim_takes_the_line_end_off() {
    let data = b"one\ntwo\r\nthree\r\rfour";
    assert_eq!(trim(data, 0, 4), Some("one"));
    assert_eq!(trim(data, 4, 9), Some("two"));
    assert_eq!(trim(data, 9, 20), Some("three\r\rfour"));
    assert_eq!(trim(data, 9, 16), Some("three\r\r"));
    assert_eq!(trim(data, 3, 4), Some(""));
    assert_eq!(trim(data, 7, 9), Some(""));
    assert_eq!(trim(data, 2, 2), Some(""));
    assert_eq!(trim(&[0xff, b'\n'], 0, 2), None);
}

#[test]
fn reader_keeps_its_position_within_the_file() {
    let mut reader = LogReader::new(b"hello\nworld\n".to_vec());
    assert_eq!(reader.position(), 0);
    assert_eq!(reader.len(), 12);
    assert_eq!(reader.bytes(), b"hello\nworld\n");
    reader.seek(6);
    assert_eq!(reader.position(), 6);
    reader.seek(12);
    assert_eq!(reader.position(), 12);
    reader.seek(13);
    assert_eq!(reader.position(), 12);
    reader.seek(0);
    assert_eq!(reader.seek_end(), 12);
    assert_eq!(reader.position(), 12);
    assert_eq!(reader.bytes(), b"hello\nworld\n");
}

#[test]
fn bare_takes_the_line_feed_off_and_nothing_else() {
    let data = b"one\ntwo\r\nthree\n\nfour";
    assert_eq!(bare(data, 0, 4), Some("one"));
    assert_eq!(bare(data, 0, 3), Some("one"));
    assert_eq!(bare(data, 4, 9), Some("two\r"));
    assert_eq!(bare(data, 9, 16), Some("three\n"));
    assert_eq!(bare(data, 15, 16), Some(""));
    assert_eq!(bare(data, 16, 20), Some("four"));
    assert_eq!(bare(data, 2, 2), Some(""));
    assert_eq!(bare(&[0xff, b'\n'], 0, 2), None);
    assert_eq!(bare("é".as_bytes(), 0, 2), Some("é"));
}
