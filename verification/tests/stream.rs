use textutils::lines::find_line_end;
use textutils::number::{decimal_len, push_column, push_decimal, push_spaces};
use textutils::reader::Reader;
use textutils::source::{push_failure_line, resolve, Source};
use textutils::uniq::Config;

#[test]
fn a_line_ends_after_its_terminator() {
    let data = b"ab\ncd\n\nlast";
    assert_eq!(find_line_end(data, 0), 3);
    assert_eq!(find_line_end(data, 1), 3);
    assert_eq!(find_line_end(data, 2), 3);
    assert_eq!(find_line_end(data, 3), 6);
    assert_eq!(find_line_end(data, 6), 7);
    assert_eq!(find_line_end(data, 7), 11);
    assert_eq!(find_line_end(data, 11), 11);
    assert_eq!(find_line_end(data, 12), 11);
    assert_eq!(find_line_end(data, usize::MAX), 11);
    assert_eq!(find_line_end(b"", 0), 0);
}

#[test]
fn the_reader_hands_out_lines() {
    let mut reader = Reader::new(b"one\ntwo\r\n\nlast");
    assert_eq!(reader.remaining(), 14);
    assert_eq!(reader.next_line(), Some("one\n".to_string()));
    assert_eq!(reader.remaining(), 10);
    assert_eq!(reader.next_line(), Some("two\r\n".to_string()));
    assert_eq!(reader.next_line(), Some("\n".to_string()));
    assert_eq!(reader.next_line(), Some("last".to_string()));
    assert_eq!(reader.remaining(), 0);
    assert_eq!(reader.next_line(), None);
    assert_eq!(reader.next_line(), None);
}

#[test]
fn the_reader_decodes_each_line_by_itself() {
    let mut reader = Reader::new(b"\xe2\x82\n\xac\xff\n\xe2\x82\xac");
    assert_eq!(reader.next_line(), Some("\u{fffd}\n".to_string()));
    assert_eq!(reader.next_line(), Some("\u{fffd}\u{fffd}\n".to_string()));
    assert_eq!(reader.next_line(), Some("\u{20ac}".to_string()));
    assert_eq!(reader.next_line(), None);
}

#[test]
fn the_reader_hands_out_raw_bytes() {
    let data = "d\u{e9}j\u{e0}\nvu".as_bytes();
    let mut reader = Reader::new(data);
    assert_eq!(reader.read_bytes(2), vec![b'd', 0xc3]);
    assert_eq!(reader.remaining(), 7);
    assert_eq!(reader.read_bytes(0), Vec::<u8>::new());
    assert_eq!(reader.next_line(), Some("\u{fffd}j\u{e0}\n".to_string()));
    assert_eq!(reader.read_bytes(100), b"vu".to_vec());
    assert_eq!(reader.read_bytes(100), Vec::<u8>::new());
    assert_eq!(reader.remaining(), 0);
}

#[test]
fn a_read_of_n_bytes_returns_n_bytes() {
    let data = "\u{1f600}\u{1f600}\n".as_bytes();
    for n in 0..=data.len() {
        let out = Reader::new(data).read_bytes(n);
        assert_eq!(out.len(), n);
        assert_eq!(out, data[..n].to_vec());
    }
    assert_eq!(Reader::new(data).read_bytes(data.len() + 1).len(), data.len());
    assert_eq!(Reader::new(data).read_bytes(usize::MAX).len(), data.len());
}

#[test]
fn numbers_are_written_in_decimal() {
    for n in [0, 1, 9, 10, 11, 99, 100, 12345, 1_000_000, usize::MAX] {
        let mut out = String::from(">");
        push_decimal(&mut out, n);
        assert_eq!(out, format!(">{}", n));
        assert_eq!(decimal_len(n), n.to_string().len());
    }
}

#[test]
fn columns_are_right_aligned() {
    for (n, width) in [(0, 0), (0, 1), (7, 6), (123456, 6), (1234567, 6), (42, 8), (5, 3)] {
        let mut out = String::from("|");
        push_column(&mut out, n, width);
        assert_eq!(out, format!("|{:>1$}", n, width));
    }
    let mut out = String::new();
    push_column(&mut out, 1, 6);
    assert_eq!(out, "     1");
    let mut out = String::from("ab");
    push_spaces(&mut out, 3);
    assert_eq!(out, "ab   ");
    push_spaces(&mut out, 0);
    assert_eq!(out, "ab   ");
}

#[test]
fn a_dash_selects_the_standard_input() {
    assert_eq!(resolve("-"), Source::Stdin);
    assert_eq!(resolve("file.txt"), Source::File("file.txt".to_string()));
    assert_eq!(resolve("--"), Source::File("--".to_string()));
    assert_eq!(resolve(""), Source::File("".to_string()));
    assert_eq!(resolve("./-"), Source::File("./-".to_string()));
    assert_eq!(resolve("\u{2212}"), Source::File("\u{2212}".to_string()));
}

#[test]
fn a_failure_is_reported_on_one_line() {
    let mut err = String::from("earlier\n");
    push_failure_line(&mut err, "missing.txt", "No such file or directory (os error 2)");
    assert_eq!(err, "earlier\nmissing.txt: No such file or directory (os error 2)\n");
}

#[test]
fn a_configuration_keeps_its_parts() {
    let config = Config::new("-".to_string(), Some("out.txt".to_string()), true);
    assert_eq!(config.input_file, "-");
    assert_eq!(config.output_file, Some("out.txt".to_string()));
    assert!(config.count);
    let config = Config::new("in.txt".to_string(), None, false);
    assert_eq!(config.input_file, "in.txt");
    assert_eq!(config.output_file, None);
    assert!(!config.count);
}

#[test]
fn valid_text_decodes_to_itself() {
    let text = "plain, d\u{e9}j\u{e0} vu, \u{20ac}, \u{1f600}\n";
    assert_eq!(textutils::text::decode(text.as_bytes()), text);
    assert_eq!(textutils::text::decode(b""), "");
}

#[test]
fn invalid_sequences_decode_to_replacements() {
    assert_eq!(textutils::text::decode(b"a\xffb"), "a\u{fffd}b");
    assert_eq!(textutils::text::decode(b"\xc3"), "\u{fffd}");
    assert_eq!(textutils::text::decode(b"\xed\xa0\x80"), "\u{fffd}\u{fffd}\u{fffd}");
    assert_eq!(textutils::text::decode(b"\xc0\x80"), "\u{fffd}\u{fffd}");
    assert_eq!(textutils::text::decode(b"\xf0\x9f\x98x"), "\u{fffd}x");
}
