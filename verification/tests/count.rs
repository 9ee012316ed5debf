use textutils::reader::Reader;
use textutils::source::OpenError;
use textutils::wc::{count, count_line, Config, CountError, FileInfo};
use textutils::words::count_words;

fn counts(text: &[u8]) -> FileInfo {
    count(Reader::new(text)).unwrap()
}

fn info(num_lines: usize, num_words: usize, num_bytes: usize, num_chars: usize) -> FileInfo {
    FileInfo { num_lines, num_words, num_bytes, num_chars }
}

#[test]
fn test_count() {
    let text = "I don't want the world. I just want your half.\r\n";
    let info = count(Reader::new(text.as_bytes()));
    assert!(info.is_ok());
    let expected = FileInfo {
        num_lines: 1,
        num_words: 10,
        num_chars: 48,
        num_bytes: 48,
    };
    assert_eq!(info.unwrap(), expected);
}

#[test]
fn count_of_nothing_is_zero() {
    assert_eq!(counts(b""), info(0, 0, 0, 0));
    assert_eq!(FileInfo::zero(), info(0, 0, 0, 0));
}

#[test]
fn lines_follow_the_terminators() {
    assert_eq!(counts(b"a\nb\n").num_lines, 2);
    assert_eq!(counts(b"a\nb").num_lines, 2);
    assert_eq!(counts(b"a\nb\nc").num_lines, 3);
    assert_eq!(counts(b"\n\n\n").num_lines, 3);
    assert_eq!(counts(b"no terminator").num_lines, 1);
    assert_eq!(counts(b"one\r\ntwo\r\n").num_lines, 2);
    assert_eq!(counts(b"a\rb").num_lines, 1);
}

#[test]
fn runs_of_spaces_separate_once() {
    assert_eq!(count_words("a  b"), 2);
    assert_eq!(count_words("a b"), 2);
    assert_eq!(count_words("  a   b  "), 2);
    assert_eq!(count_words(""), 0);
    assert_eq!(count_words("    "), 0);
    assert_eq!(count_words("word"), 1);
    assert_eq!(counts(b"a  b").num_words, 2);
}

#[test]
fn only_the_space_separates_words() {
    assert_eq!(count_words("a\tb"), 1);
    assert_eq!(count_words("a \t b"), 3);
    assert_eq!(count_words("\n"), 1);
    assert_eq!(count_words(" \n"), 1);
}

#[test]
fn words_are_counted_line_by_line() {
    assert_eq!(counts(b"a\nb").num_words, 2);
    assert_eq!(counts(b"a\n b").num_words, 2);
    assert_eq!(counts(b"one two\nthree\n").num_words, 3);
}

#[test]
fn bytes_exceed_chars_for_wide_characters() {
    let text = "h\u{e9}llo w\u{f6}rld \u{1f600}\n";
    let info = counts(text.as_bytes());
    assert_eq!(info.num_bytes, text.len());
    assert_eq!(info.num_chars, text.chars().count());
    assert_eq!(info.num_bytes, 19);
    assert_eq!(info.num_chars, 14);
    assert!(info.num_bytes > info.num_chars);
}

#[test]
fn bytes_equal_chars_for_ascii() {
    let info = counts(b"plain text\nof two lines\n");
    assert_eq!(info, self::info(2, 5, 24, 24));
}

#[test]
fn invalid_bytes_count_as_replacement_characters() {
    let info = counts(b"a\xffb\n");
    assert_eq!(info.num_lines, 1);
    assert_eq!(info.num_words, 1);
    assert_eq!(info.num_chars, 4);
    assert_eq!(info.num_bytes, 6);
}

#[test]
fn one_line_is_counted_by_itself() {
    assert_eq!(count_line("two words\n"), info(1, 2, 10, 10));
    assert_eq!(count_line(""), info(1, 0, 0, 0));
    assert_eq!(count_line("\u{e9}"), info(1, 1, 2, 1));
}

#[test]
fn sums_are_checked() {
    let a = info(1, 2, 3, 4);
    let b = info(10, 20, 30, 40);
    assert_eq!(a.checked_add(&b), Some(info(11, 22, 33, 44)));
    let big = info(0, 0, usize::MAX, 0);
    assert_eq!(big.checked_add(&a), None);
    assert_eq!(big.checked_add(&info(5, 5, 0, 5)), Some(info(5, 5, usize::MAX, 5)));
}

#[test]
fn overflow_has_a_message() {
    assert_eq!(CountError::Overflow.message(), "count out of range");
}

#[test]
fn no_requested_count_means_lines_words_bytes() {
    let config = Config::new(vec!["-".to_string()], false, false, false, false);
    assert!(config.lines && config.words && config.bytes && !config.chars);
    assert_eq!(config.files, vec!["-".to_string()]);
    let config = Config::new(vec![], false, false, false, true);
    assert!(!config.lines && !config.words && !config.bytes && config.chars);
    let config = Config::new(vec![], true, false, true, false);
    assert!(config.lines && !config.words && config.bytes && !config.chars);
}

#[test]
fn a_record_has_one_column_per_requested_count() {
    let config = Config::new(vec![], false, false, false, false);
    let mut out = String::new();
    textutils::wc::push_report_line(&mut out, &config, &info(1, 10, 48, 48), "fox.txt");
    assert_eq!(out, "       1      10      48 fox.txt\n");
    let config = Config::new(vec![], true, true, true, true);
    let mut out = String::from("x");
    textutils::wc::push_report_line(&mut out, &config, &info(1, 2, 3, 123456789), "-");
    assert_eq!(out, "x       1       2       3123456789 -\n");
    let config = Config::new(vec![], false, false, false, true);
    let mut out = String::new();
    textutils::wc::push_report_line(&mut out, &config, &info(1, 2, 3, 4), "f");
    assert_eq!(out, "       4 f\n");
}

#[test]
fn a_single_source_has_no_total() {
    let config = Config::new(vec!["a.txt".to_string()], false, false, false, false);
    let inputs = vec![Ok(b"one two\nthree\n".to_vec())];
    let emission = textutils::wc::run(&config, &inputs);
    assert_eq!(emission.out, "       2       3      14 a.txt\n");
    assert_eq!(emission.err, "");
}

#[test]
fn a_batch_is_summed_up() {
    let files = vec!["a".to_string(), "b".to_string()];
    let config = Config::new(files, true, true, true, true);
    let inputs = vec![Ok(b"one two\n".to_vec()), Ok("d\u{e9}j\u{e0} vu".as_bytes().to_vec())];
    let emission = textutils::wc::run(&config, &inputs);
    assert_eq!(
        emission.out,
        "       1       2       8       8 a\n       1       2       9       7 b\n       2       4      17      15 total\n"
    );
    assert_eq!(emission.err, "");
}

#[test]
fn a_failed_source_is_left_out_of_the_total() {
    let files = vec!["a".to_string(), "missing".to_string(), "c".to_string()];
    let config = Config::new(files, true, false, false, false);
    let failure = OpenError { source: "missing".to_string(), cause: "not found".to_string() };
    let inputs = vec![Ok(b"1\n2\n".to_vec()), Err(failure), Ok(b"3\n".to_vec())];
    let emission = textutils::wc::run(&config, &inputs);
    assert_eq!(emission.out, "       2 a\n       1 c\n       3 total\n");
    assert_eq!(emission.err, "missing: not found\n");
}

#[test]
fn words_and_chars_come_from_one_pass() {
    assert_eq!(textutils::words::count_words_and_chars("d\u{e9}j\u{e0}  vu\n"), (2, 9));
    assert_eq!(textutils::words::count_words_and_chars(""), (0, 0));
}

#[test]
fn ascii_has_one_byte_per_character() {
    let mut data = Vec::new();
    for byte in 0u8..=0x7f {
        data.push(byte);
    }
    let info = counts(&data);
    assert_eq!(info.num_bytes, 128);
    assert_eq!(info.num_chars, 128);
    assert_eq!(info.num_lines, 2);
}
