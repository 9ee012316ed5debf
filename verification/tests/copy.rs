use textutils::cat::{is_blank_line, print, run, Config, Numbering};
use textutils::reader::Reader;
use textutils::source::OpenError;

fn config(number_lines: bool, number_nonblank_lines: bool) -> Config {
    Config::new(vec!["-".to_string()], number_lines, number_nonblank_lines)
}

fn copy(number_lines: bool, number_nonblank_lines: bool, data: &[u8]) -> String {
    print(&config(number_lines, number_nonblank_lines), Reader::new(data))
}

#[test]
fn the_switches_select_the_numbering() {
    assert_eq!(config(false, false).numbering(), Numbering::Off);
    assert_eq!(config(true, false).numbering(), Numbering::All);
    assert_eq!(config(false, true).numbering(), Numbering::NonBlank);
    assert_eq!(config(true, true).numbering(), Numbering::All);
    assert_eq!(config(true, false).files, vec!["-".to_string()]);
}

#[test]
fn a_plain_copy_is_the_input() {
    let text = "first\nsecond\r\n\nd\u{e9}j\u{e0} vu \u{1f600}\nno terminator";
    assert_eq!(copy(false, false, text.as_bytes()).as_bytes(), text.as_bytes());
    assert_eq!(copy(false, false, b""), "");
    assert_eq!(copy(false, false, b"\n"), "\n");
}

#[test]
fn a_plain_copy_replaces_what_is_not_utf8() {
    assert_eq!(copy(false, false, b"a\xffb\nc\xc3"), "a\u{fffd}b\nc\u{fffd}");
}

#[test]
fn every_line_is_numbered() {
    assert_eq!(copy(true, false, b"a\n\nb\n"), "     1\ta\n     2\t\n     3\tb\n");
    assert_eq!(copy(true, false, b"last"), "     1\tlast");
    assert_eq!(copy(true, false, b""), "");
}

#[test]
fn blank_lines_get_no_number() {
    assert_eq!(copy(false, true, b"a\n\nb\n"), "     1\ta\n\n     2\tb\n");
    assert_eq!(copy(false, true, b"\r\nx\r\n"), "\r\n     1\tx\r\n");
    assert_eq!(copy(false, true, b"\n\n"), "\n\n");
    assert_eq!(copy(false, true, b" \n"), "     1\t \n");
}

#[test]
fn wide_numbers_outgrow_the_column() {
    let mut data = Vec::new();
    for _ in 0..1_000_000 {
        data.push(b'\n');
    }
    let out = copy(true, false, &data);
    assert!(out.starts_with("     1\t\n     2\t\n"));
    assert!(out.contains("\n 99999\t\n100000\t\n100001\t\n"));
    assert!(out.ends_with("\n999999\t\n1000000\t\n"));
}

#[test]
fn a_line_is_blank_without_content() {
    assert!(is_blank_line(""));
    assert!(is_blank_line("\n"));
    assert!(is_blank_line("\r\n"));
    assert!(!is_blank_line("\r"));
    assert!(!is_blank_line(" \n"));
    assert!(!is_blank_line("a\n"));
    assert!(!is_blank_line("\n\n"));
    assert!(!is_blank_line("\r\r\n"));
    assert!(!is_blank_line("abc"));
}

#[test]
fn a_failed_source_does_not_stop_the_batch() {
    let files = vec!["one".to_string(), "two".to_string(), "three".to_string()];
    let config = Config::new(files, true, false);
    let failure = OpenError {
        source: "two".to_string(),
        cause: "No such file or directory (os error 2)".to_string(),
    };
    let inputs = vec![Ok(b"a\nb\n".to_vec()), Err(failure), Ok(b"c\n".to_vec())];
    let emission = run(&config, &inputs);
    assert_eq!(emission.out, "     1\ta\n     2\tb\n     1\tc\n");
    assert_eq!(emission.err, "Failed to open two: No such file or directory (os error 2)\n");
    assert_eq!(emission.err.lines().count(), 1);
    assert_eq!(emission.err.matches("two").count(), 1);
}

#[test]
fn an_empty_batch_emits_nothing() {
    let emission = run(&Config::new(vec![], false, false), &vec![]);
    assert_eq!(emission.out, "");
    assert_eq!(emission.err, "");
}

#[test]
fn a_numbered_line_follows_its_number() {
    let mut out = String::from("> ");
    assert_eq!(textutils::cat::push_line(&mut out, Numbering::All, 0, "a\n"), 1);
    assert_eq!(out, ">      1\ta\n");
    assert_eq!(textutils::cat::push_line(&mut out, Numbering::NonBlank, 41, "b"), 42);
    assert_eq!(out, ">      1\ta\n    42\tb");
}

#[test]
fn a_bare_line_leaves_the_count() {
    let mut out = String::new();
    assert_eq!(textutils::cat::push_line(&mut out, Numbering::NonBlank, 4, "\n"), 4);
    assert_eq!(textutils::cat::push_line(&mut out, Numbering::Off, 4, "x\n"), 4);
    assert_eq!(textutils::cat::push_line(&mut out, Numbering::All, 4, "\n"), 5);
    assert_eq!(out, "\nx\n     5\t\n");
}
