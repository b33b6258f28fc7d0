use anagrams::needle::Needle;
use anagrams::scan::child_thread;

fn scan(query: &str, data: &[u8]) -> Vec<String> {
    child_thread(&Needle::new(&query.to_string()), data)
}

#[test]
fn scan_finds_anagrams_in_order() {
    assert_eq!(scan("enlist", b"listen\r\nsilent\r\nhello\r\n"), vec!["listen", "silent"]);
    assert_eq!(scan("enlist", b"silent\r\nhello\r\nlisten\r\n"), vec!["silent", "listen"]);
}

#[test]
fn scan_takes_both_line_endings() {
    assert_eq!(scan("enlist", b"listen\nsilent\r\ntinsel\n"), vec!["listen", "silent", "tinsel"]);
}

#[test]
fn scan_finds_nothing() {
    assert_eq!(scan("enlist", b"hello\r\nworld\r\n"), Vec::<String>::new());
    assert_eq!(scan("enlist", b""), Vec::<String>::new());
    assert_eq!(scan("", b""), Vec::<String>::new());
}

#[test]
fn scan_with_empty_query_finds_empty_lines() {
    assert_eq!(scan("", b"abc\r\n\r\ndef\r\n"), vec![""]);
    assert_eq!(scan("", b"abc\n\ndef\n\n"), vec!["", ""]);
    assert_eq!(scan("", b"abc\r\n"), Vec::<String>::new());
}

#[test]
fn scan_takes_an_empty_first_line() {
    assert_eq!(scan("", b"\nabc\n"), vec![""]);
    assert_eq!(scan("", b"\r\nabc\n"), vec![""]);
    assert_eq!(scan("abc", b"\ncab\n"), vec!["cab"]);
}

#[test]
fn scan_tests_text_after_the_last_line_ending() {
    assert_eq!(scan("enlist", b"hello\r\nlisten"), vec!["listen"]);
    assert_eq!(scan("enlist", b"listen"), vec!["listen"]);
    assert_eq!(scan("enlist", b"silent\nlisten"), vec!["silent", "listen"]);
}

#[test]
fn scan_strips_a_carriage_return_only_before_a_newline() {
    assert_eq!(scan("ab", b"a\rb\n"), Vec::<String>::new());
    assert_eq!(scan("ab\r", b"a\rb\n"), vec!["a\rb"]);
    assert_eq!(scan("ab", b"ab\r\r\n"), Vec::<String>::new());
    assert_eq!(scan("ab\r", b"ab\r\r\n"), vec!["ab\r"]);
    assert_eq!(scan("ab", b"ba\r"), Vec::<String>::new());
    assert_eq!(scan("ab\r", b"ba\r"), vec!["ba\r"]);
}

#[test]
fn scan_decodes_high_bytes() {
    let found = scan("\u{f5}un", &[b'n', b'u', 0xF5, b'\r', b'\n', b'n', b'u', b'n', b'\n']);
    assert_eq!(found, vec!["nu\u{f5}"]);
}

#[test]
fn scan_keeps_repeated_lines() {
    assert_eq!(scan("ab", b"ba\nab\nba\n"), vec!["ba", "ab", "ba"]);
}
