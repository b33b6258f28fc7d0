use anagrams::latin1::{latin1_to_string, string_to_latin1};

#[test]
fn ascii_text_keeps_its_bytes() {
    assert_eq!(string_to_latin1(&"listen".to_string()), b"listen".to_vec());
    assert_eq!(latin1_to_string(b"listen"), "listen");
}

#[test]
fn empty_text_and_empty_bytes() {
    assert_eq!(string_to_latin1(&String::new()), Vec::<u8>::new());
    assert_eq!(latin1_to_string(&[]), "");
}

#[test]
fn high_bytes_are_the_characters_of_the_same_code_point() {
    assert_eq!(latin1_to_string(&[0xE4, 0xF6, 0xFC]), "\u{e4}\u{f6}\u{fc}");
    assert_eq!(string_to_latin1(&"\u{e4}\u{f6}\u{fc}".to_string()), vec![0xE4, 0xF6, 0xFC]);
    assert_eq!(latin1_to_string(&[0, 127, 128, 255]), "\u{0}\u{7f}\u{80}\u{ff}");
}

#[test]
fn characters_above_255_keep_their_low_byte() {
    assert_eq!(string_to_latin1(&"\u{100}".to_string()), vec![0x00]);
    assert_eq!(string_to_latin1(&"\u{20ac}".to_string()), vec![0xAC]);
    assert_eq!(string_to_latin1(&"a\u{1f600}b".to_string()), vec![b'a', 0x00, b'b']);
}

#[test]
fn every_byte_survives_the_round_trip() {
    let all: Vec<u8> = (0..=255u8).collect();
    let text = latin1_to_string(&all);
    assert_eq!(text.chars().count(), 256);
    assert_eq!(string_to_latin1(&text), all);
}
