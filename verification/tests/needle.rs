use anagrams::classify::{gramify, hash};
use anagrams::needle::Needle;

fn needle(query: &str) -> Needle {
    Needle::new(&query.to_string())
}

#[test]
fn needle_holds_the_summaries_of_the_query() {
    let ndl = needle("enlist");
    assert_eq!(ndl.len(), 6);
    assert_eq!(ndl.fingerprint(), hash(b"enlist"));
    assert_eq!(*ndl.census(), gramify(b"enlist"));
}

#[test]
fn needle_of_the_empty_query_is_all_zero() {
    let ndl = needle("");
    assert_eq!(ndl.len(), 0);
    assert_eq!(ndl.fingerprint(), 0);
    assert_eq!(*ndl.census(), [0u64; 256]);
}

#[test]
fn needle_takes_the_query_in_its_single_byte_encoding() {
    let ndl = needle("\u{f5}un");
    assert_eq!(ndl.len(), 3);
    assert!(ndl.test(&[b'n', b'u', 0xF5]));
    assert!(!ndl.test("\u{f5}un".as_bytes()));
}

#[test]
fn test_accepts_anagrams() {
    let ndl = needle("enlist");
    assert!(ndl.test(b"listen"));
    assert!(ndl.test(b"silent"));
    assert!(ndl.test(b"enlist"));
    assert!(ndl.test(b"tinsel"));
}

#[test]
fn test_rejects_by_length() {
    let ndl = needle("enlist");
    assert!(!ndl.test(b"hello"));
    assert!(!ndl.test(b"listens"));
    assert!(!ndl.test(b""));
}

#[test]
fn test_rejects_by_fingerprint() {
    let ndl = needle("enlist");
    assert!(!ndl.test(b"listed"));
    assert!(!ndl.test(b"LISTEN"));
}

#[test]
fn test_rejects_by_census() {
    assert_eq!(hash(b"aab"), hash(b"abb"));
    let ndl = needle("aab");
    assert!(!ndl.test(b"abb"));
    assert!(ndl.test(b"aba"));
    assert!(ndl.test(b"baa"));
}

#[test]
fn test_decides_bytes_that_the_fingerprint_does_not_see() {
    let ndl = needle("12 3");
    assert!(ndl.test(b"3 21"));
    assert!(!ndl.test(b"3 22"));
    assert!(!ndl.test(b"1234"));
}

#[test]
fn test_counts_long_runs_exactly() {
    let query: String = std::iter::repeat('\u{1}').take(256).collect();
    let ndl = Needle::new(&query);
    assert!(ndl.test(&vec![1u8; 256]));
    assert!(!ndl.test(&vec![2u8; 256]));
    let mut mixed = vec![1u8; 255];
    mixed.push(2);
    assert!(!ndl.test(&mixed));
}

#[test]
fn empty_needle_matches_only_the_empty_line() {
    let ndl = needle("");
    assert!(ndl.test(b""));
    assert!(!ndl.test(b"a"));
    assert!(!ndl.test(b" "));
}

#[test]
fn test_agrees_with_sorting_the_bytes() {
    let words: [&[u8]; 8] =
        [b"listen", b"silent", b"enlist", b"tinsel", b"listed", b"hello", b"inlets", b"litens"];
    for query in words {
        let ndl = Needle::new(&String::from_utf8(query.to_vec()).unwrap());
        let mut sorted_query = query.to_vec();
        sorted_query.sort();
        for line in words {
            let mut sorted_line = line.to_vec();
            sorted_line.sort();
            assert_eq!(ndl.test(line), sorted_line == sorted_query);
        }
    }
}
