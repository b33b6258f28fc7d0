use anagrams::coordinator::{available_workers, gather, search, workers_for};
use anagrams::needle::Needle;
use anagrams::partition::partition;
use anagrams::scan::child_thread;

fn find(query: &str, data: &[u8], threads: usize) -> Vec<String> {
    search(&Needle::new(&query.to_string()), data, threads)
}

fn text(lines: &[&str]) -> Vec<String> {
    lines.iter().map(|line| line.to_string()).collect()
}

#[test]
fn there_is_always_a_worker() {
    assert!(available_workers() >= 1);
}

#[test]
fn one_worker_for_each_processor() {
    assert_eq!(workers_for(0), 1);
    assert_eq!(workers_for(1), 1);
    assert_eq!(workers_for(2), 2);
    assert_eq!(workers_for(64), 64);
    assert_eq!(workers_for(usize::MAX), usize::MAX);
}

#[test]
fn gather_joins_in_chunk_order() {
    let parts = vec![text(&["a", "b"]), text(&[]), text(&["c"]), text(&["a"])];
    assert_eq!(gather(parts), text(&["a", "b", "c", "a"]));
    assert_eq!(gather(Vec::new()), Vec::<String>::new());
    assert_eq!(gather(vec![Vec::new(), Vec::new()]), Vec::<String>::new());
}

#[test]
fn search_finds_listen_and_silent() {
    let data = b"listen\r\nsilent\r\nhello\r\n";
    for threads in 1..=8usize {
        assert_eq!(find("enlist", data, threads), text(&["listen", "silent"]));
    }
}

#[test]
fn search_with_empty_query_finds_the_empty_line() {
    let data = b"listen\r\n\r\nhello\r\nworld\r\n";
    for threads in 1..=8usize {
        assert_eq!(find("", data, threads), text(&[""]));
    }
}

#[test]
fn search_finds_the_line_cut_short_at_the_end() {
    let data = b"hello\r\nworld\r\nsilent\r\nlisten";
    for threads in 1..=8usize {
        assert_eq!(find("enlist", data, threads), text(&["silent", "listen"]));
    }
    assert_eq!(find("enlist", b"listen", 4), text(&["listen"]));
}

#[test]
fn search_finds_nothing() {
    for threads in 1..=4usize {
        assert_eq!(find("enlist", b"hello\r\nworld\r\n", threads), Vec::<String>::new());
        assert_eq!(find("enlist", b"", threads), Vec::<String>::new());
    }
}

#[test]
fn search_does_not_depend_on_the_number_of_workers() {
    let mut data: Vec<u8> = Vec::new();
    let words: [&[u8]; 7] = [b"listen", b"hello", b"silent", b"", b"tinsel", b"listed", b"enlist"];
    for round in 0..50usize {
        data.extend_from_slice(words[(round * 3 + round / 7) % words.len()]);
        data.extend_from_slice(if round % 2 == 0 { b"\r\n" } else { b"\n" });
    }
    data.extend_from_slice(b"inlets");
    let ndl = Needle::new(&"enlist".to_string());
    let whole = child_thread(&ndl, &data);
    assert!(whole.len() > 10);
    assert_eq!(whole[whole.len() - 1], "inlets");
    for threads in 1..=64usize {
        assert_eq!(search(&ndl, &data, threads), whole);
        assert_eq!(search(&ndl, &data, threads), search(&ndl, &data, threads));
    }
}

#[test]
fn chunk_results_join_to_the_whole_in_any_order_of_work() {
    let data = b"listen\r\nhello\r\nsilent\r\nworld\r\ntinsel\r\nenlist\r\n";
    let ndl = Needle::new(&"enlist".to_string());
    let chunks = partition(data, 4);
    let mut parts: Vec<Vec<String>> = chunks.iter().map(|_| Vec::new()).collect();
    for k in (0..chunks.len()).rev() {
        parts[k] = child_thread(&ndl, &data[chunks[k].start..chunks[k].end]);
    }
    assert_eq!(gather(parts), text(&["listen", "silent", "tinsel", "enlist"]));
}
