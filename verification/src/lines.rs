//! How a corpus divides into lines, and which of them a query matches.
//!
//! A line ends with `\n`. A `\r` directly before that `\n` belongs to the line
//! ending, not to the line. Text after the last `\n` is a line of its own,
//! taken as it stands.

use crate::classify::is_anagram;
use crate::latin1::latin1_chars;
use vstd::prelude::*;

verus! {

/// The byte that ends a line.
pub const NEWLINE: u8 = 10;

/// The byte that may precede `NEWLINE` in a line ending.
pub const CARRIAGE_RETURN: u8 = 13;

/// `memchr::memchr`: the index of the first occurrence of `needle` in
/// `haystack`, or `None` where `haystack` does not hold it.
pub assume_specification[ memchr::memchr ](needle: u8, haystack: &[u8]) -> (found: Option<usize>)
    ensures
        match found {
            Some(i) => {
                &&& i < haystack@.len()
                &&& haystack@[i as int] == needle
                &&& forall|j: int| 0 <= j < i ==> haystack@[j] != needle
            },
            None => forall|j: int| 0 <= j < haystack@.len() ==> haystack@[j] != needle,
        },
;

/// The offset of the first `NEWLINE` in `s`, or `s.len()` where `s` holds
/// none.
pub open spec fn line_end(s: Seq<u8>) -> nat
    decreases s.len(),
{
    if s.len() == 0 || s[0] == NEWLINE {
        0
    } else {
        1 + line_end(s.drop_first())
    }
}

/// `s` is empty or ends with `NEWLINE`: a line may begin right after it.
pub open spec fn ends_lines(s: Seq<u8>) -> bool {
    s.len() == 0 || s.last() == NEWLINE
}

/// The content of a line whose bytes up to the `NEWLINE` are `raw`: `raw`
/// without a closing `CARRIAGE_RETURN`.
pub open spec fn strip_cr(raw: Seq<u8>) -> Seq<u8> {
    if raw.len() > 0 && raw.last() == CARRIAGE_RETURN {
        raw.drop_last()
    } else {
        raw
    }
}

/// The lines of `data`, first to last.
pub open spec fn lines(data: Seq<u8>) -> Seq<Seq<u8>>
    decreases data.len(),
{
    if data.len() == 0 {
        Seq::empty()
    } else {
        let n = line_end(data) as int;
        if n >= data.len() {
            seq![data]
        } else {
            seq![strip_cr(data.take(n))] + lines(data.skip(n + 1))
        }
    }
}

/// The lines of `data` that are anagrams of `query`, in the order in which
/// they occur, decoded to text.
pub open spec fn anagram_lines(query: Seq<u8>, data: Seq<u8>) -> Seq<Seq<char>> {
    lines(data).filter(|line: Seq<u8>| is_anagram(line, query)).map_values(
        |line: Seq<u8>| latin1_chars(line),
    )
}

/// No `NEWLINE` stands before `line_end(s)`, and one stands there unless the
/// end of `s` is reached.
pub proof fn line_end_is_first_newline(s: Seq<u8>)
    ensures
        line_end(s) <= s.len(),
        forall|j: int| 0 <= j < line_end(s) ==> s[j] != NEWLINE,
        line_end(s) < s.len() ==> s[line_end(s) as int] == NEWLINE,
    decreases s.len(),
{
    if s.len() == 0 || s[0] == NEWLINE {
    } else {
        let rest = s.drop_first();
        line_end_is_first_newline(rest);
        assert forall|j: int| 0 <= j < line_end(s) implies s[j] != NEWLINE by {
            if j > 0 {
                assert(rest[j - 1] == s[j]);
            }
        }
    }
}

/// An offset with no `NEWLINE` before it, which holds a `NEWLINE` or is the
/// end of `s`, is `line_end(s)`.
pub proof fn first_newline_is_line_end(s: Seq<u8>, n: int)
    requires
        0 <= n <= s.len(),
        forall|j: int| 0 <= j < n ==> s[j] != NEWLINE,
        n < s.len() ==> s[n] == NEWLINE,
    ensures
        line_end(s) == n,
{
    line_end_is_first_newline(s);
}

/// A line never holds a `NEWLINE`.
pub proof fn lines_hold_no_newline(data: Seq<u8>, k: int)
    requires
        0 <= k < lines(data).len(),
    ensures
        !lines(data)[k].contains(NEWLINE),
    decreases data.len(),
{
    line_end_is_first_newline(data);
    let n = line_end(data) as int;
    if n >= data.len() {
    } else if k == 0 {
        let raw = data.take(n);
        assert(forall|j: int| 0 <= j < raw.len() ==> raw[j] == data[j]);
    } else {
        lines_hold_no_newline(data.skip(n + 1), k - 1);
    }
}

/// Lines do not reach across a line ending: where `a` ends with one, the
/// lines of `a + b` are those of `a` followed by those of `b`.
pub proof fn lines_of_concat(a: Seq<u8>, b: Seq<u8>)
    requires
        ends_lines(a),
    ensures
        lines(a + b) == lines(a) + lines(b),
    decreases a.len(),
{
    if a.len() == 0 {
        assert(a + b == b);
        assert(lines(a) + lines(b) == lines(b));
    } else {
        let n = line_end(a) as int;
        line_end_is_first_newline(a);
        assert(n < a.len()) by {
            if n >= a.len() {
                assert(a[a.len() - 1] != NEWLINE);
            }
        }
        first_newline_is_line_end(a + b, n);
        let tail = a.skip(n + 1);
        assert((a + b).take(n) == a.take(n));
        assert((a + b).skip(n + 1) == tail + b);
        assert(ends_lines(tail)) by {
            if tail.len() > 0 {
                assert(tail.last() == a.last());
            }
        }
        lines_of_concat(tail, b);
        assert(lines(a + b) == seq![strip_cr(a.take(n))] + (lines(tail) + lines(b)));
        assert(lines(a) == seq![strip_cr(a.take(n))] + lines(tail));
        assert(lines(a + b) == lines(a) + lines(b));
    }
}

/// A stretch of bytes that holds one `NEWLINE`, as its last byte, is one line.
pub proof fn lines_of_one_line(piece: Seq<u8>)
    requires
        piece.len() > 0,
        line_end(piece) == piece.len() - 1,
    ensures
        lines(piece) == seq![strip_cr(piece.drop_last())],
{
    let n = piece.len() - 1;
    assert(piece.take(n) == piece.drop_last());
    assert(lines(piece.skip(n + 1)) == Seq::<Seq<u8>>::empty());
}

/// Bytes without a `NEWLINE` are one line, taken as they stand, unless there
/// are none.
pub proof fn lines_of_unterminated(rest: Seq<u8>)
    requires
        line_end(rest) == rest.len(),
    ensures
        lines(rest) == if rest.len() == 0 {
            Seq::<Seq<u8>>::empty()
        } else {
            seq![rest]
        },
{
}

/// What a query finds in `a + b`, where `a` ends with a line ending, is what
/// it finds in `a` followed by what it finds in `b`.
pub proof fn anagram_lines_of_concat(query: Seq<u8>, a: Seq<u8>, b: Seq<u8>)
    requires
        ends_lines(a),
    ensures
        anagram_lines(query, a + b) == anagram_lines(query, a) + anagram_lines(query, b),
{
    lines_of_concat(a, b);
    let wanted = |line: Seq<u8>| is_anagram(line, query);
    Seq::filter_distributes_over_add(lines(a), lines(b), wanted);
}

/// What a query finds in a corpus of one line: that line, if it is an anagram
/// of the query.
pub proof fn anagram_lines_of_one(query: Seq<u8>, data: Seq<u8>, line: Seq<u8>)
    requires
        lines(data) == seq![line],
    ensures
        anagram_lines(query, data) == if is_anagram(line, query) {
            seq![latin1_chars(line)]
        } else {
            Seq::<Seq<char>>::empty()
        },
{
    let wanted = |line: Seq<u8>| is_anagram(line, query);
    let none = Seq::<Seq<u8>>::empty();
    assert(seq![line] == none.push(line));
    none.lemma_filter_push(line, wanted);
    none.lemma_filter_len(wanted);
    assert(none.filter(wanted) == none);
}

/// A query finds nothing in an empty corpus.
pub proof fn anagram_lines_of_nothing(query: Seq<u8>)
    ensures
        anagram_lines(query, Seq::empty()) == Seq::<Seq<char>>::empty(),
{
    let wanted = |line: Seq<u8>| is_anagram(line, query);
    let none = Seq::<Seq<u8>>::empty();
    none.lemma_filter_len(wanted);
    assert(none.filter(wanted) == none);
}

} // verus!
