//! The scan of one stretch of the corpus for the lines that match a query.

use crate::latin1::latin1_to_string;
use crate::lines::{
    anagram_lines, anagram_lines_of_concat, anagram_lines_of_nothing, anagram_lines_of_one,
    ends_lines, first_newline_is_line_end, line_end, lines_of_one_line, lines_of_unterminated,
    strip_cr, CARRIAGE_RETURN, NEWLINE,
};
use crate::needle::Needle;
use memchr::memchr;
use vstd::prelude::*;

verus! {

/// Scans `data` line by line and returns, in the order in which they occur,
/// the lines that are anagrams of the query, decoded to text.
///
/// `data` is meant to begin where a line begins. Text after its last line
/// ending is tested like any other line.
pub fn child_thread(ndl: &Needle, data: &[u8]) -> (ret: Vec<String>)
    ensures
        ret.deep_view() == anagram_lines(ndl@, data@),
{
    let mut startpos: usize = 0;
    let mut ret: Vec<String> = Vec::new();
    proof {
        assert(data@.take(0) == Seq::<u8>::empty());
        anagram_lines_of_nothing(ndl@);
        assert(ret.deep_view() == Seq::<Seq<char>>::empty());
    }
    loop
        invariant
            startpos <= data.len(),
            ends_lines(data@.take(startpos as int)),
            ret.deep_view() == anagram_lines(ndl@, data@.take(startpos as int)),
        ensures
            startpos <= data.len(),
            ends_lines(data@.take(startpos as int)),
            ret.deep_view() == anagram_lines(ndl@, data@.take(startpos as int)),
            line_end(data@.skip(startpos as int)) == data.len() - startpos,
        decreases data.len() - startpos,
    {
        let rest = &data[startpos..data.len()];
        let offset: usize = match memchr(NEWLINE, rest) {
            Some(offset) => offset,
            None => {
                proof {
                    first_newline_is_line_end(rest@, rest@.len() as int);
                }
                break ;
            },
        };
        let chrpos: usize = startpos + offset;
        let mut endpos: usize = chrpos;
        if endpos > startpos && data[endpos - 1] == CARRIAGE_RETURN {
            endpos -= 1;
        }
        let line = &data[startpos..endpos];
        proof {
            let done = data@.take(startpos as int);
            let piece = data@.subrange(startpos as int, chrpos + 1);
            assert(piece == rest@.take(offset + 1));
            first_newline_is_line_end(piece, offset as int);
            lines_of_one_line(piece);
            let raw = data@.subrange(startpos as int, chrpos as int);
            assert(piece.drop_last() == raw);
            assert(line@ == strip_cr(raw)) by {
                if raw.len() > 0 {
                    assert(raw.last() == data@[chrpos - 1]);
                }
            }
            anagram_lines_of_one(ndl@, piece, line@);
            anagram_lines_of_concat(ndl@, done, piece);
            assert(done + piece == data@.take(chrpos + 1));
        }
        startpos = chrpos + 1;
        if ndl.test(line) {
            let text = latin1_to_string(line);
            let ghost before = ret.deep_view();
            ret.push(text);
            proof {
                assert(ret.deep_view() == before.push(text@));
            }
        }
    }
    if startpos < data.len() {
        let line = &data[startpos..data.len()];
        proof {
            let done = data@.take(startpos as int);
            lines_of_unterminated(line@);
            anagram_lines_of_one(ndl@, line@, line@);
            anagram_lines_of_concat(ndl@, done, line@);
            assert(done + line@ == data@);
        }
        if ndl.test(line) {
            let text = latin1_to_string(line);
            let ghost before = ret.deep_view();
            ret.push(text);
            proof {
                assert(ret.deep_view() == before.push(text@));
            }
        }
    } else {
        proof {
            assert(data@.take(startpos as int) == data@);
        }
    }
    ret
}

} // verus!
