//! Conversion between text and the single-byte encoding in which every byte
//! is the character with the same code point.

use vstd::prelude::*;

verus! {

/// The byte that stands for `c`: the low eight bits of its code point.
pub open spec fn char_byte(c: char) -> u8 {
    (c as u32 % 256) as u8
}

/// The bytes that stand for `text`, one for each character.
pub open spec fn latin1_bytes(text: Seq<char>) -> Seq<u8> {
    text.map_values(|c: char| char_byte(c))
}

/// The text that `bytes` stand for, one character for each byte.
pub open spec fn latin1_chars(bytes: Seq<u8>) -> Seq<char> {
    bytes.map_values(|b: u8| b as char)
}

/// Encodes `s` with one byte per character. A character above code point 255
/// keeps only its low eight bits.
pub fn string_to_latin1(s: &String) -> (bytes: Vec<u8>)
    ensures
        bytes@ == latin1_bytes(s@),
{
    let mut bytes: Vec<u8> = Vec::new();
    for c in it: s.as_str().chars()
        invariant
            it.seq() == s@,
            bytes@ == latin1_bytes(s@.take(it.index() as int)),
    {
        let b: u8 = (c as u32 % 256) as u8;
        bytes.push(b);
        proof {
            assert(s@.take(it.index() + 1) == s@.take(it.index() as int).push(c));
        }
    }
    proof {
        assert(s@.take(s@.len() as int) == s@);
    }
    bytes
}

/// `String::push` of the standard library: appends `ch` to the end of `s` and
/// changes nothing else.
pub assume_specification[ String::push ](s: &mut String, ch: char)
    ensures
        final(s)@ == old(s)@.push(ch),
;

/// Decodes `s` into text with one character per byte.
pub fn latin1_to_string(s: &[u8]) -> (text: String)
    ensures
        text@ == latin1_chars(s@),
{
    let mut text = String::new();
    let mut i: usize = 0;
    while i < s.len()
        invariant
            i <= s.len(),
            text@ == latin1_chars(s@.take(i as int)),
        decreases s.len() - i,
    {
        text.push(s[i] as char);
        proof {
            assert(s@.take(i + 1) == s@.take(i as int).push(s@[i as int]));
        }
        i += 1;
    }
    proof {
        assert(s@.take(s.len() as int) == s@);
    }
    text
}

} // verus!
