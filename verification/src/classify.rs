//! Two order-independent summaries of a byte string: a lossy presence mask
//! and an exact histogram.

use vstd::multiset::*;
use vstd::prelude::*;
use vstd::seq_lib::*;

verus! {

/// A histogram of byte values: entry `b` counts the occurrences of byte `b`.
pub type Gram = [u64; 256];

/// Lowest byte value that the presence mask records. The mask covers the 64
/// values from here upwards.
pub const MASK_BASE: u8 = 64;

/// The mask bit that stands for byte `b`: bit `b - MASK_BASE` for the 64 byte
/// values the mask covers, and no bit for any other byte.
pub open spec fn byte_mask(b: u8) -> u64 {
    if MASK_BASE <= b && b - MASK_BASE < 64 {
        1u64 << ((b - MASK_BASE) as u64)
    } else {
        0
    }
}

/// The presence mask of `s`: the union of the mask bits of its bytes.
pub open spec fn fingerprint(s: Seq<u8>) -> u64
    decreases s.len(),
{
    if s.len() == 0 {
        0
    } else {
        fingerprint(s.drop_last()) | byte_mask(s.last())
    }
}

/// Computes the presence mask of `s`.
pub fn hash(s: &[u8]) -> (res: u64)
    ensures
        res == fingerprint(s@),
{
    let mut res: u64 = 0;
    let mut i: usize = 0;
    while i < s.len()
        invariant
            i <= s.len(),
            res == fingerprint(s@.take(i as int)),
        decreases s.len() - i,
    {
        let chr: u8 = s[i];
        proof {
            assert(s@.take(i + 1).drop_last() == s@.take(i as int));
            assert(res | 0 == res) by (bit_vector);
        }
        if chr >= MASK_BASE && chr - MASK_BASE < 64 {
            res = res | (1u64 << (chr - MASK_BASE));
        }
        i += 1;
    }
    proof {
        assert(s@.take(s.len() as int) == s@);
    }
    res
}

/// The exact histogram of `s`: entry `b` is the number of times that byte
/// `b` occurs in `s`.
pub open spec fn census(s: Seq<u8>) -> Seq<nat> {
    Seq::new(256, |b: int| s.to_multiset().count(b as u8))
}

/// The counters of a histogram as natural numbers.
pub open spec fn tally(g: Gram) -> Seq<nat> {
    g@.map_values(|c: u64| c as nat)
}

/// `a` and `b` hold the same bytes, each the same number of times.
pub open spec fn is_anagram(a: Seq<u8>, b: Seq<u8>) -> bool {
    a.to_multiset() == b.to_multiset()
}

/// Computes the exact histogram of `s`.
pub fn gramify(s: &[u8]) -> (ret: Gram)
    ensures
        tally(ret) == census(s@),
{
    let mut ret: Gram = [0; 256];
    let mut i: usize = 0;
    proof {
        assert(s@.take(0).to_multiset() =~= Multiset::<u8>::empty()) by {
            broadcast use group_to_multiset_ensures;
            lemma_multiset_empty_len(s@.take(0).to_multiset());
        }
    }
    while i < s.len()
        invariant
            i <= s.len(),
            forall|b: int|
                0 <= b < 256 ==> ret[b] == s@.take(i as int).to_multiset().count(b as u8),
        decreases s.len() - i,
    {
        let chr: u8 = s[i];
        proof {
            let seen = s@.take(i as int);
            assert(s@.take(i + 1) == seen.push(chr));
            to_multiset_build(seen, chr);
            to_multiset_len(seen);
            axiom_count_le_len(seen.to_multiset(), chr);
        }
        ret[chr as usize] = ret[chr as usize] + 1;
        i += 1;
    }
    proof {
        assert(s@.take(s.len() as int) == s@);
        assert(tally(ret) =~= census(s@));
    }
    ret
}

/// A string without bytes has no mask bit set and no byte counted.
pub proof fn summaries_of_nothing()
    ensures
        fingerprint(Seq::empty()) == 0,
        census(Seq::empty()) == Seq::new(256, |b: int| 0nat),
{
    let none = Seq::<u8>::empty();
    to_multiset_len(none);
    assert forall|v: u8| none.to_multiset().count(v) == 0 by {
        axiom_count_le_len(none.to_multiset(), v);
    }
    assert(census(none) =~= Seq::new(256, |b: int| 0nat));
}

/// Both summaries are functions of the bytes alone: strings that hold the
/// same byte at every place have the same presence mask and the same
/// histogram, so classifying the same bytes again gives the same result.
pub proof fn summaries_depend_on_bytes_alone(a: Seq<u8>, b: Seq<u8>)
    requires
        a.len() == b.len(),
        forall|i: int| 0 <= i < a.len() ==> a[i] == b[i],
    ensures
        fingerprint(a) == fingerprint(b),
        census(a) == census(b),
{
    assert(a =~= b);
}

/// Two byte strings have equal histograms exactly when they are anagrams of
/// each other.
pub proof fn census_decides_anagrams(a: Seq<u8>, b: Seq<u8>)
    ensures
        census(a) == census(b) <==> is_anagram(a, b),
{
    if census(a) == census(b) {
        assert forall|v: u8| a.to_multiset().count(v) == b.to_multiset().count(v) by {
            assert(census(a)[v as int] == census(b)[v as int]);
        }
        assert(a.to_multiset() =~= b.to_multiset());
    }
    if is_anagram(a, b) {
        assert(census(a) =~= census(b));
    }
}

/// Anagrams have the same number of bytes.
pub proof fn anagrams_have_equal_length(a: Seq<u8>, b: Seq<u8>)
    requires
        is_anagram(a, b),
    ensures
        a.len() == b.len(),
{
    to_multiset_len(a);
    to_multiset_len(b);
}

/// Taking one byte out of a string and adding its mask bit back leaves the
/// presence mask as it was.
proof fn fingerprint_remove(s: Seq<u8>, j: int)
    requires
        0 <= j < s.len(),
    ensures
        fingerprint(s) == fingerprint(s.remove(j)) | byte_mask(s[j]),
    decreases s.len(),
{
    if j == s.len() - 1 {
        assert(s.remove(j) == s.drop_last());
    } else {
        let rest = s.drop_last();
        fingerprint_remove(rest, j);
        assert(s.remove(j).drop_last() == rest.remove(j));
        assert(s.remove(j).last() == s.last());
        let x = fingerprint(rest.remove(j));
        let y = byte_mask(s[j]);
        let z = byte_mask(s.last());
        assert((x | y) | z == (x | z) | y) by (bit_vector);
    }
}

/// Anagrams have the same presence mask. The converse does not hold: the mask
/// neither counts repetitions nor sees bytes outside the range it covers.
pub proof fn anagrams_have_equal_fingerprint(a: Seq<u8>, b: Seq<u8>)
    requires
        is_anagram(a, b),
    ensures
        fingerprint(a) == fingerprint(b),
    decreases a.len(),
{
    anagrams_have_equal_length(a, b);
    if a.len() > 0 {
        let x = a.last();
        assert(a[a.len() - 1] == x);
        to_multiset_contains(a, x);
        to_multiset_contains(b, x);
        let j = choose|j: int| 0 <= j < b.len() && b[j] == x;
        assert(a.remove(a.len() - 1) == a.drop_last());
        to_multiset_remove(a, a.len() - 1);
        to_multiset_remove(b, j);
        anagrams_have_equal_fingerprint(a.drop_last(), b.remove(j));
        fingerprint_remove(b, j);
    }
}

/// A bit of the presence mask is set exactly when the byte it stands for
/// occurs in the string.
pub proof fn fingerprint_marks_presence(s: Seq<u8>, b: u8)
    requires
        MASK_BASE <= b,
        b - MASK_BASE < 64,
    ensures
        fingerprint(s) & byte_mask(b) != 0 <==> s.contains(b),
    decreases s.len(),
{
    let k: u64 = (b - MASK_BASE) as u64;
    if s.len() == 0 {
        assert(0u64 & (1u64 << k) == 0) by (bit_vector);
    } else {
        let rest = s.drop_last();
        let c = s.last();
        fingerprint_marks_presence(rest, b);
        assert(s.contains(b) <==> rest.contains(b) || c == b) by {
            if s.contains(b) {
                let i = choose|i: int| 0 <= i < s.len() && s[i] == b;
                if i < rest.len() {
                    assert(rest[i] == b);
                }
            }
            if rest.contains(b) {
                let i = choose|i: int| 0 <= i < rest.len() && rest[i] == b;
                assert(s[i] == b);
            }
            if c == b {
                assert(s[s.len() - 1] == b);
            }
        }
        let x = fingerprint(rest);
        if MASK_BASE <= c && c - MASK_BASE < 64 {
            let j: u64 = (c - MASK_BASE) as u64;
            assert(((x | (1u64 << j)) & (1u64 << k) != 0) <==> (x & (1u64 << k) != 0 || j == k))
                by (bit_vector)
                requires
                    j < 64,
                    k < 64,
            ;
        } else {
            assert((x | 0) & (1u64 << k) == x & (1u64 << k)) by (bit_vector);
        }
    }
}

/// The three tests that a line has to pass against a query, cheapest first:
/// the same length, the same presence mask, the same histogram.
pub open spec fn cascade_accepts(query: Seq<u8>, line: Seq<u8>) -> bool {
    &&& line.len() == query.len()
    &&& fingerprint(line) == fingerprint(query)
    &&& census(line) == census(query)
}

/// The cascade accepts a line exactly when it is an anagram of the query: the
/// two cheap tests never reject an anagram, and the last one never accepts
/// anything else.
pub proof fn cascade_decides_anagrams(query: Seq<u8>, line: Seq<u8>)
    ensures
        cascade_accepts(query, line) <==> is_anagram(line, query),
{
    census_decides_anagrams(line, query);
    if is_anagram(line, query) {
        anagrams_have_equal_length(line, query);
        anagrams_have_equal_fingerprint(line, query);
    }
}

} // verus!
