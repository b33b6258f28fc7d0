//! The query, reduced once to the summaries that every line is held against.

use crate::classify::{
    cascade_accepts, cascade_decides_anagrams, census, fingerprint, gramify, hash, is_anagram,
    tally, Gram,
};
use crate::latin1::{latin1_bytes, string_to_latin1};
use memcmp::Memcmp;
use vstd::prelude::*;

verus! {

/// A search query: the length, presence mask and histogram of its bytes.
///
/// The three summaries always describe one and the same byte string, which is
/// the value that the needle stands for in contracts.
pub struct Needle {
    len: usize,
    hash: u64,
    gram: Gram,
    bytes: Ghost<Seq<u8>>,
}

impl View for Needle {
    type V = Seq<u8>;

    /// The bytes of the query.
    closed spec fn view(&self) -> Seq<u8> {
        self.bytes@
    }
}

/// `Memcmp::memcmp` of the crate `memcmp`, for slices of `u64`: compares the
/// memory of the two slices byte by byte. It takes the length of the first
/// slice for both; here both are histograms of 256 counters, and the result
/// is whether every counter of the one equals that of the other.
#[verifier::external_body]
fn same_counters(a: &Gram, b: &Gram) -> (same: bool)
    ensures
        same == (a@ == b@),
{
    a.memcmp(b)
}

impl Needle {
    #[verifier::type_invariant]
    spec fn summaries_agree(&self) -> bool {
        &&& self.len == self@.len()
        &&& self.hash == fingerprint(self@)
        &&& tally(self.gram) == census(self@)
    }

    /// Builds the needle for the query `s`, taken in its single-byte encoding.
    pub fn new(s: &String) -> (ndl: Needle)
        ensures
            ndl@ == latin1_bytes(s@),
    {
        let tmp = string_to_latin1(s);
        let bytes = tmp.as_slice();
        Needle { len: bytes.len(), hash: hash(bytes), gram: gramify(bytes), bytes: Ghost(bytes@) }
    }

    /// The number of bytes in the query.
    pub fn len(&self) -> (n: usize)
        ensures
            n == self@.len(),
    {
        proof {
            use_type_invariant(self);
        }
        self.len
    }

    /// The presence mask of the query.
    pub fn fingerprint(&self) -> (mask: u64)
        ensures
            mask == fingerprint(self@),
    {
        proof {
            use_type_invariant(self);
        }
        self.hash
    }

    /// The histogram of the query.
    pub fn census(&self) -> (gram: &Gram)
        ensures
            tally(*gram) == census(self@),
    {
        proof {
            use_type_invariant(self);
        }
        &self.gram
    }

    /// Decides whether the line `s` is an anagram of the query.
    ///
    /// Three tests run in order of cost: the length, the presence mask, the
    /// histogram. The first two only reject early; the third is exact, so the
    /// answer is that of a direct comparison of the two multisets of bytes.
    pub fn test(&self, s: &[u8]) -> (hit: bool)
        ensures
            hit == is_anagram(s@, self@),
            hit == cascade_accepts(self@, s@),
    {
        proof {
            use_type_invariant(self);
            cascade_decides_anagrams(self@, s@);
        }
        if self.len != s.len() {
            return false;
        }
        if self.hash != hash(s) {
            return false;
        }
        let gram = gramify(s);
        proof {
            if tally(gram) == tally(self.gram) {
                assert forall|i: int| 0 <= i < 256 implies gram@[i] == self.gram@[i] by {
                    assert(tally(gram)[i] == tally(self.gram)[i]);
                }
                assert(gram@ =~= self.gram@);
            }
        }
        if !same_counters(&self.gram, &gram) {
            return false;
        }
        true
    }
}

} // verus!
