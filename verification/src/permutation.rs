//! Anagrams as rearrangements: two byte strings hold the same bytes equally
//! often exactly when one is the other with its bytes in another order.

use crate::classify::{anagrams_have_equal_length, census, census_decides_anagrams, is_anagram};
use vstd::multiset::*;
use vstd::prelude::*;
use vstd::seq_lib::*;

verus! {

/// `p` names every index below `n` exactly once.
pub open spec fn is_index_permutation(p: Seq<int>, n: nat) -> bool {
    &&& p.len() == n
    &&& forall|i: int| 0 <= i < n ==> 0 <= #[trigger] p[i] < n
    &&& forall|i: int, j: int| 0 <= i < j < n ==> #[trigger] p[i] != #[trigger] p[j]
}

/// `b` is `a` with its bytes in the order that `p` gives: byte `i` of `b` is
/// byte `p[i]` of `a`.
pub open spec fn rearranges(p: Seq<int>, a: Seq<u8>, b: Seq<u8>) -> bool {
    &&& is_index_permutation(p, a.len())
    &&& b.len() == a.len()
    &&& forall|i: int| 0 <= i < b.len() ==> b[i] == a[#[trigger] p[i]]
}

/// `b` is a permutation of the bytes of `a`.
pub open spec fn is_permutation(a: Seq<u8>, b: Seq<u8>) -> bool {
    exists|p: Seq<int>| rearranges(p, a, b)
}

/// A multiset that holds `x` is itself again after `x` is taken out and put
/// back.
proof fn remove_then_insert(m: Multiset<u8>, x: u8)
    requires
        m.count(x) > 0,
    ensures
        m.remove(x).insert(x) == m,
{
    broadcast use group_multiset_axioms;

    assert(m.remove(x).insert(x) =~= m);
}

/// A rearrangement keeps every byte and its number of occurrences.
proof fn rearrangement_is_anagram(p: Seq<int>, a: Seq<u8>, b: Seq<u8>)
    requires
        rearranges(p, a, b),
    ensures
        is_anagram(a, b),
    decreases a.len(),
{
    let n = a.len() as int;
    if n == 0 {
        assert(a == b);
    } else {
        let j = p[n - 1];
        let a1 = a.remove(j);
        let b1 = b.drop_last();
        let inner = Seq::new(
            (n - 1) as nat,
            |i: int|
                if p[i] > j {
                    p[i] - 1
                } else {
                    p[i]
                },
        );
        assert forall|i: int| 0 <= i < n - 1 implies 0 <= #[trigger] inner[i] < n - 1 && b1[i]
            == a1[inner[i]] by {
            assert(p[i] != p[n - 1]);
            assert(b1[i] == a[p[i]]);
        }
        assert forall|i: int, k: int| 0 <= i < k < n - 1 implies #[trigger] inner[i]
            != #[trigger] inner[k] by {
            assert(p[i] != p[k]);
            assert(p[i] != p[n - 1]);
            assert(p[k] != p[n - 1]);
        }
        assert(rearranges(inner, a1, b1));
        rearrangement_is_anagram(inner, a1, b1);
        let x = b.last();
        assert(a[j] == x);
        to_multiset_remove(a, j);
        to_multiset_contains(a, x);
        remove_then_insert(a.to_multiset(), x);
        assert(b == b1.push(x));
        to_multiset_build(b1, x);
    }
}

/// Anagrams are rearrangements of each other.
proof fn anagram_has_rearrangement(a: Seq<u8>, b: Seq<u8>)
    requires
        is_anagram(a, b),
    ensures
        is_permutation(a, b),
    decreases a.len(),
{
    anagrams_have_equal_length(a, b);
    let n = a.len() as int;
    if n == 0 {
        assert(rearranges(Seq::<int>::empty(), a, b));
    } else {
        let x = b.last();
        assert(b[n - 1] == x);
        to_multiset_contains(a, x);
        to_multiset_contains(b, x);
        let j = choose|j: int| 0 <= j < a.len() && a[j] == x;
        let a1 = a.remove(j);
        let b1 = b.drop_last();
        assert(b.remove(n - 1) == b1);
        to_multiset_remove(a, j);
        to_multiset_remove(b, n - 1);
        anagram_has_rearrangement(a1, b1);
        let inner = choose|inner: Seq<int>| rearranges(inner, a1, b1);
        let p = Seq::new(
            n as nat,
            |i: int|
                if i == n - 1 {
                    j
                } else if inner[i] >= j {
                    inner[i] + 1
                } else {
                    inner[i]
                },
        );
        assert forall|i: int| 0 <= i < n implies 0 <= #[trigger] p[i] < n && b[i] == a[p[i]] by {
            if i < n - 1 {
                assert(0 <= inner[i] < n - 1);
                assert(b[i] == b1[i]);
                assert(b1[i] == a1[inner[i]]);
            }
        }
        assert forall|i: int, k: int| 0 <= i < k < n implies #[trigger] p[i] != #[trigger] p[k] by {
            assert(0 <= inner[i] < n - 1);
            if k < n - 1 {
                assert(inner[i] != inner[k]);
            }
        }
        assert(rearranges(p, a, b));
    }
}

/// Two byte strings are anagrams exactly when each is a permutation of the
/// bytes of the other.
pub proof fn anagrams_are_permutations(a: Seq<u8>, b: Seq<u8>)
    ensures
        is_anagram(a, b) <==> is_permutation(a, b),
{
    if is_anagram(a, b) {
        anagram_has_rearrangement(a, b);
    }
    if is_permutation(a, b) {
        let p = choose|p: Seq<int>| rearranges(p, a, b);
        rearrangement_is_anagram(p, a, b);
    }
}

/// Two byte strings have equal histograms exactly when each is a permutation
/// of the bytes of the other.
pub proof fn census_decides_permutations(a: Seq<u8>, b: Seq<u8>)
    ensures
        census(a) == census(b) <==> is_permutation(a, b),
{
    census_decides_anagrams(a, b);
    anagrams_are_permutations(a, b);
}

} // verus!
