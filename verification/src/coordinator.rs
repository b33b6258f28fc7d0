//! The whole search: cut the corpus, scan every chunk, join the results in
//! chunk order.

use crate::lines::{anagram_lines, anagram_lines_of_concat, ends_lines};
use crate::needle::Needle;
use crate::partition::{chunks_join, chunkwise, is_line_partition, partition, ChunkBoundary, Span};
use crate::scan::child_thread;
use vstd::prelude::*;

verus! {

/// What the query finds in each chunk on its own, in chunk order.
pub open spec fn chunk_results(
    query: Seq<u8>,
    data: Seq<u8>,
    chunks: Seq<Span>,
) -> Seq<Seq<Seq<char>>> {
    chunkwise(|part: Seq<u8>| anagram_lines(query, part), data, chunks)
}

/// The results of the chunks of a line partition, joined in chunk order, are
/// the result of one scan over the whole corpus. What a search returns
/// therefore depends on the corpus and the query alone: not on the number of
/// chunks, nor on where the cuts fall, nor on the order in which the chunks
/// are scanned.
pub proof fn chunked_scan_is_whole_scan(query: Seq<u8>, data: Seq<u8>, chunks: Seq<Span>)
    requires
        is_line_partition(data, chunks),
    ensures
        chunk_results(query, data, chunks).flatten() == anagram_lines(query, data),
{
    let f = |part: Seq<u8>| anagram_lines(query, part);
    assert forall|a: Seq<u8>, b: Seq<u8>| ends_lines(a) implies #[trigger] f(a + b) == f(a) + f(
        b,
    ) by {
        anagram_lines_of_concat(query, a, b);
    }
    chunks_join(f, data, chunks);
}

/// The number of workers for a machine that reports `cpus` processors: one
/// for each of them, and one where it reports none.
pub fn workers_for(cpus: usize) -> (threads: usize)
    ensures
        threads == if cpus == 0 {
            1
        } else {
            cpus
        },
{
    if cpus == 0 {
        1
    } else {
        cpus
    }
}

/// `num_cpus::get`: the number of logical processors that this process may
/// use. It depends on the machine, and nothing is claimed of it here.
#[verifier::external_body]
fn logical_cpus() -> usize {
    num_cpus::get()
}

/// The number of workers to cut the corpus for on this machine: what
/// `workers_for` makes of the number of processors that the machine reports.
/// That number differs from machine to machine, so all that holds of every
/// outcome is that there is a worker.
pub fn available_workers() -> (threads: usize)
    ensures
        threads >= 1,
{
    let cpus: usize = logical_cpus();
    workers_for(cpus)
}

/// Joins the results of the chunks, given in chunk order, into one list.
pub fn gather(parts: Vec<Vec<String>>) -> (all: Vec<String>)
    ensures
        all.deep_view() == parts.deep_view().flatten(),
{
    let ghost whole = parts.deep_view();
    let ghost items = parts@;
    let mut all: Vec<String> = Vec::new();
    proof {
        assert(whole.take(0).flatten() == Seq::<Seq<char>>::empty());
        assert(all.deep_view() == Seq::<Seq<char>>::empty());
    }
    for part in it: parts
        invariant
            it.seq() == items,
            whole.len() == items.len(),
            forall|k: int| 0 <= k < items.len() ==> whole[k] == #[trigger] items[k].deep_view(),
            all.deep_view() == whole.take(it.index() as int).flatten(),
    {
        let mut part = part;
        let ghost before = all.deep_view();
        let ghost added = part.deep_view();
        all.append(&mut part);
        proof {
            assert(all.deep_view() == before + added);
            let k = it.index() as int;
            assert(whole.take(k + 1) == whole.take(k).push(whole[k]));
            whole.take(k).lemma_flatten_push(whole[k]);
        }
    }
    proof {
        assert(whole.take(whole.len() as int) == whole);
    }
    all
}

/// Finds the lines of `data` that are anagrams of the query, working through
/// the chunks for `threads` workers one after the other.
///
/// The result is that of one scan over the whole of `data`, whatever
/// `threads` is.
pub fn search(ndl: &Needle, data: &[u8], threads: usize) -> (found: Vec<String>)
    requires
        threads >= 1,
    ensures
        found.deep_view() == anagram_lines(ndl@, data@),
{
    let chunks = partition(data, threads);
    let mut parts: Vec<Vec<String>> = Vec::new();
    let mut k: usize = 0;
    while k < chunks.len()
        invariant
            k <= chunks.len(),
            is_line_partition(data@, chunks.deep_view()),
            parts.deep_view() == chunk_results(ndl@, data@, chunks.deep_view()).take(k as int),
        decreases chunks.len() - k,
    {
        let chunk: &ChunkBoundary = &chunks[k];
        proof {
            assert(chunks.deep_view()[k as int] == chunk@);
        }
        let part = child_thread(ndl, &data[chunk.start..chunk.end]);
        let ghost before = parts.deep_view();
        parts.push(part);
        proof {
            let results = chunk_results(ndl@, data@, chunks.deep_view());
            assert(parts.deep_view() == before.push(part.deep_view()));
            assert(results.take(k + 1) == results.take(k as int).push(results[k as int]));
        }
        k += 1;
    }
    proof {
        let results = chunk_results(ndl@, data@, chunks.deep_view());
        assert(results.take(chunks.len() as int) == results);
        chunked_scan_is_whole_scan(ndl@, data@, chunks.deep_view());
    }
    gather(parts)
}

} // verus!
