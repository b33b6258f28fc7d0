//! The division of a corpus into line-aligned chunks of about equal size.

use crate::lines::{
    ends_lines, first_newline_is_line_end, line_end, line_end_is_first_newline, lines,
    lines_of_concat, NEWLINE,
};
use memchr::memchr;
use vstd::prelude::*;

verus! {

/// A stretch `[start, end)` of the corpus, in contracts.
pub struct Span {
    pub start: int,
    pub end: int,
}

/// The stretch `[start, end)` of the corpus that one worker scans.
#[derive(Clone, Copy, Debug, PartialEq, Eq)]
pub struct ChunkBoundary {
    pub start: usize,
    pub end: usize,
}

impl View for ChunkBoundary {
    type V = Span;

    open spec fn view(&self) -> Span {
        Span { start: self.start as int, end: self.end as int }
    }
}

impl DeepView for ChunkBoundary {
    type V = Span;

    open spec fn deep_view(&self) -> Span {
        self@
    }
}

/// Where the cut after chunk `i` would fall if the corpus were cut into
/// `parts` stretches of equal size.
pub open spec fn even_cut(len: nat, parts: nat, i: nat) -> int {
    ((len * (i + 1)) / parts) as int
}

/// The offset just after the first `NEWLINE` at or after `from`, where there
/// is one.
pub open spec fn next_line_start(data: Seq<u8>, from: int) -> Option<int> {
    let n = line_end(data.skip(from));
    if from + n < data.len() {
        Some(from + n + 1)
    } else {
        None
    }
}

/// The chunks that remain to be cut when cut `i` of `parts - 1` is due and
/// the current chunk begins at `start`.
///
/// Cut `i` is looked for from the even cut onwards, or from `start` where an
/// earlier cut has run past that, and is made at the start of the next line.
/// Where no line starts there any more, the cut is left out. The last chunk
/// runs to the end of the corpus.
pub open spec fn chunks_from(data: Seq<u8>, parts: nat, i: nat, start: int) -> Seq<Span>
    decreases parts - i,
{
    if i + 1 >= parts {
        seq![Span { start, end: data.len() as int }]
    } else {
        let aim = even_cut(data.len(), parts, i);
        let from = if start > aim {
            start
        } else {
            aim
        };
        match next_line_start(data, from) {
            Some(end) => seq![Span { start, end }] + chunks_from(data, parts, i + 1, end),
            None => chunks_from(data, parts, i + 1, start),
        }
    }
}

/// The chunks into which `data` is cut for `parts` workers.
pub open spec fn chunk_bounds(data: Seq<u8>, parts: nat) -> Seq<Span> {
    chunks_from(data, parts, 0, 0)
}

/// `chunks` divide the stretch of `data` from `start` to its end without gap
/// or overlap, and every chunk but the last is not empty and ends just after
/// a `NEWLINE`.
pub open spec fn divides_from(data: Seq<u8>, chunks: Seq<Span>, start: int) -> bool {
    &&& chunks.len() >= 1
    &&& chunks[0].start == start
    &&& chunks.last().end == data.len()
    &&& forall|k: int|
        0 <= k < chunks.len() ==> 0 <= (#[trigger] chunks[k]).start <= chunks[k].end <= data.len()
    &&& forall|k: int|
        0 <= k < chunks.len() - 1 ==> (#[trigger] chunks[k]).end == chunks[k + 1].start
    &&& forall|k: int|
        0 <= k < chunks.len() - 1 ==> {
            &&& (#[trigger] chunks[k]).start < chunks[k].end
            &&& data[chunks[k].end - 1] == NEWLINE
        }
}

/// `chunks` cover all of `data` without gap or overlap, and no line lies across
/// two of them.
pub open spec fn is_line_partition(data: Seq<u8>, chunks: Seq<Span>) -> bool {
    divides_from(data, chunks, 0)
}

/// What `f` makes of each chunk on its own, in chunk order.
pub open spec fn chunkwise<T>(
    f: spec_fn(Seq<u8>) -> Seq<T>,
    data: Seq<u8>,
    chunks: Seq<Span>,
) -> Seq<Seq<T>> {
    Seq::new(chunks.len(), |k: int| f(data.subrange(chunks[k].start, chunks[k].end)))
}

/// `f` reads a corpus line by line: what it makes of `a + b`, where `a` ends
/// with a line ending, is what it makes of `a` followed by what it makes of
/// `b`.
pub open spec fn reads_by_line<T>(f: spec_fn(Seq<u8>) -> Seq<T>) -> bool {
    forall|a: Seq<u8>, b: Seq<u8>| ends_lines(a) ==> #[trigger] f(a + b) == f(a) + f(b)
}

/// Joined in chunk order, what `f` makes of the first `k` chunks is what it
/// makes of the corpus up to the end of chunk `k - 1`.
proof fn first_chunks_join<T>(
    f: spec_fn(Seq<u8>) -> Seq<T>,
    data: Seq<u8>,
    chunks: Seq<Span>,
    k: int,
)
    requires
        reads_by_line(f),
        is_line_partition(data, chunks),
        1 <= k <= chunks.len(),
    ensures
        chunkwise(f, data, chunks).take(k).flatten() == f(data.take(chunks[k - 1].end)),
    decreases k,
{
    let made = chunkwise(f, data, chunks);
    let piece = data.subrange(chunks[k - 1].start, chunks[k - 1].end);
    if k == 1 {
        assert(made.take(1) == seq![made[0]]);
        made.take(1).lemma_flatten_one_element();
        assert(piece == data.take(chunks[0].end));
    } else {
        first_chunks_join(f, data, chunks, k - 1);
        assert(made.take(k) == made.take(k - 1).push(made[k - 1]));
        made.take(k - 1).lemma_flatten_push(made[k - 1]);
        let done = data.take(chunks[k - 2].end);
        assert(ends_lines(done)) by {
            assert(chunks[k - 2].start < chunks[k - 2].end);
            assert(done.last() == data[chunks[k - 2].end - 1]);
        }
        assert(chunks[k - 2].end == chunks[k - 1].start);
        assert(done + piece == data.take(chunks[k - 1].end));
        assert(f(done + piece) == f(done) + f(piece));
    }
}

/// Whatever reads a corpus line by line can read the chunks of a line
/// partition one by one instead: joined in chunk order, the results are the
/// result for the whole corpus.
pub proof fn chunks_join<T>(f: spec_fn(Seq<u8>) -> Seq<T>, data: Seq<u8>, chunks: Seq<Span>)
    requires
        reads_by_line(f),
        is_line_partition(data, chunks),
    ensures
        chunkwise(f, data, chunks).flatten() == f(data),
{
    let made = chunkwise(f, data, chunks);
    first_chunks_join(f, data, chunks, chunks.len() as int);
    assert(made.take(chunks.len() as int) == made);
    assert(data.take(chunks.last().end) == data);
}

/// No line lies across two chunks of a line partition: the lines of the
/// chunks, in chunk order, are the lines of the corpus.
pub proof fn partition_keeps_lines(data: Seq<u8>, chunks: Seq<Span>)
    requires
        is_line_partition(data, chunks),
    ensures
        chunkwise(|part: Seq<u8>| lines(part), data, chunks).flatten() == lines(data),
{
    let f = |part: Seq<u8>| lines(part);
    assert forall|a: Seq<u8>, b: Seq<u8>| ends_lines(a) implies #[trigger] f(a + b) == f(a) + f(
        b,
    ) by {
        lines_of_concat(a, b);
    }
    chunks_join(f, data, chunks);
}

/// An even cut that is not the last falls inside the corpus.
pub proof fn even_cut_in_bounds(len: nat, parts: nat, i: nat)
    requires
        i + 1 <= parts,
    ensures
        0 <= even_cut(len, parts, i) <= len,
{
    assert(0 <= (len * (i + 1)) / parts <= len) by (nonlinear_arith)
        requires
            0 < i + 1 <= parts,
    ;
}

/// Whatever is still to be cut divides the rest of the corpus, line by line,
/// into no more chunks than there are workers left.
pub proof fn chunks_from_divide(data: Seq<u8>, parts: nat, i: nat, start: int)
    requires
        i < parts,
        0 <= start <= data.len(),
    ensures
        divides_from(data, chunks_from(data, parts, i, start), start),
        chunks_from(data, parts, i, start).len() <= parts - i,
    decreases parts - i,
{
    if i + 1 < parts {
        even_cut_in_bounds(data.len(), parts, i);
        let aim = even_cut(data.len(), parts, i);
        let from = if start > aim {
            start
        } else {
            aim
        };
        let tail = data.skip(from);
        line_end_is_first_newline(tail);
        match next_line_start(data, from) {
            Some(end) => {
                assert(data[end - 1] == tail[end - 1 - from]);
                chunks_from_divide(data, parts, i + 1, end);
                let rest = chunks_from(data, parts, i + 1, end);
                let all = seq![Span { start, end }] + rest;
                assert forall|k: int| 0 <= k < all.len() - 1 implies (#[trigger] all[k]).end
                    == all[k + 1].start by {
                    if k > 0 {
                        assert(all[k] == rest[k - 1]);
                        assert(all[k + 1] == rest[k]);
                    }
                }
                assert forall|k: int| 0 <= k < all.len() - 1 implies (#[trigger] all[k]).start
                    < all[k].end && data[all[k].end - 1] == NEWLINE by {
                    if k > 0 {
                        assert(all[k] == rest[k - 1]);
                    }
                }
                assert forall|k: int| 0 <= k < all.len() implies 0 <= (#[trigger] all[k]).start
                    <= all[k].end <= data.len() by {
                    if k > 0 {
                        assert(all[k] == rest[k - 1]);
                    }
                }
                assert(all.last() == rest.last());
            },
            None => {
                chunks_from_divide(data, parts, i + 1, start);
            },
        }
    }
}

/// The chunks cut for any number of workers cover the whole corpus without
/// gap or overlap, every cut falls just after a `NEWLINE`, and there are no
/// more chunks than workers.
pub proof fn chunk_bounds_cover(data: Seq<u8>, parts: nat)
    requires
        parts >= 1,
    ensures
        is_line_partition(data, chunk_bounds(data, parts)),
        chunk_bounds(data, parts).len() <= parts,
{
    chunks_from_divide(data, parts, 0, 0);
}

/// Cuts `data` into chunks for `threads` workers.
///
/// The cuts are aimed at stretches of equal size and moved forward to the
/// next start of a line, so the chunks can be scanned independently.
pub fn partition(data: &[u8], threads: usize) -> (chunks: Vec<ChunkBoundary>)
    requires
        threads >= 1,
    ensures
        chunks.deep_view() == chunk_bounds(data@, threads as nat),
        is_line_partition(data@, chunks.deep_view()),
        1 <= chunks.len() <= threads,
{
    let mut chunks: Vec<ChunkBoundary> = Vec::new();
    let mut startpos: usize = 0;
    let mut i: usize = 0;
    proof {
        assert(chunks.deep_view() + chunks_from(data@, threads as nat, 0, 0) == chunk_bounds(
            data@,
            threads as nat,
        ));
    }
    while i < threads - 1
        invariant
            threads >= 1,
            i <= threads - 1,
            startpos <= data.len(),
            chunks.deep_view() + chunks_from(data@, threads as nat, i as nat, startpos as int)
                == chunk_bounds(data@, threads as nat),
        decreases threads - i,
    {
        proof {
            even_cut_in_bounds(data@.len(), threads as nat, i as nat);
            assert(data.len() * (i + 1) <= u128::MAX) by (nonlinear_arith)
                requires
                    data.len() <= u64::MAX,
                    i + 1 <= u64::MAX,
            ;
        }
        let aim: usize = ((data.len() as u128 * (i as u128 + 1)) / (threads as u128)) as usize;
        let tmp_pos: usize = if startpos > aim {
            startpos
        } else {
            aim
        };
        let rest = &data[tmp_pos..data.len()];
        match memchr(NEWLINE, rest) {
            Some(offset) => {
                proof {
                    first_newline_is_line_end(rest@, offset as int);
                }
                let endpos: usize = tmp_pos + offset + 1;
                let ghost before = chunks.deep_view();
                chunks.push(ChunkBoundary { start: startpos, end: endpos });
                proof {
                    let cut = Span { start: startpos as int, end: endpos as int };
                    assert(chunks.deep_view() == before.push(cut));
                    let later = chunks_from(data@, threads as nat, (i + 1) as nat, endpos as int);
                    assert(before.push(cut) + later == before + (seq![cut] + later));
                }
                startpos = endpos;
            },
            None => {
                proof {
                    first_newline_is_line_end(rest@, rest@.len() as int);
                }
            },
        }
        i += 1;
    }
    let ghost before = chunks.deep_view();
    chunks.push(ChunkBoundary { start: startpos, end: data.len() });
    proof {
        let last = Span { start: startpos as int, end: data.len() as int };
        assert(chunks.deep_view() == before.push(last));
        assert(before.push(last) == before + seq![last]);
        chunk_bounds_cover(data@, threads as nat);
    }
    chunks
}

} // verus!
