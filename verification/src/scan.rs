//! Counting newline delimiter bytes in a byte buffer, sequentially or by
//! scanning disjoint partitions concurrently and summing the partial counts.

use vstd::prelude::*;
use crate::chunks::{
    Partition, make_partitions, part_end, partitions_seamless, lemma_part_end_within,
};
use rayon::iter::{IndexedParallelIterator, IntoParallelRefIterator, ParallelIterator};

verus! {

/// The delimiter whose occurrences are counted: the newline byte.
pub const NEW_LINE: u8 = 0x0a;

/// The number of newline delimiter bytes in `s`.
pub open spec fn count_newlines(s: Seq<u8>) -> int
    decreases s.len(),
{
    if s.len() == 0 {
        0
    } else {
        count_newlines(s.drop_last()) + if s.last() == NEW_LINE {
            1int
        } else {
            0int
        }
    }
}

/// A count is never negative and never exceeds the number of bytes scanned.
pub proof fn lemma_count_newlines_bounds(s: Seq<u8>)
    ensures
        0 <= count_newlines(s) <= s.len(),
    decreases s.len(),
{
    if s.len() > 0 {
        lemma_count_newlines_bounds(s.drop_last());
    }
}

/// Counting distributes over concatenation of byte sequences.
pub proof fn lemma_count_newlines_concat(a: Seq<u8>, b: Seq<u8>)
    ensures
        count_newlines(a + b) == count_newlines(a) + count_newlines(b),
    decreases b.len(),
{
    if b.len() == 0 {
        assert(a + b =~= a);
    } else {
        lemma_count_newlines_concat(a, b.drop_last());
        assert((a + b).drop_last() =~= a + b.drop_last());
        assert((a + b).last() == b.last());
    }
}

/// Scans `length` bytes of `data` starting at offset `start` and returns the
/// number of newline delimiter bytes among them. This is the one scanning
/// routine: the sequential mode runs it over the whole buffer, and each
/// partitioned-mode worker runs it over its own range.
pub fn count_range(data: &Vec<u8>, start: usize, length: usize) -> (count: usize)
    requires
        start + length <= data@.len(),
    ensures
        count == count_newlines(data@.subrange(start as int, start as int + length as int)),
{
    let data_len: usize = data.len();
    let mut acc: usize = 0;
    let mut i: usize = 0;
    while i < length
        invariant
            data_len == data@.len(),
            start + length <= data@.len(),
            i <= length,
            acc == count_newlines(data@.subrange(start as int, start as int + i as int)),
        decreases length - i,
    {
        proof {
            lemma_count_newlines_bounds(data@.subrange(start as int, start as int + i as int));
            assert(data@.subrange(start as int, start as int + i as int + 1).drop_last()
                =~= data@.subrange(start as int, start as int + i as int));
        }
        if data[start + i] == NEW_LINE {
            acc = acc + 1;
        }
        i = i + 1;
    }
    acc
}

/// Sequential mode: one scan over the whole buffer, returning exactly the
/// number of newline delimiter bytes it holds.
pub fn sequential_count(data: &Vec<u8>) -> (count: usize)
    ensures
        count == count_newlines(data@),
{
    proof {
        assert(data@.subrange(0, data@.len() as int) =~= data@);
    }
    count_range(data, 0, data.len())
}

/// The sum of the per-partition newline counts over the first `k` partitions.
pub open spec fn sum_partial_counts(s: Seq<u8>, parts: Seq<Partition>, k: int) -> int
    decreases k,
{
    if k <= 0 {
        0
    } else {
        sum_partial_counts(s, parts, k - 1) + count_newlines(
            s.subrange(parts[k - 1].start as int, part_end(parts[k - 1])),
        )
    }
}

/// The offset just past the first `k` partitions: 0 when `k == 0`, otherwise
/// the end of partition `k - 1`.
pub open spec fn prefix_end(parts: Seq<Partition>, k: int) -> int {
    if k <= 0 {
        0
    } else {
        part_end(parts[k - 1])
    }
}

/// The partial counts of the first `k` partitions of a seamless tiling sum to
/// the newline count of the prefix those partitions cover.
pub proof fn lemma_prefix_counts(s: Seq<u8>, parts: Seq<Partition>, k: int)
    requires
        partitions_seamless(parts, s.len() as int),
        0 <= k <= parts.len(),
    ensures
        0 <= prefix_end(parts, k) <= s.len(),
        sum_partial_counts(s, parts, k) == count_newlines(s.subrange(0, prefix_end(parts, k))),
    decreases k,
{
    if k == 0 {
        assert(count_newlines(s.subrange(0, 0)) == 0);
    } else {
        lemma_prefix_counts(s, parts, k - 1);
        let lo = parts[k - 1].start as int;
        let hi = part_end(parts[k - 1]);
        lemma_part_end_within(parts, s.len() as int, k - 1);
        assert(prefix_end(parts, k - 1) == lo);
        assert(s.subrange(0, hi) =~= s.subrange(0, lo) + s.subrange(lo, hi));
        lemma_count_newlines_concat(s.subrange(0, lo), s.subrange(lo, hi));
    }
}

/// Mode equivalence: for any seamless tiling of the buffer into partitions,
/// the per-partition newline counts sum to the newline count of the whole
/// buffer, so the partitioned scan and the sequential scan agree.
pub proof fn lemma_mode_equivalence(s: Seq<u8>, parts: Seq<Partition>)
    requires
        partitions_seamless(parts, s.len() as int),
    ensures
        sum_partial_counts(s, parts, parts.len() as int) == count_newlines(s),
{
    lemma_prefix_counts(s, parts, parts.len() as int);
    assert(s.subrange(0, prefix_end(parts, parts.len() as int)) =~= s);
}

/// Relies on rayon's `par_iter`, `map` and `collect_into_vec`: the indexed
/// parallel iterator over a slice yields its elements in index order, `map`
/// applies the closure to each, and `collect_into_vec` stores the result for
/// element `i` at index `i`, so the output is one count per partition, in the
/// partitions' order. The closure only calls the verified `count_range`.
#[verifier::external_body]
fn partial_counts_parallel(data: &Vec<u8>, parts: &Vec<Partition>) -> (counts: Vec<usize>)
    requires
        forall|i: int| 0 <= i < parts@.len() ==> #[trigger] part_end(parts@[i]) <= data@.len(),
    ensures
        counts@.len() == parts@.len(),
        forall|i: int|
            0 <= i < parts@.len() ==> #[trigger] counts@[i] == count_newlines(
                data@.subrange(parts@[i].start as int, part_end(parts@[i])),
            ),
{
    let mut counts: Vec<usize> = Vec::new();
    parts
        .par_iter()
        .map(|p| count_range(data, p.start, p.length))
        .collect_into_vec(&mut counts);
    counts
}

/// Relies on num_cpus::get: the number of logical CPUs available to the
/// process, which is always at least 1.
#[verifier::external_body]
pub(crate) fn host_parallelism() -> (n: usize)
    ensures
        1 <= n,
{
    num_cpus::get()
}

/// Partitioned mode: splits the buffer into `n` seamless partitions, scans
/// them concurrently, and sums the partial counts. The result equals the
/// newline count of the whole buffer, independent of `n`.
pub fn partitioned_count(data: &Vec<u8>, n: usize) -> (count: usize)
    requires
        1 <= n,
    ensures
        count == count_newlines(data@),
{
    let parts = make_partitions(data.len(), n);
    proof {
        assert forall|i: int| 0 <= i < parts@.len() implies #[trigger] part_end(parts@[i])
            <= data@.len() by {
            lemma_part_end_within(parts@, data@.len() as int, i);
        }
    }
    let partials = partial_counts_parallel(data, &parts);
    let data_len: usize = data.len();
    let mut total: usize = 0;
    let mut i: usize = 0;
    while i < n
        invariant
            data_len == data@.len(),
            parts@.len() == n,
            partials@.len() == n,
            partitions_seamless(parts@, data@.len() as int),
            forall|j: int| 0 <= j < n ==> #[trigger] part_end(parts@[j]) <= data@.len(),
            forall|j: int|
                0 <= j < n ==> #[trigger] partials@[j] == count_newlines(
                    data@.subrange(parts@[j].start as int, part_end(parts@[j])),
                ),
            i <= n,
            total == sum_partial_counts(data@, parts@, i as int),
        decreases n - i,
    {
        proof {
            lemma_prefix_counts(data@, parts@, i as int + 1);
            lemma_count_newlines_bounds(data@.subrange(0, prefix_end(parts@, i as int + 1)));
        }
        total = total + partials[i];
        i = i + 1;
    }
    proof {
        lemma_mode_equivalence(data@, parts@);
    }
    total
}

/// Counts the newline delimiter bytes in `data`, scanning one partition per
/// available execution unit of the host concurrently. Observably equivalent
/// to `sequential_count`: both return exactly the number of newline bytes.
pub fn count(data: &Vec<u8>) -> (count: usize)
    ensures
        count == count_newlines(data@),
{
    let n = host_parallelism();
    partitioned_count(data, n)
}

} // verus!
