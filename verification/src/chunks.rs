//! Partition descriptors: splitting a byte buffer of a given size into `n`
//! contiguous, disjoint ranges that cover it exactly.

use vstd::prelude::*;

verus! {

/// One contiguous byte range of the input, assigned to a single worker.
pub struct Partition {
    /// Offset of the first byte of the range.
    pub start: usize,
    /// Number of bytes the range covers.
    pub length: usize,
}

/// Where partition `i` of `n` begins in a source of `size` bytes.
pub open spec fn part_start(size: int, n: int, i: int) -> int {
    (size / n) * i
}

/// How many bytes partition `i` of `n` covers. Every partition gets
/// `size / n` bytes; the last one also absorbs the remainder `size % n`.
pub open spec fn part_len(size: int, n: int, i: int) -> int {
    if i == n - 1 {
        size / n + size % n
    } else {
        size / n
    }
}

/// The first offset past partition `p`.
pub open spec fn part_end(p: Partition) -> int {
    p.start + p.length
}

/// The ranges tile `[0, size)` exactly once: the first starts at offset 0,
/// each partition starts where the previous one ends, and the last ends at
/// `size`. No gaps, no overlaps.
pub open spec fn partitions_seamless(parts: Seq<Partition>, size: int) -> bool {
    &&& parts.len() > 0
    &&& parts[0].start == 0
    &&& forall|i: int|
        0 <= i < parts.len() - 1 ==> #[trigger] part_end(parts[i]) == parts[i + 1].start
    &&& part_end(parts[parts.len() - 1]) == size
}

/// The total number of bytes the partitions cover.
pub open spec fn sum_lengths(parts: Seq<Partition>) -> int
    decreases parts.len(),
{
    if parts.len() == 0 {
        0
    } else {
        sum_lengths(parts.drop_last()) + parts.last().length
    }
}

/// Every partition of a seamless tiling ends at or before `size`.
pub proof fn lemma_part_end_within(parts: Seq<Partition>, size: int, k: int)
    requires
        partitions_seamless(parts, size),
        0 <= k < parts.len(),
    ensures
        part_end(parts[k]) <= size,
    decreases parts.len() - k,
{
    if k < parts.len() - 1 {
        lemma_part_end_within(parts, size, k + 1);
    }
}

/// Partition coverage: the lengths of a seamless tiling sum to the full size.
pub proof fn lemma_partitions_cover_size(parts: Seq<Partition>, size: int)
    requires
        partitions_seamless(parts, size),
    ensures
        sum_lengths(parts) == size,
    decreases parts.len(),
{
    if parts.len() == 1 {
        assert(sum_lengths(parts.drop_last()) == 0);
    } else {
        let front = parts.drop_last();
        let mid = part_end(parts[parts.len() - 2]);
        assert(partitions_seamless(front, mid));
        lemma_partitions_cover_size(front, mid);
        assert(parts[parts.len() - 1].start == mid);
    }
}

/// Partitions of a seamless tiling are ordered by offset and pairwise
/// disjoint: an earlier partition ends at or before a later one begins.
pub proof fn lemma_partitions_ordered_disjoint(parts: Seq<Partition>, size: int)
    requires
        partitions_seamless(parts, size),
    ensures
        forall|i: int, j: int|
            0 <= i < j < parts.len() ==> #[trigger] part_end(parts[i]) <= #[trigger] parts[j].start,
{
    assert forall|i: int, j: int|
        0 <= i < j < parts.len() implies #[trigger] part_end(parts[i]) <= #[trigger] parts[j].start by {
        lemma_end_le_later_start(parts, size, i, j);
    }
}

proof fn lemma_end_le_later_start(parts: Seq<Partition>, size: int, i: int, j: int)
    requires
        partitions_seamless(parts, size),
        0 <= i < j < parts.len(),
    ensures
        part_end(parts[i]) <= parts[j].start,
    decreases j - i,
{
    if j == i + 1 {
        assert(part_end(parts[i]) == parts[i + 1].start);
    } else {
        lemma_end_le_later_start(parts, size, i, j - 1);
        assert(part_end(parts[j - 1]) == parts[j].start);
    }
}

/// Computes the `n` partition descriptors for a source of `size` bytes:
/// partition `i` starts at `(size / n) * i` and covers `size / n` bytes,
/// except the last, which also covers the remainder `size % n`. The result
/// tiles `[0, size)` exactly once.
pub fn make_partitions(size: usize, n: usize) -> (parts: Vec<Partition>)
    requires
        1 <= n,
    ensures
        parts@.len() == n,
        forall|i: int|
            0 <= i < n ==> #[trigger] parts@[i].start == part_start(size as int, n as int, i)
                && parts@[i].length == part_len(size as int, n as int, i),
        partitions_seamless(parts@, size as int),
{
    let base: usize = size / n;
    let rem: usize = size % n;
    let mut parts: Vec<Partition> = Vec::new();
    let mut i: usize = 0;
    while i < n
        invariant
            1 <= n,
            i <= n,
            base == size as int / n as int,
            rem == size as int % n as int,
            parts@.len() == i,
            forall|j: int|
                0 <= j < i ==> #[trigger] parts@[j].start == part_start(size as int, n as int, j)
                    && parts@[j].length == part_len(size as int, n as int, j),
        decreases n - i,
    {
        proof {
            assert(base * i + base + rem <= size) by (nonlinear_arith)
                requires
                    0 <= i < n,
                    base == size as int / n as int,
                    rem == size as int % n as int,
            ;
        }
        let start: usize = base * i;
        let length: usize = if i == n - 1 {
            base + rem
        } else {
            base
        };
        parts.push(Partition { start, length });
        i = i + 1;
    }
    proof {
        assert forall|k: int| 0 <= k < n as int - 1 implies #[trigger] part_end(parts@[k])
            == parts@[k + 1].start by {
            assert((size as int / n as int) * k + size as int / n as int
                == (size as int / n as int) * (k + 1)) by (nonlinear_arith);
        }
        assert(part_end(parts@[n as int - 1]) == size) by {
            assert((size as int / n as int) * (n as int - 1) + (size as int / n as int
                + size as int % n as int) == size) by (nonlinear_arith)
                requires
                    1 <= n as int,
            ;
        }
    }
    parts
}

} // verus!
