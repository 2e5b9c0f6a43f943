//! Splitting an integer range into contiguous chunks, one per worker.

use vstd::prelude::*;

verus! {

/// A contiguous subrange assigned to one worker: the integers `x` with
/// `start_inclusive <= x < end_exclusive`.
#[derive(Clone, Copy, Debug, PartialEq, Eq, Structural)]
pub struct WorkPartition {
    pub start_inclusive: u32,
    pub end_exclusive: u32,
}

impl WorkPartition {
    /// Whether `x` lies in this partition.
    pub open spec fn contains(self, x: int) -> bool {
        self.start_inclusive <= x < self.end_exclusive
    }
}

/// The number of integers that every worker but the last receives.
pub open spec fn chunk_size(range_start: int, range_end: int, worker_count: int) -> int {
    (range_end - range_start) / worker_count
}

/// The first integer of worker `i`'s partition.
pub open spec fn partition_start(range_start: int, range_end: int, worker_count: int, i: int) -> int {
    range_start + i * chunk_size(range_start, range_end, worker_count)
}

/// The end of worker `i`'s partition: where the next worker starts, or, for
/// the last worker, the end of the whole range, so that it takes what the
/// division left over.
pub open spec fn partition_end(range_start: int, range_end: int, worker_count: int, i: int) -> int {
    if i == worker_count - 1 {
        range_end
    } else {
        range_start + (i + 1) * chunk_size(range_start, range_end, worker_count)
    }
}

/// `parts` is the split of `[range_start, range_end)` among `worker_count`
/// workers.
pub open spec fn is_split(
    parts: Seq<WorkPartition>,
    range_start: int,
    range_end: int,
    worker_count: int,
) -> bool {
    &&& parts.len() == worker_count
    &&& forall|i: int|
        0 <= i < worker_count ==> {
            &&& (#[trigger] parts[i]).start_inclusive == partition_start(
                range_start,
                range_end,
                worker_count,
                i,
            )
            &&& parts[i].end_exclusive == partition_end(range_start, range_end, worker_count, i)
        }
}

/// Every partition of a split lies inside the range, none is inverted, and
/// each begins where the one before it ended.
pub proof fn lemma_split_is_contiguous(
    range_start: int,
    range_end: int,
    worker_count: int,
    i: int,
)
    requires
        range_start <= range_end,
        worker_count >= 1,
        0 <= i < worker_count,
    ensures
        range_start <= partition_start(range_start, range_end, worker_count, i),
        partition_start(range_start, range_end, worker_count, i) <= partition_end(
            range_start,
            range_end,
            worker_count,
            i,
        ),
        partition_end(range_start, range_end, worker_count, i) <= range_end,
        i == 0 ==> partition_start(range_start, range_end, worker_count, i) == range_start,
        i == worker_count - 1 ==> partition_end(range_start, range_end, worker_count, i)
            == range_end,
        i + 1 < worker_count ==> partition_end(range_start, range_end, worker_count, i)
            == partition_start(range_start, range_end, worker_count, i + 1),
{
    let length = range_end - range_start;
    let chunk = chunk_size(range_start, range_end, worker_count);
    assert(chunk == length / worker_count);
    assert(0 <= chunk && worker_count * chunk <= length) by {
        vstd::arithmetic::div_mod::lemma_fundamental_div_mod(length, worker_count);
        vstd::arithmetic::div_mod::lemma_div_pos_is_pos(length, worker_count);
        vstd::arithmetic::div_mod::lemma_mod_bound(length, worker_count);
    }
    assert(0 <= i * chunk <= (i + 1) * chunk <= worker_count * chunk) by (nonlinear_arith)
        requires
            0 <= i < worker_count,
            0 <= chunk,
    ;
}

/// Finds, for an integer `x` of the range that lies below the end of
/// partition `k`, the partition that holds it.
proof fn lemma_find_partition(
    range_start: int,
    range_end: int,
    worker_count: int,
    x: int,
    k: int,
) -> (i: int)
    requires
        range_start <= range_end,
        worker_count >= 1,
        0 <= k < worker_count,
        range_start <= x < partition_end(range_start, range_end, worker_count, k),
    ensures
        0 <= i <= k,
        partition_start(range_start, range_end, worker_count, i) <= x < partition_end(
            range_start,
            range_end,
            worker_count,
            i,
        ),
    decreases k,
{
    lemma_split_is_contiguous(range_start, range_end, worker_count, k);
    if x >= partition_start(range_start, range_end, worker_count, k) {
        k
    } else {
        lemma_split_is_contiguous(range_start, range_end, worker_count, k - 1);
        lemma_find_partition(range_start, range_end, worker_count, x, k - 1)
    }
}

/// An earlier partition ends at or before the start of every later one.
proof fn lemma_partitions_ordered(
    range_start: int,
    range_end: int,
    worker_count: int,
    i: int,
    j: int,
)
    requires
        range_start <= range_end,
        worker_count >= 1,
        0 <= i < j < worker_count,
    ensures
        partition_end(range_start, range_end, worker_count, i) <= partition_start(
            range_start,
            range_end,
            worker_count,
            j,
        ),
{
    let chunk = chunk_size(range_start, range_end, worker_count);
    lemma_split_is_contiguous(range_start, range_end, worker_count, i);
    assert(0 <= chunk) by {
        vstd::arithmetic::div_mod::lemma_div_pos_is_pos(range_end - range_start, worker_count);
    }
    assert((i + 1) * chunk <= j * chunk) by (nonlinear_arith)
        requires
            0 <= i < j,
            0 <= chunk,
    ;
}

/// Whether some partition of `parts` contains `x`.
pub open spec fn covers(parts: Seq<WorkPartition>, x: int) -> bool {
    exists|i: int| 0 <= i < parts.len() && #[trigger] parts[i].contains(x)
}

/// The partitions of a split cover the range exactly: some partition
/// contains an integer if and only if it lies in `[range_start, range_end)`.
pub proof fn lemma_split_covers_range(
    parts: Seq<WorkPartition>,
    range_start: int,
    range_end: int,
    worker_count: int,
)
    requires
        range_start <= range_end,
        worker_count >= 1,
        is_split(parts, range_start, range_end, worker_count),
    ensures
        forall|x: int| #[trigger] covers(parts, x) <==> range_start <= x < range_end,
{
    assert forall|x: int| range_start <= x < range_end implies #[trigger] covers(parts, x) by {
        let i = lemma_find_partition(range_start, range_end, worker_count, x, worker_count - 1);
        assert(parts[i].contains(x));
    }
    assert forall|x: int| #[trigger] covers(parts, x) implies range_start <= x < range_end by {
        let i = choose|i: int| 0 <= i < parts.len() && #[trigger] parts[i].contains(x);
        lemma_split_is_contiguous(range_start, range_end, worker_count, i);
    }
}

/// No integer lies in two partitions of a split.
pub proof fn lemma_split_is_disjoint(
    parts: Seq<WorkPartition>,
    range_start: int,
    range_end: int,
    worker_count: int,
)
    requires
        range_start <= range_end,
        worker_count >= 1,
        is_split(parts, range_start, range_end, worker_count),
    ensures
        forall|i: int, j: int, x: int|
            0 <= i < worker_count && 0 <= j < worker_count && i != j ==> !(
            #[trigger] parts[i].contains(x) && #[trigger] parts[j].contains(x)),
{
    assert forall|i: int, j: int, x: int|
        0 <= i < worker_count && 0 <= j < worker_count && i != j implies !(
    #[trigger] parts[i].contains(x) && #[trigger] parts[j].contains(x)) by {
        if i < j {
            lemma_partitions_ordered(range_start, range_end, worker_count, i, j);
        } else {
            lemma_partitions_ordered(range_start, range_end, worker_count, j, i);
        }
    }
}

/// Splits `[range_start, range_end)` among `worker_count` workers. Worker
/// `i` receives `chunk_size` consecutive integers starting at
/// `range_start + i * chunk_size`; the last worker's partition runs to
/// `range_end`. With fewer integers than workers, every partition but the
/// last is empty.
pub fn partition(range_start: u32, range_end: u32, worker_count: usize) -> (parts: Vec<
    WorkPartition,
>)
    requires
        range_start <= range_end,
        worker_count >= 1,
    ensures
        is_split(parts@, range_start as int, range_end as int, worker_count as int),
{
    let length: u64 = (range_end - range_start) as u64;
    let chunk: u64 = length / (worker_count as u64);
    let mut parts: Vec<WorkPartition> = Vec::new();
    let mut i: usize = 0;
    while i < worker_count
        invariant
            range_start <= range_end,
            worker_count >= 1,
            0 <= i <= worker_count,
            length == range_end - range_start,
            chunk == chunk_size(range_start as int, range_end as int, worker_count as int),
            parts.len() == i,
            forall|j: int|
                0 <= j < i ==> {
                    &&& (#[trigger] parts[j]).start_inclusive == partition_start(
                        range_start as int,
                        range_end as int,
                        worker_count as int,
                        j,
                    )
                    &&& parts[j].end_exclusive == partition_end(
                        range_start as int,
                        range_end as int,
                        worker_count as int,
                        j,
                    )
                },
        decreases worker_count - i,
    {
        proof {
            lemma_split_is_contiguous(
                range_start as int,
                range_end as int,
                worker_count as int,
                i as int,
            );
        }
        let offset: u64 = (i as u64) * chunk;
        let start: u32 = (range_start as u64 + offset) as u32;
        let end: u32 = if i == worker_count - 1 {
            range_end
        } else {
            (range_start as u64 + offset + chunk) as u32
        };
        assert((i + 1) * chunk == i * chunk + chunk) by (nonlinear_arith);
        parts.push(WorkPartition { start_inclusive: start, end_exclusive: end });
        i = i + 1;
    }
    parts
}

} // verus!
