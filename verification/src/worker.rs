//! One worker of the concurrent workload, and the sink that collects what
//! the workers find.

use crate::partition::{is_split, lemma_split_is_contiguous, WorkPartition};
use crate::primes::{is_prime, primes_in};
use vstd::prelude::*;

verus! {

/// The collecting end of the workers' fan-in: values leave it in the order
/// in which they were sent.
pub struct ResultSink {
    queue: Vec<u32>,
}

impl View for ResultSink {
    type V = Seq<u32>;

    closed spec fn view(&self) -> Seq<u32> {
        self.queue@
    }
}

impl ResultSink {
    /// A sink that holds nothing.
    pub fn new() -> (sink: ResultSink)
        ensures
            sink@ == Seq::<u32>::empty(),
    {
        ResultSink { queue: Vec::new() }
    }

    /// Sends `value`: it is queued behind everything sent before.
    pub fn send(&mut self, value: u32)
        ensures
            final(self)@ == old(self)@.push(value),
    {
        self.queue.push(value);
    }

    /// How many values wait in the sink.
    pub fn len(&self) -> (n: usize)
        ensures
            n == self@.len(),
    {
        self.queue.len()
    }

    /// Hands out everything that was sent, first sent first.
    pub fn drain(self) -> (values: Vec<u32>)
        ensures
            values@ == self@,
    {
        self.queue
    }
}

/// Tests every integer of `[start, end)` in ascending order and sends each
/// prime to `tx`. An empty or inverted range sends nothing.
pub fn worker_task(start: u32, end: u32, tx: &mut ResultSink)
    ensures
        final(tx)@ == old(tx)@ + primes_in(start as int, end as int),
{
    let mut num: u32 = start;
    assert(old(tx)@ + primes_in(start as int, start as int) == old(tx)@);
    while num < end
        invariant
            start <= num,
            num <= end || num == start,
            tx@ == old(tx)@ + primes_in(start as int, num as int),
        decreases end - num,
    {
        if is_prime(num) {
            tx.send(num);
        }
        assert(old(tx)@ + primes_in(start as int, num + 1) == tx@);
        num = num + 1;
    }
    assert(end <= start ==> primes_in(start as int, end as int) == primes_in(
        start as int,
        start as int,
    ));
}

/// What the workers of `parts` send, worker after worker: the output of
/// the first, then that of the second, and so on.
pub open spec fn outputs_in_order(parts: Seq<WorkPartition>) -> Seq<u32>
    decreases parts.len(),
{
    if parts.len() == 0 {
        Seq::empty()
    } else {
        outputs_in_order(parts.drop_last()) + primes_in(
            parts.last().start_inclusive as int,
            parts.last().end_exclusive as int,
        )
    }
}

/// The primes of two adjoining ranges, one list after the other, are the
/// primes of the joined range.
pub proof fn lemma_primes_in_adjoining(lo: int, mid: int, hi: int)
    requires
        lo <= mid <= hi,
    ensures
        primes_in(lo, mid) + primes_in(mid, hi) == primes_in(lo, hi),
    decreases hi - mid,
{
    if mid == hi {
        assert(primes_in(lo, mid) + primes_in(mid, hi) =~= primes_in(lo, hi));
    } else {
        lemma_primes_in_adjoining(lo, mid, hi - 1);
        assert(primes_in(lo, mid) + primes_in(mid, hi) =~= primes_in(lo, hi));
    }
}

/// The outputs of the first `k` workers of a split, taken in worker order,
/// are the primes from the start of the range to the end of worker `k - 1`.
proof fn lemma_outputs_of_prefix(
    parts: Seq<WorkPartition>,
    range_start: int,
    range_end: int,
    worker_count: int,
    k: int,
)
    requires
        range_start <= range_end,
        worker_count >= 1,
        is_split(parts, range_start, range_end, worker_count),
        0 <= k <= worker_count,
    ensures
        k == 0 ==> outputs_in_order(parts.take(k)) == Seq::<u32>::empty(),
        k > 0 ==> outputs_in_order(parts.take(k)) == primes_in(
            range_start,
            parts[k - 1].end_exclusive as int,
        ),
    decreases k,
{
    if k > 0 {
        let prefix = parts.take(k);
        assert(prefix.drop_last() == parts.take(k - 1));
        assert(prefix.last() == parts[k - 1]);
        lemma_outputs_of_prefix(parts, range_start, range_end, worker_count, k - 1);
        lemma_split_is_contiguous(range_start, range_end, worker_count, k - 1);
        let start = parts[k - 1].start_inclusive as int;
        let end = parts[k - 1].end_exclusive as int;
        if k == 1 {
            assert(start == range_start);
            assert(Seq::<u32>::empty() + primes_in(start, end) =~= primes_in(start, end));
        } else {
            lemma_split_is_contiguous(range_start, range_end, worker_count, k - 2);
            assert(parts[k - 2].end_exclusive as int == start);
            lemma_primes_in_adjoining(range_start, start, end);
        }
    }
}

/// Splitting a range among workers loses and adds nothing: the workers'
/// outputs, taken in worker order, are the primes of the whole range in
/// ascending order.
pub proof fn lemma_split_finds_all_primes(
    parts: Seq<WorkPartition>,
    range_start: int,
    range_end: int,
    worker_count: int,
)
    requires
        range_start <= range_end,
        worker_count >= 1,
        is_split(parts, range_start, range_end, worker_count),
    ensures
        outputs_in_order(parts) == primes_in(range_start, range_end),
{
    lemma_outputs_of_prefix(parts, range_start, range_end, worker_count, worker_count);
    lemma_split_is_contiguous(range_start, range_end, worker_count, worker_count - 1);
    assert(parts.take(worker_count) == parts);
}

} // verus!
