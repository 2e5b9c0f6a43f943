//! The order in which the workers' values reach the sink depends on how
//! the workers are scheduled. This module models a schedule and proves
//! that what is drained does not depend on it, up to order.

use crate::partition::{is_split, WorkPartition};
use crate::primes::primes_in;
use crate::worker::{lemma_split_finds_all_primes, outputs_in_order};
use vstd::multiset::Multiset;
use vstd::prelude::*;
use vstd::seq_lib::{lemma_multiset_commutative, to_multiset_build, to_multiset_len};

verus! {

/// What each worker of `parts` sends, in the order in which it sends it.
pub open spec fn worker_outputs(parts: Seq<WorkPartition>) -> Seq<Seq<u32>> {
    Seq::new(
        parts.len(),
        |i: int| primes_in(parts[i].start_inclusive as int, parts[i].end_exclusive as int),
    )
}

/// A schedule names, for each value that reaches the sink, the worker that
/// sent it. This counts the sends of `worker` in `schedule`.
pub open spec fn sent_by(schedule: Seq<int>, worker: int) -> nat
    decreases schedule.len(),
{
    if schedule.len() == 0 {
        0
    } else {
        sent_by(schedule.drop_last(), worker) + if schedule.last() == worker {
            1nat
        } else {
            0nat
        }
    }
}

/// What the sink holds after the sends of `schedule`: each worker's values
/// arrive in the worker's own order, interleaved with those of the others
/// as the schedule says.
pub open spec fn arrivals(outputs: Seq<Seq<u32>>, schedule: Seq<int>) -> Seq<u32>
    decreases schedule.len(),
{
    if schedule.len() == 0 {
        Seq::empty()
    } else {
        let worker = schedule.last();
        let earlier = schedule.drop_last();
        arrivals(outputs, earlier).push(outputs[worker][sent_by(earlier, worker) as int])
    }
}

/// `schedule` names only workers of `outputs`, and lets every worker send
/// all of its values and no more.
pub open spec fn is_complete_schedule(outputs: Seq<Seq<u32>>, schedule: Seq<int>) -> bool {
    &&& forall|t: int| 0 <= t < schedule.len() ==> 0 <= #[trigger] schedule[t] < outputs.len()
    &&& forall|w: int| 0 <= w < outputs.len() ==> #[trigger] sent_by(schedule, w) == outputs[w].len()
}

/// Every value of the first `count` workers, as a multiset.
pub open spec fn all_outputs(outputs: Seq<Seq<u32>>, count: int) -> Multiset<u32>
    decreases count,
{
    if count <= 0 {
        Multiset::empty()
    } else {
        all_outputs(outputs, count - 1).add(outputs[count - 1].to_multiset())
    }
}

/// `schedule` names only workers of `outputs`, and lets no worker send more
/// than it has.
spec fn is_feasible(outputs: Seq<Seq<u32>>, schedule: Seq<int>) -> bool {
    &&& forall|t: int| 0 <= t < schedule.len() ==> 0 <= #[trigger] schedule[t] < outputs.len()
    &&& forall|w: int| 0 <= w < outputs.len() ==> #[trigger] sent_by(schedule, w) <= outputs[w].len()
}

/// What the first `count` workers have sent under `schedule`, as a
/// multiset.
spec fn sent_so_far(outputs: Seq<Seq<u32>>, schedule: Seq<int>, count: int) -> Multiset<u32>
    decreases count,
{
    if count <= 0 {
        Multiset::empty()
    } else {
        sent_so_far(outputs, schedule, count - 1).add(
            outputs[count - 1].take(sent_by(schedule, count - 1) as int).to_multiset(),
        )
    }
}

proof fn lemma_feasible_prefix(outputs: Seq<Seq<u32>>, schedule: Seq<int>)
    requires
        is_feasible(outputs, schedule),
        schedule.len() > 0,
    ensures
        is_feasible(outputs, schedule.drop_last()),
        0 <= schedule.last() < outputs.len(),
        sent_by(schedule.drop_last(), schedule.last()) < outputs[schedule.last()].len(),
{
    let earlier = schedule.drop_last();
    assert(schedule.last() == schedule[schedule.len() - 1]);
    assert forall|t: int| 0 <= t < earlier.len() implies 0 <= #[trigger] earlier[t]
        < outputs.len() by {
        assert(earlier[t] == schedule[t]);
    }
    assert forall|w: int| 0 <= w < outputs.len() implies #[trigger] sent_by(earlier, w)
        <= outputs[w].len() by {
        assert(sent_by(schedule, w) >= sent_by(earlier, w));
    }
    assert(sent_by(schedule, schedule.last()) == sent_by(earlier, schedule.last()) + 1);
}

proof fn lemma_nothing_sent(outputs: Seq<Seq<u32>>, count: int)
    requires
        0 <= count <= outputs.len(),
    ensures
        sent_so_far(outputs, Seq::<int>::empty(), count) == Multiset::<u32>::empty(),
    decreases count,
{
    if count > 0 {
        lemma_nothing_sent(outputs, count - 1);
        assert(sent_by(Seq::<int>::empty(), count - 1) == 0);
        assert(outputs[count - 1].take(0) =~= Seq::<u32>::empty());
        assert(Seq::<u32>::empty().to_multiset() =~= Multiset::<u32>::empty()) by {
            broadcast use vstd::seq_lib::group_to_multiset_ensures;

        }
        assert(sent_so_far(outputs, Seq::<int>::empty(), count) =~= Multiset::<u32>::empty());
    }
}

/// One more send adds exactly the value sent.
proof fn lemma_one_more_sent(outputs: Seq<Seq<u32>>, schedule: Seq<int>, count: int)
    requires
        is_feasible(outputs, schedule),
        schedule.len() > 0,
        0 <= count <= outputs.len(),
    ensures
        schedule.last() < count ==> sent_so_far(outputs, schedule, count) == sent_so_far(
            outputs,
            schedule.drop_last(),
            count,
        ).insert(outputs[schedule.last()][sent_by(schedule.drop_last(), schedule.last()) as int]),
        schedule.last() >= count ==> sent_so_far(outputs, schedule, count) == sent_so_far(
            outputs,
            schedule.drop_last(),
            count,
        ),
    decreases count,
{
    let worker = schedule.last();
    let earlier = schedule.drop_last();
    lemma_feasible_prefix(outputs, schedule);
    let k = sent_by(earlier, worker) as int;
    let value = outputs[worker][k];
    if count > 0 {
        lemma_one_more_sent(outputs, schedule, count - 1);
        let own = outputs[count - 1];
        if worker == count - 1 {
            assert(sent_by(schedule, worker) == k + 1);
            assert(own.take(k + 1) =~= own.take(k).push(value));
            to_multiset_build(own.take(k), value);
            assert(sent_so_far(outputs, schedule, count) =~= sent_so_far(
                outputs,
                earlier,
                count,
            ).insert(value));
        } else {
            assert(sent_by(schedule, count - 1) == sent_by(earlier, count - 1));
            if worker < count {
                assert(sent_so_far(outputs, schedule, count) =~= sent_so_far(
                    outputs,
                    earlier,
                    count,
                ).insert(value));
            }
        }
    }
}

proof fn lemma_arrivals_are_what_was_sent(outputs: Seq<Seq<u32>>, schedule: Seq<int>)
    requires
        is_feasible(outputs, schedule),
    ensures
        arrivals(outputs, schedule).to_multiset() == sent_so_far(
            outputs,
            schedule,
            outputs.len() as int,
        ),
    decreases schedule.len(),
{
    if schedule.len() == 0 {
        assert(schedule =~= Seq::<int>::empty());
        lemma_nothing_sent(outputs, outputs.len() as int);
        assert(Seq::<u32>::empty().to_multiset() =~= Multiset::<u32>::empty()) by {
            broadcast use vstd::seq_lib::group_to_multiset_ensures;

        }
    } else {
        let worker = schedule.last();
        let earlier = schedule.drop_last();
        lemma_feasible_prefix(outputs, schedule);
        lemma_arrivals_are_what_was_sent(outputs, earlier);
        lemma_one_more_sent(outputs, schedule, outputs.len() as int);
        to_multiset_build(
            arrivals(outputs, earlier),
            outputs[worker][sent_by(earlier, worker) as int],
        );
    }
}

proof fn lemma_everything_sent(outputs: Seq<Seq<u32>>, schedule: Seq<int>, count: int)
    requires
        is_complete_schedule(outputs, schedule),
        0 <= count <= outputs.len(),
    ensures
        sent_so_far(outputs, schedule, count) == all_outputs(outputs, count),
    decreases count,
{
    if count > 0 {
        lemma_everything_sent(outputs, schedule, count - 1);
        let own = outputs[count - 1];
        assert(sent_by(schedule, count - 1) == own.len());
        assert(own.take(own.len() as int) =~= own);
    }
}

/// Whatever the schedule, the sink ends up holding every value of every
/// worker, each as often as it was sent.
pub proof fn lemma_arrivals_hold_every_output(outputs: Seq<Seq<u32>>, schedule: Seq<int>)
    requires
        is_complete_schedule(outputs, schedule),
    ensures
        arrivals(outputs, schedule).to_multiset() == all_outputs(outputs, outputs.len() as int),
{
    assert(is_feasible(outputs, schedule));
    lemma_arrivals_are_what_was_sent(outputs, schedule);
    lemma_everything_sent(outputs, schedule, outputs.len() as int);
}

/// Two runs of the same workers under different schedules drain the same
/// multiset of values: the order may differ, the membership does not.
pub proof fn lemma_schedule_does_not_matter(
    outputs: Seq<Seq<u32>>,
    first: Seq<int>,
    second: Seq<int>,
)
    requires
        is_complete_schedule(outputs, first),
        is_complete_schedule(outputs, second),
    ensures
        arrivals(outputs, first).to_multiset() == arrivals(outputs, second).to_multiset(),
        arrivals(outputs, first).len() == arrivals(outputs, second).len(),
{
    lemma_arrivals_hold_every_output(outputs, first);
    lemma_arrivals_hold_every_output(outputs, second);
    to_multiset_len(arrivals(outputs, first));
    to_multiset_len(arrivals(outputs, second));
}

proof fn lemma_all_outputs_of_prefix(parts: Seq<WorkPartition>, k: int)
    requires
        0 <= k <= parts.len(),
    ensures
        all_outputs(worker_outputs(parts), k) == outputs_in_order(parts.take(k)).to_multiset(),
    decreases k,
{
    if k == 0 {
        assert(Seq::<u32>::empty().to_multiset() =~= Multiset::<u32>::empty()) by {
            broadcast use vstd::seq_lib::group_to_multiset_ensures;

        }
    } else {
        let prefix = parts.take(k);
        assert(prefix.drop_last() == parts.take(k - 1));
        assert(prefix.last() == parts[k - 1]);
        lemma_all_outputs_of_prefix(parts, k - 1);
        lemma_multiset_commutative(
            outputs_in_order(parts.take(k - 1)),
            primes_in(parts[k - 1].start_inclusive as int, parts[k - 1].end_exclusive as int),
        );
    }
}

/// Draining the sink after the workers of a split have run yields the
/// primes of the whole range, each once, whatever the schedule: as many
/// values as the range has primes, and the same multiset.
pub proof fn lemma_drain_yields_primes_of_range(
    parts: Seq<WorkPartition>,
    range_start: int,
    range_end: int,
    worker_count: int,
    schedule: Seq<int>,
)
    requires
        range_start <= range_end,
        worker_count >= 1,
        is_split(parts, range_start, range_end, worker_count),
        is_complete_schedule(worker_outputs(parts), schedule),
    ensures
        arrivals(worker_outputs(parts), schedule).to_multiset() == primes_in(
            range_start,
            range_end,
        ).to_multiset(),
        arrivals(worker_outputs(parts), schedule).len() == primes_in(range_start, range_end).len(),
{
    lemma_arrivals_hold_every_output(worker_outputs(parts), schedule);
    lemma_all_outputs_of_prefix(parts, parts.len() as int);
    assert(parts.take(parts.len() as int) == parts);
    lemma_split_finds_all_primes(parts, range_start, range_end, worker_count);
    to_multiset_len(arrivals(worker_outputs(parts), schedule));
    to_multiset_len(primes_in(range_start, range_end));
}

} // verus!
