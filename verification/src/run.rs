//! The order of a run: which step follows which, and what a fault does to
//! it. The caller performs each step and reports how it went.

use vstd::prelude::*;

verus! {

/// What can go wrong during a run.
#[derive(Clone, Copy, Debug, PartialEq, Eq, Structural)]
pub enum Fault {
    /// The identity of the process could not be resolved.
    Startup,
    /// One read of memory or CPU failed.
    MetricsRead,
    /// The workload failed: an I/O error, or a worker that broke down.
    Workload,
    /// A lock could not be taken, or a thread could not be joined.
    Coordination,
}

/// A failed read is made up for with a zero reading; every other fault
/// ends the run.
pub open spec fn is_fatal(fault: Fault) -> bool {
    !(fault is MetricsRead)
}

/// Whether `fault` ends the run.
pub fn fault_is_fatal(fault: Fault) -> (fatal: bool)
    ensures
        fatal == is_fatal(fault),
{
    match fault {
        Fault::MetricsRead => false,
        _ => true,
    }
}

/// The steps of a run, in their order, and its two ends.
#[derive(Clone, Copy, Debug, PartialEq, Eq, Structural)]
pub enum RunStep {
    /// Read the memory before the workload.
    TakeBaseline,
    /// Start the sampler's thread.
    StartSampler,
    /// Start the timer, run the workload to its end, stop the timer.
    RunWorkload,
    /// Raise the shutdown flag and wait for the sampler's thread to end.
    StopSampler,
    /// Read the memory after the workload.
    TakeFinal,
    /// Reduce the samples and emit the result.
    Report,
    /// The result was emitted.
    Finished,
    /// The run ended on a fault, without a result.
    Aborted(Fault),
}

/// The first step of every run.
pub open spec fn first_step() -> RunStep {
    RunStep::TakeBaseline
}

/// Whether nothing follows `step`.
pub open spec fn is_end(step: RunStep) -> bool {
    step is Finished || step is Aborted
}

/// The step that follows `step` when all goes well.
pub open spec fn successor(step: RunStep) -> RunStep {
    match step {
        RunStep::TakeBaseline => RunStep::StartSampler,
        RunStep::StartSampler => RunStep::RunWorkload,
        RunStep::RunWorkload => RunStep::StopSampler,
        RunStep::StopSampler => RunStep::TakeFinal,
        RunStep::TakeFinal => RunStep::Report,
        RunStep::Report => RunStep::Finished,
        RunStep::Finished => RunStep::Finished,
        RunStep::Aborted(fault) => RunStep::Aborted(fault),
    }
}

/// The step that follows `step` once it was performed with `outcome`,
/// `None` standing for success. A fatal fault aborts the run at once; a
/// fault that is not fatal does not hold it up. An end is followed by
/// itself.
pub open spec fn next_step_spec(step: RunStep, outcome: Option<Fault>) -> RunStep {
    if is_end(step) {
        step
    } else {
        match outcome {
            Some(fault) => if is_fatal(fault) {
                RunStep::Aborted(fault)
            } else {
                successor(step)
            },
            None => successor(step),
        }
    }
}

/// Where a run stands after the outcomes of its steps so far.
pub open spec fn after_outcomes(step: RunStep, outcomes: Seq<Option<Fault>>) -> RunStep
    decreases outcomes.len(),
{
    if outcomes.len() == 0 {
        step
    } else {
        next_step_spec(after_outcomes(step, outcomes.drop_last()), outcomes.last())
    }
}

/// How many steps lie before `step` in a run that goes well.
pub open spec fn position(step: RunStep) -> int {
    match step {
        RunStep::TakeBaseline => 0,
        RunStep::StartSampler => 1,
        RunStep::RunWorkload => 2,
        RunStep::StopSampler => 3,
        RunStep::TakeFinal => 4,
        RunStep::Report => 5,
        RunStep::Finished => 6,
        RunStep::Aborted(_) => 6,
    }
}

/// Whether `outcome` is a fatal fault.
pub open spec fn is_fatal_outcome(outcome: Option<Fault>) -> bool {
    match outcome {
        Some(fault) => is_fatal(fault),
        None => false,
    }
}

/// The first step of a run.
pub fn start_of_run() -> (step: RunStep)
    ensures
        step == first_step(),
{
    RunStep::TakeBaseline
}

/// The step that follows `step` once it was performed with `outcome`.
pub fn next_step(step: RunStep, outcome: Option<Fault>) -> (next: RunStep)
    ensures
        next == next_step_spec(step, outcome),
{
    match step {
        RunStep::Finished => step,
        RunStep::Aborted(_) => step,
        _ => {
            match outcome {
                Some(fault) => {
                    if fault_is_fatal(fault) {
                        return RunStep::Aborted(fault);
                    }
                },
                None => {},
            }
            match step {
                RunStep::TakeBaseline => RunStep::StartSampler,
                RunStep::StartSampler => RunStep::RunWorkload,
                RunStep::RunWorkload => RunStep::StopSampler,
                RunStep::StopSampler => RunStep::TakeFinal,
                RunStep::TakeFinal => RunStep::Report,
                _ => RunStep::Finished,
            }
        },
    }
}

/// A run without a fatal fault goes through its steps in their order, one
/// for each outcome, and then stays finished.
pub proof fn lemma_steps_follow_in_order(outcomes: Seq<Option<Fault>>)
    requires
        forall|i: int| 0 <= i < outcomes.len() ==> !is_fatal_outcome(#[trigger] outcomes[i]),
    ensures
        !(after_outcomes(first_step(), outcomes) is Aborted),
        outcomes.len() <= 6 ==> position(after_outcomes(first_step(), outcomes))
            == outcomes.len(),
        outcomes.len() >= 6 ==> after_outcomes(first_step(), outcomes) is Finished,
    decreases outcomes.len(),
{
    if outcomes.len() > 0 {
        lemma_steps_follow_in_order(outcomes.drop_last());
    }
}

/// An end is final: whatever is reported after it, the run stays where it
/// ended.
pub proof fn lemma_end_is_final(step: RunStep, outcomes: Seq<Option<Fault>>)
    requires
        is_end(step),
    ensures
        after_outcomes(step, outcomes) == step,
    decreases outcomes.len(),
{
    if outcomes.len() > 0 {
        lemma_end_is_final(step, outcomes.drop_last());
    }
}

/// A fatal fault before the result was emitted aborts the run with that
/// fault, and no result is ever emitted: the run never reaches `Report` or
/// `Finished` afterwards.
pub proof fn lemma_fatal_fault_aborts(outcomes: Seq<Option<Fault>>, k: int)
    requires
        0 <= k < outcomes.len(),
        k < 6,
        is_fatal_outcome(outcomes[k]),
        forall|i: int| 0 <= i < k ==> !is_fatal_outcome(#[trigger] outcomes[i]),
    ensures
        after_outcomes(first_step(), outcomes) == RunStep::Aborted(outcomes[k]->Some_0),
        position(after_outcomes(first_step(), outcomes.take(k))) == k,
{
    let before = outcomes.take(k);
    let upto = outcomes.take(k + 1);
    lemma_steps_follow_in_order(before);
    assert(upto.drop_last() =~= before);
    assert(upto.last() == outcomes[k]);
    assert(after_outcomes(first_step(), upto) == RunStep::Aborted(outcomes[k]->Some_0));
    lemma_outcomes_compose(first_step(), upto, outcomes.skip(k + 1));
    assert(outcomes =~= upto + outcomes.skip(k + 1));
    lemma_end_is_final(after_outcomes(first_step(), upto), outcomes.skip(k + 1));
}

/// The sampler is stopped only after the workload has ended, and the
/// result is emitted only after the sampler was stopped: a run stands at a
/// step only when every step before it was performed.
pub proof fn lemma_step_needs_its_predecessors(outcomes: Seq<Option<Fault>>)
    ensures
        !(after_outcomes(first_step(), outcomes) is Aborted) ==> position(
            after_outcomes(first_step(), outcomes),
        ) <= outcomes.len(),
        after_outcomes(first_step(), outcomes) is StopSampler ==> outcomes.len() == 3
            && !is_fatal_outcome(outcomes[2]),
        after_outcomes(first_step(), outcomes) is Report ==> outcomes.len() == 5
            && !is_fatal_outcome(outcomes[3]),
    decreases outcomes.len(),
{
    if outcomes.len() > 0 {
        lemma_step_needs_its_predecessors(outcomes.drop_last());
        let before = after_outcomes(first_step(), outcomes.drop_last());
        if !is_end(before) && !is_fatal_outcome(outcomes.last()) {
            lemma_exact_position(outcomes.drop_last());
        }
    }
}

/// A run that has not ended stands at the step whose position is the
/// number of outcomes so far.
proof fn lemma_exact_position(outcomes: Seq<Option<Fault>>)
    requires
        !is_end(after_outcomes(first_step(), outcomes)),
    ensures
        position(after_outcomes(first_step(), outcomes)) == outcomes.len(),
        forall|i: int| 0 <= i < outcomes.len() ==> !is_fatal_outcome(#[trigger] outcomes[i]),
    decreases outcomes.len(),
{
    if outcomes.len() > 0 {
        let before = after_outcomes(first_step(), outcomes.drop_last());
        assert(!is_end(before));
        lemma_exact_position(outcomes.drop_last());
        assert forall|i: int| 0 <= i < outcomes.len() implies !is_fatal_outcome(
            #[trigger] outcomes[i],
        ) by {
            if i < outcomes.len() - 1 {
                assert(outcomes.drop_last()[i] == outcomes[i]);
            }
        }
    }
}

/// Reporting one run of outcomes and then another is reporting both.
proof fn lemma_outcomes_compose(
    step: RunStep,
    first: Seq<Option<Fault>>,
    second: Seq<Option<Fault>>,
)
    ensures
        after_outcomes(step, first + second) == after_outcomes(
            after_outcomes(step, first),
            second,
        ),
    decreases second.len(),
{
    if second.len() == 0 {
        assert(first + second =~= first);
    } else {
        assert((first + second).drop_last() =~= first + second.drop_last());
        assert((first + second).last() == second.last());
        lemma_outcomes_compose(step, first, second.drop_last());
    }
}

} // verus!
