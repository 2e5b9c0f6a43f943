//! The background sampler: the flag that stops it, the buffer it fills,
//! and what it decides at each poll.
//!
//! A CPU reading is carried as the bit pattern of an IEEE-754
//! single-precision number, so that it can be stored, compared and handed
//! on exactly. Sleeping, reading the flag under its lock and querying the
//! process metrics are the caller's part; this module decides what follows
//! from them.

use vstd::prelude::*;

verus! {

/// The reading is greater than zero: its sign bit is clear, it is not
/// zero, and it is not a NaN. Positive infinity counts as positive.
pub open spec fn is_positive_reading(bits: u32) -> bool {
    0 < bits <= 0x7F80_0000
}

/// The reading is zero, of either sign.
pub open spec fn is_zero_reading(bits: u32) -> bool {
    bits == 0 || bits == 0x8000_0000
}

/// Whether a reading is greater than zero.
pub fn reading_is_positive(bits: u32) -> (positive: bool)
    ensures
        positive == is_positive_reading(bits),
{
    0 < bits && bits <= 0x7F80_0000
}

/// The signal that asks the sampler to stop. It starts lowered, and once
/// raised it stays raised: nothing lowers it.
#[derive(Debug)]
pub struct ShutdownFlag {
    raised: bool,
}

impl ShutdownFlag {
    /// Whether the flag is raised.
    pub closed spec fn is_raised_spec(&self) -> bool {
        self.raised
    }

    /// A lowered flag.
    pub fn new() -> (flag: ShutdownFlag)
        ensures
            !flag.is_raised_spec(),
    {
        ShutdownFlag { raised: false }
    }

    /// Raises the flag. The result tells whether this call raised it, which
    /// only the first call on a flag does.
    pub fn raise(&mut self) -> (changed: bool)
        ensures
            final(self).is_raised_spec(),
            changed == !old(self).is_raised_spec(),
    {
        let changed = !self.raised;
        self.raised = true;
        changed
    }

    /// Whether the flag is raised.
    #[verifier::when_used_as_spec(is_raised_spec)]
    pub fn is_raised(&self) -> (raised: bool)
        ensures
            raised == self.is_raised_spec(),
    {
        self.raised
    }
}

/// The CPU readings that the sampler kept, oldest first. Every reading in
/// it is greater than zero.
#[derive(Debug)]
pub struct SampleBuffer {
    readings: Vec<u32>,
}

impl View for SampleBuffer {
    type V = Seq<u32>;

    closed spec fn view(&self) -> Seq<u32> {
        self.readings@
    }
}

impl SampleBuffer {
    #[verifier::type_invariant]
    spec fn holds_only_positive(self) -> bool {
        forall|i: int|
            0 <= i < self.readings@.len() ==> is_positive_reading(#[trigger] self.readings@[i])
    }

    /// An empty buffer.
    pub fn new() -> (buffer: SampleBuffer)
        ensures
            buffer@ == Seq::<u32>::empty(),
    {
        SampleBuffer { readings: Vec::new() }
    }

    /// Appends `bits` if the reading is greater than zero, and drops it
    /// otherwise. The result tells whether it was kept.
    pub fn record(&mut self, bits: u32) -> (kept: bool)
        ensures
            kept == is_positive_reading(bits),
            kept ==> final(self)@ == old(self)@.push(bits),
            !kept ==> final(self)@ == old(self)@,
    {
        proof {
            use_type_invariant(&*self);
        }
        if reading_is_positive(bits) {
            let mut readings: Vec<u32> = Vec::new();
            core::mem::swap(&mut self.readings, &mut readings);
            readings.push(bits);
            self.readings = readings;
            true
        } else {
            false
        }
    }

    /// How many readings the buffer holds.
    pub fn len(&self) -> (n: usize)
        ensures
            n == self@.len(),
    {
        self.readings.len()
    }

    /// Whether the buffer holds no reading.
    pub fn is_empty(&self) -> (empty: bool)
        ensures
            empty == (self@.len() == 0),
    {
        self.readings.len() == 0
    }

    /// The readings, oldest first. None of them is zero.
    pub fn readings(&self) -> (readings: &Vec<u32>)
        ensures
            readings@ == self@,
            forall|i: int|
                0 <= i < readings@.len() ==> is_positive_reading(#[trigger] readings@[i])
                    && !is_zero_reading(readings@[i]),
    {
        proof {
            use_type_invariant(self);
        }
        &self.readings
    }
}

/// Where the sampler stands. `Stopped` is final.
#[derive(Clone, Copy, Debug, PartialEq, Eq, Structural)]
pub enum SamplerState {
    Idle,
    Sampling,
    Stopped,
}

/// What the sampler's thread does after a tick.
#[derive(Clone, Copy, Debug, PartialEq, Eq, Structural)]
pub enum TickAction {
    /// Read the CPU usage and hand it to `record`.
    TakeSample,
    /// Leave the loop without another reading.
    Exit,
}

/// The sampler as a mathematical value: its state and the readings kept.
pub struct SamplerModel {
    pub state: SamplerState,
    pub samples: Seq<u32>,
}

/// A sampler that has not started and has kept nothing.
pub open spec fn idle_model() -> SamplerModel {
    SamplerModel { state: SamplerState::Idle, samples: Seq::empty() }
}

/// The thread starts: an idle sampler begins to sample.
pub open spec fn after_start(m: SamplerModel) -> SamplerModel {
    if m.state is Idle {
        SamplerModel { state: SamplerState::Sampling, samples: m.samples }
    } else {
        m
    }
}

/// What a tick asks for: a sampler that is sampling takes a sample unless
/// it is asked to stop.
pub open spec fn tick_action(m: SamplerModel, stop_requested: bool) -> TickAction {
    if m.state is Sampling && !stop_requested {
        TickAction::TakeSample
    } else {
        TickAction::Exit
    }
}

/// The sampler after a tick: a sampler that is sampling and is asked to
/// stop has stopped.
pub open spec fn after_tick(m: SamplerModel, stop_requested: bool) -> SamplerModel {
    if m.state is Sampling && stop_requested {
        SamplerModel { state: SamplerState::Stopped, samples: m.samples }
    } else {
        m
    }
}

/// The sampler after a reading: while sampling it keeps a reading that is
/// greater than zero.
pub open spec fn after_reading(m: SamplerModel, bits: u32) -> SamplerModel {
    if m.state is Sampling && is_positive_reading(bits) {
        SamplerModel { state: m.state, samples: m.samples.push(bits) }
    } else {
        m
    }
}

/// One poll: a tick on which the flag was seen as `stop_requested`,
/// followed, if the tick asks for it, by the reading `bits`.
pub open spec fn after_poll(m: SamplerModel, stop_requested: bool, bits: u32) -> SamplerModel {
    if tick_action(m, stop_requested) is TakeSample {
        after_reading(after_tick(m, stop_requested), bits)
    } else {
        after_tick(m, stop_requested)
    }
}

/// A run of polls, each given by the flag as seen on its tick and the
/// reading that the process metrics would give then.
pub open spec fn after_polls(m: SamplerModel, polls: Seq<(bool, u32)>) -> SamplerModel
    decreases polls.len(),
{
    if polls.len() == 0 {
        m
    } else {
        after_poll(after_polls(m, polls.drop_last()), polls.last().0, polls.last().1)
    }
}

/// Polling through one run and then another is polling through both.
pub proof fn lemma_polls_compose(m: SamplerModel, first: Seq<(bool, u32)>, second: Seq<(bool, u32)>)
    ensures
        after_polls(m, first + second) == after_polls(after_polls(m, first), second),
    decreases second.len(),
{
    if second.len() == 0 {
        assert(first + second =~= first);
    } else {
        assert((first + second).drop_last() =~= first + second.drop_last());
        assert((first + second).last() == second.last());
        lemma_polls_compose(m, first, second.drop_last());
    }
}

/// Polls never remove a reading, and a start never touches the buffer.
pub proof fn lemma_samples_only_grow(m: SamplerModel, polls: Seq<(bool, u32)>)
    ensures
        m.samples.len() <= after_polls(m, polls).samples.len(),
        after_polls(m, polls).samples.take(m.samples.len() as int) == m.samples,
        after_start(m).samples == m.samples,
    decreases polls.len(),
{
    if polls.len() == 0 {
        assert(m.samples.take(m.samples.len() as int) =~= m.samples);
    } else {
        lemma_samples_only_grow(m, polls.drop_last());
        let before = after_polls(m, polls.drop_last());
        let after = after_polls(m, polls);
        assert(after.samples.take(m.samples.len() as int) =~= before.samples.take(
            m.samples.len() as int,
        ));
    }
}

/// The buffer never holds a zero: if every reading it held was greater
/// than zero, so is every reading it holds after any run of polls.
pub proof fn lemma_kept_readings_are_positive(m: SamplerModel, polls: Seq<(bool, u32)>)
    requires
        forall|i: int| 0 <= i < m.samples.len() ==> is_positive_reading(#[trigger] m.samples[i]),
    ensures
        forall|i: int|
            0 <= i < after_polls(m, polls).samples.len() ==> is_positive_reading(
                #[trigger] after_polls(m, polls).samples[i],
            ) && !is_zero_reading(after_polls(m, polls).samples[i]),
    decreases polls.len(),
{
    if polls.len() > 0 {
        lemma_kept_readings_are_positive(m, polls.drop_last());
    }
}

/// A stopped sampler stays as it is: every later tick asks it to exit, and
/// no poll changes its state or its buffer.
pub proof fn lemma_stopped_is_final(m: SamplerModel, polls: Seq<(bool, u32)>)
    requires
        m.state is Stopped,
    ensures
        after_polls(m, polls) == m,
        forall|stop_requested: bool| #[trigger] tick_action(m, stop_requested) is Exit,
        after_start(m) == m,
    decreases polls.len(),
{
    if polls.len() > 0 {
        lemma_stopped_is_final(m, polls.drop_last());
    }
}

/// A sampler that never sees the flag raised keeps sampling.
proof fn lemma_keeps_sampling(m: SamplerModel, polls: Seq<(bool, u32)>)
    requires
        m.state is Sampling,
        forall|t: int| 0 <= t < polls.len() ==> !(#[trigger] polls[t]).0,
    ensures
        after_polls(m, polls).state is Sampling,
    decreases polls.len(),
{
    if polls.len() > 0 {
        lemma_keeps_sampling(m, polls.drop_last());
    }
}

/// The sampler stops on the first tick that sees the flag raised, without
/// a reading on that tick, and nothing that follows changes it. So it ends
/// within one poll interval of the raise, and it sees the raised flag
/// once.
pub proof fn lemma_stops_on_first_raised_tick(m: SamplerModel, polls: Seq<(bool, u32)>, k: int)
    requires
        m.state is Sampling,
        0 <= k < polls.len(),
        polls[k].0,
        forall|t: int| 0 <= t < k ==> !(#[trigger] polls[t]).0,
    ensures
        after_polls(m, polls.take(k)).state is Sampling,
        after_polls(m, polls.take(k + 1)).state is Stopped,
        after_polls(m, polls.take(k + 1)).samples == after_polls(m, polls.take(k)).samples,
        after_polls(m, polls) == after_polls(m, polls.take(k + 1)),
{
    lemma_keeps_sampling(m, polls.take(k));
    assert(polls.take(k + 1).drop_last() =~= polls.take(k));
    assert(polls.take(k + 1).last() == polls[k]);
    assert(polls =~= polls.take(k + 1) + polls.skip(k + 1));
    lemma_polls_compose(m, polls.take(k + 1), polls.skip(k + 1));
    lemma_stopped_is_final(after_polls(m, polls.take(k + 1)), polls.skip(k + 1));
}

/// When every reading is greater than zero, the buffer of a sampler that
/// was started is empty only if no full poll interval passed before the
/// flag was raised: there was no tick at all, or the first tick already
/// saw the flag raised.
pub proof fn lemma_empty_buffer_means_early_stop(polls: Seq<(bool, u32)>)
    requires
        forall|t: int| 0 <= t < polls.len() ==> is_positive_reading((#[trigger] polls[t]).1),
        after_polls(after_start(idle_model()), polls).samples.len() == 0,
    ensures
        polls.len() == 0 || polls[0].0,
{
    if polls.len() > 0 && !polls[0].0 {
        let m = after_start(idle_model());
        let head = polls.take(1);
        assert(head.drop_last() =~= Seq::<(bool, u32)>::empty());
        assert(head.last() == polls[0]);
        assert(after_polls(m, head.drop_last()) == m);
        assert(after_polls(m, head).samples.len() == 1);
        assert(polls =~= head + polls.skip(1));
        lemma_polls_compose(m, head, polls.skip(1));
        lemma_samples_only_grow(after_polls(m, head), polls.skip(1));
    }
}

/// The sampler: its state and its buffer.
#[derive(Debug)]
pub struct Sampler {
    state: SamplerState,
    buffer: SampleBuffer,
}

impl View for Sampler {
    type V = SamplerModel;

    closed spec fn view(&self) -> SamplerModel {
        SamplerModel { state: self.state, samples: self.buffer@ }
    }
}

impl Sampler {
    /// An idle sampler with an empty buffer.
    pub fn new() -> (sampler: Sampler)
        ensures
            sampler@ == idle_model(),
    {
        Sampler { state: SamplerState::Idle, buffer: SampleBuffer::new() }
    }

    /// Where the sampler stands.
    pub fn state(&self) -> (state: SamplerState)
        ensures
            state == self@.state,
    {
        self.state
    }

    /// The thread has started.
    pub fn start(&mut self)
        ensures
            final(self)@ == after_start(old(self)@),
    {
        match self.state {
            SamplerState::Idle => {
                self.state = SamplerState::Sampling;
            },
            _ => {},
        }
    }

    /// A poll interval has passed and the flag was read as
    /// `stop_requested`. If it was raised, the sampler stops without a
    /// last reading.
    pub fn tick(&mut self, stop_requested: bool) -> (action: TickAction)
        ensures
            final(self)@ == after_tick(old(self)@, stop_requested),
            action == tick_action(old(self)@, stop_requested),
    {
        match self.state {
            SamplerState::Sampling => {
                if stop_requested {
                    self.state = SamplerState::Stopped;
                    TickAction::Exit
                } else {
                    TickAction::TakeSample
                }
            },
            _ => TickAction::Exit,
        }
    }

    /// The reading that a tick asked for. It is kept if the sampler is
    /// sampling and the reading is greater than zero.
    pub fn record(&mut self, bits: u32) -> (kept: bool)
        ensures
            final(self)@ == after_reading(old(self)@, bits),
            kept == (old(self)@.state is Sampling && is_positive_reading(bits)),
    {
        match self.state {
            SamplerState::Sampling => self.buffer.record(bits),
            _ => false,
        }
    }

    /// The buffer, for the reader that waited for the sampler to end.
    pub fn into_buffer(self) -> (buffer: SampleBuffer)
        ensures
            buffer@ == self@.samples,
    {
        self.buffer
    }
}

} // verus!
