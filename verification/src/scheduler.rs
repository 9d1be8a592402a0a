//! The frame scheduler: a cooperative state machine that renders the chunks
//! of one buffer in index order, one chunk per turn of the host's event loop.
//!
//! The machine decides; the host acts. The host hands in an [`Event`], the
//! machine moves to its next state and answers with the [`Action`] that the
//! host is to perform before it reports the next event.

use crate::backend::EncodeError;
use crate::chunker::{
    chunk_count, count_chunks, is_split, lemma_chunk_bounds, lemma_chunk_count_is_ceiling,
    nth_chunk, spec_nth_chunk, Chunk,
};
use crate::target::target_key_spec;
use vstd::prelude::*;

verus! {

/// Delay, in milliseconds, of the deferred task that separates two chunks.
pub const TICK_DELAY_MS: i32 = 10;

/// How the encode-and-render attempt of one chunk ended.
#[derive(Clone, Copy, Debug, PartialEq, Eq, Structural)]
pub enum ChunkOutcome {
    /// The symbol was drawn on its target.
    Rendered,
    /// The render target of the chunk could not be created or found.
    TargetUnavailable,
    /// The backend had no symbol for the chunk's bytes.
    EncodeFailed(EncodeError),
    /// The renderer failed to draw the symbol.
    DrawFailed,
}

/// Why a run ended before all chunks were attempted.
#[derive(Clone, Copy, Debug, PartialEq, Eq, Structural)]
pub enum AbortCause {
    /// The host could not arm the deferred task, or is gone.
    HostUnavailable,
    /// A later run has started and owns the render targets now.
    Superseded,
}

/// Where a run stands.
#[derive(Clone, Copy, Debug, PartialEq, Eq, Structural)]
pub enum Phase {
    /// Not started.
    Idle,
    /// Chunk `i` is the current chunk: its attempt is under way, or it is over
    /// and the tick that leads to chunk `i + 1` has not come yet.
    Rendering(usize),
    /// Every chunk was attempted.
    Done,
    /// The run was given up.
    Aborted(AbortCause),
}

/// What the host reports.
#[derive(Clone, Copy, Debug, PartialEq, Eq, Structural)]
pub enum Event {
    /// The run is to begin.
    Start,
    /// The attempt of the current chunk ended as said.
    ChunkProcessed(ChunkOutcome),
    /// The deferred task fired; with it comes the generation of the latest run
    /// that the host has started.
    Tick(u64),
    /// The deferred task could not be armed, or the host is gone.
    HostUnavailable,
}

/// What the host is to do next.
#[derive(Clone, Copy, Debug, PartialEq, Eq, Structural)]
pub enum Action {
    /// Obtain the render target of the chunk, encode the chunk's bytes, draw
    /// the symbol, and report `ChunkProcessed`.
    Render(Chunk),
    /// Arm the deferred task and return to the event loop; report `Tick` when
    /// it fires, `HostUnavailable` if it cannot be armed.
    Yield,
    /// The run is over: every chunk was attempted. Report the results.
    Complete,
    /// The run is given up: schedule nothing more.
    Abandon,
    /// The event does not concern the run as it stands: do nothing.
    Ignore,
}

/// The state of a run as a mathematical value.
pub ghost struct Run {
    pub phase: Phase,
    pub len: int,
    pub capacity: int,
    pub generation: u64,
    pub outcomes: Seq<ChunkOutcome>,
}

impl Run {
    /// The number of chunks of the run.
    pub open spec fn total(self) -> int {
        chunk_count(self.len, self.capacity)
    }

    /// The outcomes recorded are those of the chunks before the current one,
    /// with that of the current chunk once its attempt is over; a finished
    /// run has one outcome for each chunk.
    pub open spec fn wf(self) -> bool {
        &&& self.capacity > 0
        &&& 0 <= self.len <= usize::MAX
        &&& match self.phase {
            Phase::Idle => self.outcomes.len() == 0,
            Phase::Rendering(i) => i < self.total() && (self.outcomes.len() == i
                || self.outcomes.len() == i + 1),
            Phase::Done => self.outcomes.len() == self.total(),
            Phase::Aborted(_) => self.outcomes.len() <= self.total(),
        }
    }

    /// The run has ended, one way or the other.
    pub open spec fn is_terminal(self) -> bool {
        self.phase is Done || self.phase is Aborted
    }
}

/// A run of `len` bytes at `capacity` bytes per chunk, before its start.
pub open spec fn initial_run(len: int, capacity: int, generation: u64) -> Run {
    Run { phase: Phase::Idle, len, capacity, generation, outcomes: Seq::empty() }
}

/// The state that follows `run` on `event`.
pub open spec fn next(run: Run, event: Event) -> Run {
    match (run.phase, event) {
        (Phase::Idle, Event::Start) => if run.total() == 0 {
            Run { phase: Phase::Done, ..run }
        } else {
            Run { phase: Phase::Rendering(0), ..run }
        },
        (Phase::Rendering(i), Event::ChunkProcessed(outcome)) => if run.outcomes.len() == i {
            Run { outcomes: run.outcomes.push(outcome), ..run }
        } else {
            run
        },
        (Phase::Rendering(i), Event::Tick(current)) => if run.outcomes.len() != i + 1 {
            run
        } else if current != run.generation {
            Run { phase: Phase::Aborted(AbortCause::Superseded), ..run }
        } else if i + 1 == run.total() {
            Run { phase: Phase::Done, ..run }
        } else {
            Run { phase: Phase::Rendering((i + 1) as usize), ..run }
        },
        (Phase::Rendering(_), Event::HostUnavailable) => Run {
            phase: Phase::Aborted(AbortCause::HostUnavailable),
            ..run
        },
        _ => run,
    }
}

/// The action with which `run` answers `event`.
pub open spec fn respond(run: Run, event: Event) -> Action {
    match (run.phase, event) {
        (Phase::Idle, Event::Start) => if run.total() == 0 {
            Action::Complete
        } else {
            Action::Render(spec_nth_chunk(0, run.len, run.capacity))
        },
        (Phase::Rendering(i), Event::ChunkProcessed(_)) => if run.outcomes.len() == i {
            Action::Yield
        } else {
            Action::Ignore
        },
        (Phase::Rendering(i), Event::Tick(current)) => if run.outcomes.len() != i + 1 {
            Action::Ignore
        } else if current != run.generation {
            Action::Abandon
        } else if i + 1 == run.total() {
            Action::Complete
        } else {
            Action::Render(spec_nth_chunk(i + 1, run.len, run.capacity))
        },
        (Phase::Rendering(_), Event::HostUnavailable) => Action::Abandon,
        _ => Action::Ignore,
    }
}

/// The scheduler of one run.
#[derive(Debug)]
pub struct FrameScheduler {
    phase: Phase,
    len: usize,
    capacity: usize,
    generation: u64,
    outcomes: Vec<ChunkOutcome>,
}

impl View for FrameScheduler {
    type V = Run;

    closed spec fn view(&self) -> Run {
        Run {
            phase: self.phase,
            len: self.len as int,
            capacity: self.capacity as int,
            generation: self.generation,
            outcomes: self.outcomes@,
        }
    }
}

impl FrameScheduler {
    /// The scheduler of a run over a buffer of `len` bytes, cut at `capacity`
    /// bytes per chunk, tagged with `generation`. It is idle until `Start`.
    pub fn new(len: usize, capacity: usize, generation: u64) -> (scheduler: FrameScheduler)
        requires
            capacity > 0,
        ensures
            scheduler@ == initial_run(len as int, capacity as int, generation),
            scheduler@.wf(),
    {
        FrameScheduler { phase: Phase::Idle, len, capacity, generation, outcomes: Vec::new() }
    }

    /// Takes one event: moves to the next state and answers with the action
    /// that the host is to perform.
    pub fn step(&mut self, event: Event) -> (action: Action)
        requires
            old(self)@.wf(),
        ensures
            final(self)@ == next(old(self)@, event),
            action == respond(old(self)@, event),
            final(self)@.wf(),
    {
        proof {
            lemma_chunk_count_is_ceiling(self.len as int, self.capacity as int);
        }
        match self.phase {
            Phase::Idle => match event {
                Event::Start => {
                    if count_chunks(self.len, self.capacity) == 0 {
                        self.phase = Phase::Done;
                        Action::Complete
                    } else {
                        self.phase = Phase::Rendering(0);
                        Action::Render(nth_chunk(self.len, self.capacity, 0))
                    }
                },
                _ => Action::Ignore,
            },
            Phase::Rendering(i) => {
                let total = count_chunks(self.len, self.capacity);
                let attempted = self.outcomes.len() == i + 1;
                match event {
                    Event::Start => Action::Ignore,
                    Event::ChunkProcessed(outcome) => {
                        if attempted {
                            Action::Ignore
                        } else {
                            self.outcomes.push(outcome);
                            Action::Yield
                        }
                    },
                    Event::Tick(current) => {
                        if !attempted {
                            Action::Ignore
                        } else if current != self.generation {
                            self.phase = Phase::Aborted(AbortCause::Superseded);
                            Action::Abandon
                        } else if i + 1 == total {
                            self.phase = Phase::Done;
                            Action::Complete
                        } else {
                            self.phase = Phase::Rendering(i + 1);
                            Action::Render(nth_chunk(self.len, self.capacity, i + 1))
                        }
                    },
                    Event::HostUnavailable => {
                        self.phase = Phase::Aborted(AbortCause::HostUnavailable);
                        Action::Abandon
                    },
                }
            },
            Phase::Done => Action::Ignore,
            Phase::Aborted(_) => Action::Ignore,
        }
    }
}

/// The indices of the chunks whose attempt failed, in ascending order.
pub open spec fn failures(outcomes: Seq<ChunkOutcome>) -> Seq<usize>
    decreases outcomes.len(),
{
    if outcomes.len() == 0 {
        Seq::empty()
    } else if outcomes.last() == ChunkOutcome::Rendered {
        failures(outcomes.drop_last())
    } else {
        failures(outcomes.drop_last()).push((outcomes.len() - 1) as usize)
    }
}

impl FrameScheduler {
    /// Whether the scheduler is in a state that `new` and `step` lead to. It
    /// always is; the test is for callers that cannot prove it.
    pub fn is_well_formed(&self) -> (ok: bool)
        ensures
            ok == self@.wf(),
    {
        if self.capacity == 0 {
            return false;
        }
        let total = count_chunks(self.len, self.capacity);
        let attempted = self.outcomes.len();
        match self.phase {
            Phase::Idle => attempted == 0,
            Phase::Rendering(i) => i < total && (attempted == i || attempted == i + 1),
            Phase::Done => attempted == total,
            Phase::Aborted(_) => attempted <= total,
        }
    }

    /// Where the run stands.
    pub fn phase(&self) -> (phase: Phase)
        ensures
            phase == self@.phase,
    {
        self.phase
    }

    /// The generation that the run is tagged with.
    pub fn generation(&self) -> (generation: u64)
        ensures
            generation == self@.generation,
    {
        self.generation
    }

    /// The outcomes of the chunks attempted so far, by index.
    pub fn results(&self) -> (outcomes: &Vec<ChunkOutcome>)
        ensures
            outcomes@ == self@.outcomes,
    {
        &self.outcomes
    }

    /// Whether the run has ended, by completion or by being given up.
    pub fn is_finished(&self) -> (finished: bool)
        ensures
            finished == self@.is_terminal(),
    {
        match self.phase {
            Phase::Done => true,
            Phase::Aborted(_) => true,
            _ => false,
        }
    }

    /// The number of chunks of the run.
    pub fn total_chunks(&self) -> (total: usize)
        requires
            self@.wf(),
        ensures
            total == self@.total(),
    {
        count_chunks(self.len, self.capacity)
    }

    /// The chunk whose attempt the host is to make now, if there is one.
    pub fn pending_chunk(&self) -> (chunk: Option<Chunk>)
        requires
            self@.wf(),
        ensures
            chunk == match self@.phase {
                Phase::Rendering(i) if self@.outcomes.len() == i => Some(
                    spec_nth_chunk(i as int, self@.len, self@.capacity),
                ),
                _ => None,
            },
    {
        match self.phase {
            Phase::Rendering(i) => {
                if self.outcomes.len() == i {
                    Some(nth_chunk(self.len, self.capacity, i))
                } else {
                    None
                }
            },
            _ => None,
        }
    }

    /// The indices of the chunks attempted so far whose attempt failed, in
    /// ascending order.
    pub fn failed_indices(&self) -> (failed: Vec<usize>)
        ensures
            failed@ == failures(self@.outcomes),
    {
        let mut failed: Vec<usize> = Vec::new();
        let mut i: usize = 0;
        while i < self.outcomes.len()
            invariant
                i <= self.outcomes@.len(),
                failed@ == failures(self.outcomes@.take(i as int)),
            decreases self.outcomes@.len() - i,
        {
            proof {
                let grown = self.outcomes@.take(i + 1);
                assert(grown.drop_last() == self.outcomes@.take(i as int));
                assert(grown.last() == self.outcomes@[i as int]);
            }
            match self.outcomes[i] {
                ChunkOutcome::Rendered => {},
                _ => {
                    failed.push(i);
                },
            }
            i += 1;
        }
        proof {
            assert(self.outcomes@.take(i as int) == self.outcomes@);
        }
        failed
    }
}

/// What `failures` lists: each index whose outcome is not `Rendered`, and no
/// other, in strictly ascending order.
pub proof fn lemma_failures_are_the_failed(outcomes: Seq<ChunkOutcome>)
    requires
        outcomes.len() <= usize::MAX,
    ensures
        forall|i: int|
            0 <= i < outcomes.len() ==> (failures(outcomes).contains(i as usize) <==> #[trigger] outcomes[i]
                != ChunkOutcome::Rendered),
        forall|k: int|
            0 <= k < failures(outcomes).len() ==> (#[trigger] failures(outcomes)[k]) < outcomes.len(),
        forall|j: int, k: int|
            0 <= j < k < failures(outcomes).len() ==> failures(outcomes)[j] < failures(outcomes)[k],
    decreases outcomes.len(),
{
    if outcomes.len() > 0 {
        let rest = outcomes.drop_last();
        let last = (outcomes.len() - 1) as usize;
        lemma_failures_are_the_failed(rest);
        let before = failures(rest);
        let all = failures(outcomes);
        assert forall|i: int| 0 <= i < outcomes.len() implies (all.contains(i as usize)
            <==> #[trigger] outcomes[i] != ChunkOutcome::Rendered) by {
            if i < rest.len() {
                assert(rest[i] == outcomes[i]);
                if before.contains(i as usize) {
                    let k = choose|k: int| 0 <= k < before.len() && before[k] == i as usize;
                    assert(all[k] == i as usize);
                }
                if all.contains(i as usize) {
                    let k = choose|k: int| 0 <= k < all.len() && all[k] == i as usize;
                    if k < before.len() {
                        assert(before[k] == i as usize);
                    }
                }
            } else {
                if outcomes.last() != ChunkOutcome::Rendered {
                    assert(all[all.len() - 1] == last);
                } else if all.contains(i as usize) {
                    let k = choose|k: int| 0 <= k < all.len() && all[k] == i as usize;
                    assert(before[k] < rest.len());
                }
            }
        }
        assert forall|k: int| 0 <= k < all.len() implies (#[trigger] all[k]) < outcomes.len() by {
            if k < before.len() {
                assert(before[k] < rest.len());
            }
        }
        assert forall|j: int, k: int| 0 <= j < k < all.len() implies all[j] < all[k] by {
            if k < before.len() {
                assert(before[j] < before[k]);
            } else {
                assert(before[j] < rest.len());
            }
        }
    }
}

/// The state that `run` reaches when it takes `events` one after the other.
pub open spec fn run_after(run: Run, events: Seq<Event>) -> Run
    decreases events.len(),
{
    if events.len() == 0 {
        run
    } else {
        next(run_after(run, events.drop_last()), events.last())
    }
}

/// The actions with which `run` answers `events`, one for each event.
pub open spec fn actions_of(run: Run, events: Seq<Event>) -> Seq<Action>
    decreases events.len(),
{
    if events.len() == 0 {
        Seq::empty()
    } else {
        actions_of(run, events.drop_last()).push(
            respond(run_after(run, events.drop_last()), events.last()),
        )
    }
}

/// The chunks that `actions` ask the host to render, in the order asked.
pub open spec fn renders_of(actions: Seq<Action>) -> Seq<Chunk>
    decreases actions.len(),
{
    if actions.len() == 0 {
        Seq::empty()
    } else {
        match actions.last() {
            Action::Render(chunk) => renders_of(actions.drop_last()).push(chunk),
            _ => renders_of(actions.drop_last()),
        }
    }
}

/// What a host reports that serves the run to its end: the start, and then
/// for each chunk the outcome of its attempt and the tick that follows it.
pub open spec fn healthy_events(outcomes: Seq<ChunkOutcome>, generation: u64) -> Seq<Event> {
    Seq::new(
        2 * outcomes.len() + 1,
        |j: int|
            if j == 0 {
                Event::Start
            } else if j % 2 == 1 {
                Event::ChunkProcessed(outcomes[(j - 1) / 2])
            } else {
                Event::Tick(generation)
            },
    )
}

/// What a run answers to such a host: for each chunk in index order a render
/// and then a yield, and at the end the completion.
pub open spec fn healthy_actions(len: int, capacity: int) -> Seq<Action> {
    let n = chunk_count(len, capacity);
    Seq::new(
        (2 * n + 1) as nat,
        |j: int|
            if j == 2 * n {
                Action::Complete
            } else if j % 2 == 0 {
                Action::Render(spec_nth_chunk(j / 2, len, capacity))
            } else {
                Action::Yield
            },
    )
}

/// The keys of the render targets that `actions` ask for, in the order asked.
pub open spec fn render_keys(actions: Seq<Action>) -> Seq<Seq<char>> {
    renders_of(actions).map_values(|chunk: Chunk| target_key_spec(chunk.index as nat))
}

/// A step keeps a well-formed run well-formed. It never changes the buffer
/// length, the capacity or the generation, and it records at most one more
/// outcome, after those already there.
pub proof fn lemma_step_preserves_run(run: Run, event: Event)
    requires
        run.wf(),
    ensures
        next(run, event).wf(),
        next(run, event).len == run.len,
        next(run, event).capacity == run.capacity,
        next(run, event).generation == run.generation,
        next(run, event).outcomes == run.outcomes || (exists|outcome: ChunkOutcome|
            event == Event::ChunkProcessed(outcome) && next(run, event).outcomes
                == run.outcomes.push(outcome)),
{
    lemma_chunk_count_is_ceiling(run.len, run.capacity);
}

/// A run that is done or given up stays as it is, whatever is reported.
pub proof fn lemma_terminal_is_final(run: Run, event: Event)
    requires
        run.is_terminal(),
    ensures
        next(run, event) == run,
        respond(run, event) == Action::Ignore,
{
}

/// No two chunks in one turn: a render is asked for only at the start and on
/// a tick, it is the render of the chunk that the run then stands at, and
/// while the outcome of that attempt is outstanding no event makes the run
/// ask for another.
pub proof fn lemma_one_chunk_per_turn(run: Run, event: Event)
    requires
        run.wf(),
    ensures
        respond(run, event) matches Action::Render(chunk) ==> {
            &&& event is Start || event is Tick
            &&& next(run, event).phase == Phase::Rendering(chunk.index)
            &&& next(run, event).outcomes.len() == chunk.index
            &&& chunk == spec_nth_chunk(chunk.index as int, run.len, run.capacity)
        },
        (run.phase matches Phase::Rendering(i) && run.outcomes.len() == i) ==> !(respond(
            run,
            event,
        ) is Render),
{
    lemma_chunk_count_is_ceiling(run.len, run.capacity);
}

/// A run becomes done exactly when there is no chunk left to attempt: at the
/// start of a run without chunks, or on the tick of its own generation that
/// follows the outcome of the last chunk. By then every chunk has an outcome.
pub proof fn lemma_done_exactly_after_last_chunk(run: Run, event: Event)
    requires
        run.wf(),
        !(run.phase is Done),
    ensures
        next(run, event).phase is Done <==> {
            ||| run.phase is Idle && event is Start && run.total() == 0
            ||| run.phase matches Phase::Rendering(i) && i + 1 == run.total()
                && run.outcomes.len() == run.total() && event == Event::Tick(run.generation)
        },
        next(run, event).phase is Done ==> next(run, event).outcomes.len() == run.total(),
{
    lemma_chunk_count_is_ceiling(run.len, run.capacity);
}

/// A tick that comes when a later run has started cancels the run: whatever
/// chunks are left, none of them is rendered.
pub proof fn lemma_superseded_tick_cancels(run: Run, current: u64)
    requires
        run.wf(),
        run.phase is Rendering,
        current != run.generation,
    ensures
        !(respond(run, Event::Tick(current)) is Render),
        !(respond(run, Event::Tick(current)) is Complete),
        (run.phase matches Phase::Rendering(i) && run.outcomes.len() == i + 1) ==> {
            &&& next(run, Event::Tick(current)).phase == Phase::Aborted(AbortCause::Superseded)
            &&& respond(run, Event::Tick(current)) == Action::Abandon
        },
{
}

/// The run of an empty buffer is done at its start, before any tick.
pub proof fn lemma_empty_run_is_done_at_start(capacity: int, generation: u64)
    requires
        capacity > 0,
    ensures
        next(initial_run(0, capacity, generation), Event::Start).phase == Phase::Done,
        respond(initial_run(0, capacity, generation), Event::Start) == Action::Complete,
        healthy_actions(0, capacity) == seq![Action::Complete],
{
    lemma_chunk_count_is_ceiling(0, capacity);
    assert(healthy_actions(0, capacity) =~= seq![Action::Complete]);
}

proof fn lemma_healthy_prefix(
    len: int,
    capacity: int,
    generation: u64,
    outcomes: Seq<ChunkOutcome>,
    k: int,
)
    requires
        capacity > 0,
        0 <= len <= usize::MAX,
        outcomes.len() == chunk_count(len, capacity),
        0 <= k <= 2 * outcomes.len() + 1,
    ensures
        ({
            let n = outcomes.len() as int;
            let start = initial_run(len, capacity, generation);
            let events = healthy_events(outcomes, generation).take(k);
            let run = run_after(start, events);
            &&& run.len == len
            &&& run.capacity == capacity
            &&& run.generation == generation
            &&& run.outcomes == outcomes.take(k / 2)
            &&& run.phase == if k == 0 {
                Phase::Idle
            } else if k == 2 * n + 1 {
                Phase::Done
            } else {
                Phase::Rendering(((k - 1) / 2) as usize)
            }
            &&& actions_of(start, events) == healthy_actions(len, capacity).take(k)
        }),
    decreases k,
{
    let n = outcomes.len() as int;
    let start = initial_run(len, capacity, generation);
    let all = healthy_events(outcomes, generation);
    let events = all.take(k);
    let expected = healthy_actions(len, capacity);
    lemma_chunk_count_is_ceiling(len, capacity);
    if k == 0 {
        assert(outcomes.take(0) =~= Seq::<ChunkOutcome>::empty());
        assert(expected.take(0) =~= Seq::<Action>::empty());
    } else {
        lemma_healthy_prefix(len, capacity, generation, outcomes, k - 1);
        assert(events.drop_last() =~= all.take(k - 1));
        assert(events.last() == all[k - 1]);
        let before = run_after(start, all.take(k - 1));
        let event = all[k - 1];
        assert(before.total() == n);
        if k - 1 == 0 {
            assert(event == Event::Start);
            assert(outcomes.take(0) =~= Seq::<ChunkOutcome>::empty());
        } else if (k - 1) % 2 == 1 {
            let i = (k - 2) / 2;
            assert(event == Event::ChunkProcessed(outcomes[i]));
            assert(outcomes.take(i).push(outcomes[i]) =~= outcomes.take(i + 1));
        } else {
            assert(event == Event::Tick(generation));
        }
        assert(expected.take(k) =~= expected.take(k - 1).push(expected[k - 1]));
    }
}

proof fn lemma_healthy_renders(len: int, capacity: int, k: int)
    requires
        capacity > 0,
        0 <= len <= usize::MAX,
        0 <= k <= 2 * chunk_count(len, capacity) + 1,
    ensures
        ({
            let n = chunk_count(len, capacity);
            let count = if (k + 1) / 2 < n {
                (k + 1) / 2
            } else {
                n
            };
            renders_of(healthy_actions(len, capacity).take(k)) == Seq::new(
                count as nat,
                |i: int| spec_nth_chunk(i, len, capacity),
            )
        }),
    decreases k,
{
    let n = chunk_count(len, capacity);
    let all = healthy_actions(len, capacity);
    lemma_chunk_count_is_ceiling(len, capacity);
    if k == 0 {
        assert(renders_of(all.take(0)) =~= Seq::new(0, |i: int| spec_nth_chunk(i, len, capacity)));
    } else {
        lemma_healthy_renders(len, capacity, k - 1);
        assert(all.take(k).drop_last() =~= all.take(k - 1));
        assert(all.take(k).last() == all[k - 1]);
        let before = if k / 2 < n {
            k / 2
        } else {
            n
        };
        let after = if (k + 1) / 2 < n {
            (k + 1) / 2
        } else {
            n
        };
        let earlier = Seq::new(before as nat, |i: int| spec_nth_chunk(i, len, capacity));
        let now = Seq::new(after as nat, |i: int| spec_nth_chunk(i, len, capacity));
        if k - 1 != 2 * n && (k - 1) % 2 == 0 {
            assert(earlier.push(spec_nth_chunk((k - 1) / 2, len, capacity)) =~= now);
        } else {
            assert(earlier =~= now);
        }
    }
}

/// Rendering in order: a host that serves a run to its end is asked to render
/// each chunk of the partition exactly once, in index order, under the keys
/// `canvas-0`, `canvas-1`, and so on, with a yield to the event loop after
/// each render; the run then is done and holds the outcomes as reported.
pub proof fn lemma_healthy_run_renders_in_order(
    len: int,
    capacity: int,
    generation: u64,
    outcomes: Seq<ChunkOutcome>,
)
    requires
        capacity > 0,
        0 <= len <= usize::MAX,
        outcomes.len() == chunk_count(len, capacity),
    ensures
        ({
            let start = initial_run(len, capacity, generation);
            let events = healthy_events(outcomes, generation);
            let actions = actions_of(start, events);
            &&& run_after(start, events).phase == Phase::Done
            &&& run_after(start, events).outcomes == outcomes
            &&& actions == healthy_actions(len, capacity)
            &&& is_split(renders_of(actions), len, capacity)
            &&& render_keys(actions) == Seq::new(outcomes.len(), |i: int| target_key_spec(i as nat))
        }),
{
    let n = outcomes.len() as int;
    let start = initial_run(len, capacity, generation);
    let events = healthy_events(outcomes, generation);
    let actions = actions_of(start, events);
    lemma_chunk_count_is_ceiling(len, capacity);
    lemma_healthy_prefix(len, capacity, generation, outcomes, 2 * n + 1);
    lemma_healthy_renders(len, capacity, 2 * n + 1);
    assert(events.take(2 * n + 1) =~= events);
    assert(healthy_actions(len, capacity).take(2 * n + 1) =~= healthy_actions(len, capacity));
    assert(outcomes.take(n) =~= outcomes);
    let renders = renders_of(actions);
    assert(renders.len() == n);
    assert forall|i: int| 0 <= i < renders.len() implies (#[trigger] renders[i]).is_nth(
        i,
        len,
        capacity,
    ) by {
        lemma_chunk_bounds(i, len, capacity);
    }
    assert(render_keys(actions) =~= Seq::new(outcomes.len(), |i: int| target_key_spec(i as nat)));
}


} // verus!
