//! The sync driver: when to run a cycle, with what lookahead, and when to
//! wait or stop.
//!
//! The driver decides and does nothing itself. The caller performs each
//! action and hands back what came of it as the next event.

use vstd::prelude::*;
use crate::coverage::CoverageSnapshot;
use crate::error::SyncError;
use crate::report::CycleResult;

verus! {

/// The lookahead of a polling cycle and of a single run is one height for
/// every so many units of time gone by, and one more.
pub const LOOKAHEAD_DIVISOR: u64 = 3;

/// The seconds of a minute.
pub const SECONDS_PER_MINUTE: u64 = 60;

/// How far above the greatest local height a cycle looks.
#[derive(Debug, Clone, Copy, PartialEq, Eq)]
pub enum Lookahead {
    /// So many heights.
    Fixed { heights: u32 },
    /// As many heights as may have come since the newest block file was
    /// created; where there is no block file, since the remote store was
    /// last listed, `listing_age` seconds ago.
    Elapsed { listing_age: u64 },
}

/// How a run goes on after its first cycle.
#[derive(Debug, Clone, Copy, PartialEq, Eq)]
pub enum RunMode {
    /// Catch up with the remote store, then poll it every `poll_interval`
    /// seconds for ever. While catching up each cycle looks
    /// `catch_up_lookahead` heights ahead.
    Continuous { poll_interval: u64, catch_up_lookahead: u32 },
    /// One cycle with the given lookahead.
    SingleRun { lookahead: Lookahead },
}

/// Where a run stands.
#[derive(Debug, Clone, Copy, PartialEq, Eq)]
pub enum Phase {
    /// Nothing has been done yet.
    Initializing,
    /// Cycles with a wide lookahead follow one another without a pause,
    /// until one finds nothing.
    CatchingUp,
    /// Cycles with a narrow lookahead, a pause after each.
    Polling,
    /// The one cycle of a single run is under way.
    OneShot,
    /// The single run is over.
    Done,
    /// The run was ended by a failure.
    Failed,
}

/// What the caller reports back to the driver.
#[derive(Debug, Clone, Copy, PartialEq, Eq)]
pub enum Event {
    /// The run begins.
    Started,
    /// A cycle ran to its end; the flag is that of its result.
    CycleFinished { remote_said_not_found: bool },
    /// A cycle failed.
    CycleFailed,
    /// The pause is over.
    Slept,
}

/// What the driver asks the caller to do next.
#[derive(Debug, Clone, Copy, PartialEq, Eq)]
pub enum Action {
    /// Run one cycle with the given lookahead.
    RunCycle { lookahead: Lookahead },
    /// Pause for so many seconds.
    Sleep { seconds: u64 },
    /// End the run.
    Stop,
}

/// A phase and the action that leads on from it.
#[derive(Debug, Clone, Copy, PartialEq, Eq)]
pub struct Step {
    pub phase: Phase,
    pub action: Action,
}

/// The lookahead of a polling cycle: one height for every
/// `LOOKAHEAD_DIVISOR` seconds of the interval, and one more, or the
/// greatest height where that is above it.
pub open spec fn polling_lookahead_of(poll_interval: nat) -> nat {
    let heights = poll_interval / (LOOKAHEAD_DIVISOR as nat) + 1;
    if heights <= u32::MAX {
        heights
    } else {
        u32::MAX as nat
    }
}

/// The lookahead of a single run: one height for every
/// `LOOKAHEAD_DIVISOR` whole minutes of `age` seconds, and one more, the
/// minutes counted no further than the greatest height.
pub open spec fn elapsed_lookahead_of(age: nat) -> nat {
    let minutes = age / (SECONDS_PER_MINUTE as nat);
    let counted = if minutes <= u32::MAX {
        minutes
    } else {
        u32::MAX as nat
    };
    counted / (LOOKAHEAD_DIVISOR as nat) + 1
}

/// The lookahead of a polling cycle.
pub fn polling_lookahead(poll_interval: u64) -> (r: u32)
    ensures
        r == polling_lookahead_of(poll_interval as nat),
        r >= 1,
{
    let heights = poll_interval / LOOKAHEAD_DIVISOR + 1;
    if heights <= u32::MAX as u64 {
        heights as u32
    } else {
        u32::MAX
    }
}

/// The lookahead of a single run, from the age in seconds of the newest
/// block file.
pub fn elapsed_lookahead(age: u64) -> (r: u32)
    ensures
        r == elapsed_lookahead_of(age as nat),
        r >= 1,
{
    let minutes = age / SECONDS_PER_MINUTE;
    let counted = if minutes <= u32::MAX as u64 {
        minutes
    } else {
        u32::MAX as u64
    };
    (counted / LOOKAHEAD_DIVISOR + 1) as u32
}

/// How many heights a lookahead is over a given coverage.
pub open spec fn lookahead_heights(lookahead: Lookahead, coverage: CoverageSnapshot) -> nat {
    match lookahead {
        Lookahead::Fixed { heights } => heights as nat,
        Lookahead::Elapsed { listing_age } => elapsed_lookahead_of(
            match coverage.newest_file_age {
                Some(age) => age as nat,
                None => listing_age as nat,
            },
        ),
    }
}

impl Lookahead {
    /// How many heights the lookahead is over `coverage`.
    pub fn heights(&self, coverage: &CoverageSnapshot) -> (r: u32)
        ensures
            r == lookahead_heights(*self, *coverage),
    {
        match self {
            Lookahead::Fixed { heights } => *heights,
            Lookahead::Elapsed { listing_age } => match coverage.newest_file_age {
                Some(age) => elapsed_lookahead(age),
                None => elapsed_lookahead(*listing_age),
            },
        }
    }
}

/// The phase that follows `phase` on `event`, and the action that goes
/// with it.
///
/// A run begins with a cycle. A continuous run catches up, cycle after
/// cycle, until a cycle finds nothing, then pauses and polls for ever, a
/// pause after each cycle. A single run is over after its cycle. A failed
/// cycle ends any run, and so does an event that cannot come in the phase;
/// a run that is over stays so.
pub open spec fn next_step(mode: RunMode, phase: Phase, event: Event) -> Step {
    match (phase, event) {
        (Phase::Initializing, Event::Started) => match mode {
            RunMode::Continuous { poll_interval, catch_up_lookahead } => Step {
                phase: Phase::CatchingUp,
                action: Action::RunCycle {
                    lookahead: Lookahead::Fixed { heights: catch_up_lookahead },
                },
            },
            RunMode::SingleRun { lookahead } => Step {
                phase: Phase::OneShot,
                action: Action::RunCycle { lookahead },
            },
        },
        (Phase::CatchingUp, Event::CycleFinished { remote_said_not_found }) => match mode {
            RunMode::Continuous { poll_interval, catch_up_lookahead } => if remote_said_not_found {
                Step { phase: Phase::Polling, action: Action::Sleep { seconds: poll_interval } }
            } else {
                Step {
                    phase: Phase::CatchingUp,
                    action: Action::RunCycle {
                        lookahead: Lookahead::Fixed { heights: catch_up_lookahead },
                    },
                }
            },
            RunMode::SingleRun { lookahead } => Step { phase: Phase::Failed, action: Action::Stop },
        },
        (Phase::Polling, Event::CycleFinished { remote_said_not_found }) => match mode {
            RunMode::Continuous { poll_interval, catch_up_lookahead } => Step {
                phase: Phase::Polling,
                action: Action::Sleep { seconds: poll_interval },
            },
            RunMode::SingleRun { lookahead } => Step { phase: Phase::Failed, action: Action::Stop },
        },
        (Phase::Polling, Event::Slept) => match mode {
            RunMode::Continuous { poll_interval, catch_up_lookahead } => Step {
                phase: Phase::Polling,
                action: Action::RunCycle {
                    lookahead: Lookahead::Fixed {
                        heights: polling_lookahead_of(poll_interval as nat) as u32,
                    },
                },
            },
            RunMode::SingleRun { lookahead } => Step { phase: Phase::Failed, action: Action::Stop },
        },
        (Phase::OneShot, Event::CycleFinished { remote_said_not_found }) => Step {
            phase: Phase::Done,
            action: Action::Stop,
        },
        (Phase::Done, _) => Step { phase: Phase::Done, action: Action::Stop },
        _ => Step { phase: Phase::Failed, action: Action::Stop },
    }
}

/// Decides how the run goes on from `phase` after `event`.
pub fn step(mode: RunMode, phase: Phase, event: Event) -> (r: Step)
    ensures
        r == next_step(mode, phase, event),
{
    let failed = Step { phase: Phase::Failed, action: Action::Stop };
    match phase {
        Phase::Initializing => match event {
            Event::Started => match mode {
                RunMode::Continuous { poll_interval, catch_up_lookahead } => Step {
                    phase: Phase::CatchingUp,
                    action: Action::RunCycle {
                        lookahead: Lookahead::Fixed { heights: catch_up_lookahead },
                    },
                },
                RunMode::SingleRun { lookahead } => Step {
                    phase: Phase::OneShot,
                    action: Action::RunCycle { lookahead },
                },
            },
            _ => failed,
        },
        Phase::CatchingUp => match (event, mode) {
            (
                Event::CycleFinished { remote_said_not_found },
                RunMode::Continuous { poll_interval, catch_up_lookahead },
            ) => if remote_said_not_found {
                Step { phase: Phase::Polling, action: Action::Sleep { seconds: poll_interval } }
            } else {
                Step {
                    phase: Phase::CatchingUp,
                    action: Action::RunCycle {
                        lookahead: Lookahead::Fixed { heights: catch_up_lookahead },
                    },
                }
            },
            _ => failed,
        },
        Phase::Polling => match (event, mode) {
            (
                Event::CycleFinished { remote_said_not_found },
                RunMode::Continuous { poll_interval, catch_up_lookahead },
            ) => Step { phase: Phase::Polling, action: Action::Sleep { seconds: poll_interval } },
            (Event::Slept, RunMode::Continuous { poll_interval, catch_up_lookahead }) => Step {
                phase: Phase::Polling,
                action: Action::RunCycle {
                    lookahead: Lookahead::Fixed { heights: polling_lookahead(poll_interval) },
                },
            },
            _ => failed,
        },
        Phase::OneShot => match event {
            Event::CycleFinished { remote_said_not_found } => Step {
                phase: Phase::Done,
                action: Action::Stop,
            },
            _ => failed,
        },
        Phase::Done => Step { phase: Phase::Done, action: Action::Stop },
        Phase::Failed => failed,
    }
}

/// The event that tells the driver how a cycle ended.
pub fn cycle_event(outcome: &Result<CycleResult, SyncError>) -> (r: Event)
    ensures
        r == match outcome {
            Ok(result) => Event::CycleFinished {
                remote_said_not_found: result.remote_said_not_found,
            },
            Err(_) => Event::CycleFailed,
        },
{
    match outcome {
        Ok(result) => Event::CycleFinished { remote_said_not_found: result.remote_said_not_found },
        Err(_) => Event::CycleFailed,
    }
}

/// The phase that a run is in after the events of `events`, in their
/// order, from `phase` on.
pub open spec fn phase_after(mode: RunMode, phase: Phase, events: Seq<Event>) -> Phase
    decreases events.len(),
{
    if events.len() == 0 {
        phase
    } else {
        next_step(mode, phase_after(mode, phase, events.drop_last()), events.last()).phase
    }
}

/// How many cycles the driver asks for on the events of `events`, in
/// their order, from `phase` on.
pub open spec fn cycles_asked(mode: RunMode, phase: Phase, events: Seq<Event>) -> nat
    decreases events.len(),
{
    if events.len() == 0 {
        0
    } else {
        let before = cycles_asked(mode, phase, events.drop_last());
        let last = next_step(mode, phase_after(mode, phase, events.drop_last()), events.last());
        if last.action is RunCycle {
            before + 1
        } else {
            before
        }
    }
}

/// Every event of `events` is the end of a cycle that found something.
pub open spec fn all_found(events: Seq<Event>) -> bool {
    forall|i: int|
        0 <= i < events.len() ==> #[trigger] events[i] == (Event::CycleFinished {
            remote_said_not_found: false,
        })
}

/// Every event of `events` is the end of a cycle or of a pause.
pub open spec fn none_failed(events: Seq<Event>) -> bool {
    forall|i: int|
        0 <= i < events.len() ==> #[trigger] events[i] is CycleFinished || events[i] is Slept
}

/// The driver goes on catching up for as long as the cycles find
/// something, and asks for one more cycle after each.
pub proof fn lemma_catching_up_goes_on(mode: RunMode, events: Seq<Event>)
    requires
        mode is Continuous,
        all_found(events),
    ensures
        phase_after(mode, Phase::CatchingUp, events) == Phase::CatchingUp,
        cycles_asked(mode, Phase::CatchingUp, events) == events.len(),
    decreases events.len(),
{
    if events.len() > 0 {
        lemma_catching_up_goes_on(mode, events.drop_last());
    }
}

/// Catching up ends with the first cycle that finds nothing: the driver
/// then polls, and asks for no cycle before the pause.
pub proof fn lemma_catching_up_ends(mode: RunMode, events: Seq<Event>)
    requires
        mode is Continuous,
        all_found(events),
    ensures
        phase_after(
            mode,
            Phase::CatchingUp,
            events.push(Event::CycleFinished { remote_said_not_found: true }),
        ) == Phase::Polling,
        cycles_asked(
            mode,
            Phase::CatchingUp,
            events.push(Event::CycleFinished { remote_said_not_found: true }),
        ) == events.len(),
        next_step(
            mode,
            Phase::CatchingUp,
            Event::CycleFinished { remote_said_not_found: true },
        ).action == (Action::Sleep { seconds: mode->poll_interval }),
{
    lemma_catching_up_goes_on(mode, events);
    let all = events.push(Event::CycleFinished { remote_said_not_found: true });
    assert(all.drop_last() =~= events);
}

/// A continuous run whose first cycle finds nothing polls after that one
/// cycle.
pub proof fn lemma_first_cycle_finds_nothing(mode: RunMode)
    requires
        mode is Continuous,
    ensures
        phase_after(
            mode,
            Phase::Initializing,
            seq![Event::Started, Event::CycleFinished { remote_said_not_found: true }],
        ) == Phase::Polling,
        cycles_asked(
            mode,
            Phase::Initializing,
            seq![Event::Started, Event::CycleFinished { remote_said_not_found: true }],
        ) == 1,
{
    let first = seq![Event::Started];
    let events = seq![Event::Started, Event::CycleFinished { remote_said_not_found: true }];
    let none = Seq::<Event>::empty();
    assert(first.drop_last() =~= none);
    assert(events.drop_last() =~= first);
    assert(phase_after(mode, Phase::Initializing, none) == Phase::Initializing);
    assert(cycles_asked(mode, Phase::Initializing, none) == 0);
    assert(phase_after(mode, Phase::Initializing, first) == Phase::CatchingUp);
    assert(cycles_asked(mode, Phase::Initializing, first) == 1);
}

/// Polling has no end: whatever cycles and pauses end, the driver polls
/// on.
pub proof fn lemma_polling_goes_on(mode: RunMode, events: Seq<Event>)
    requires
        mode is Continuous,
        none_failed(events),
    ensures
        phase_after(mode, Phase::Polling, events) == Phase::Polling,
    decreases events.len(),
{
    if events.len() > 0 {
        lemma_polling_goes_on(mode, events.drop_last());
    }
}

/// While polling, a cycle follows each pause and a pause each cycle.
pub proof fn lemma_polling_alternates(mode: RunMode, remote_said_not_found: bool)
    requires
        mode is Continuous,
    ensures
        next_step(mode, Phase::Polling, Event::Slept).action is RunCycle,
        next_step(
            mode,
            Phase::Polling,
            Event::CycleFinished { remote_said_not_found },
        ).action == (Action::Sleep { seconds: mode->poll_interval }),
{
}

/// A single run is one cycle: it is over when its cycle is.
pub proof fn lemma_single_run_is_one_cycle(mode: RunMode, remote_said_not_found: bool)
    requires
        mode is SingleRun,
    ensures
        phase_after(
            mode,
            Phase::Initializing,
            seq![Event::Started, Event::CycleFinished { remote_said_not_found }],
        ) == Phase::Done,
        cycles_asked(
            mode,
            Phase::Initializing,
            seq![Event::Started, Event::CycleFinished { remote_said_not_found }],
        ) == 1,
{
    let first = seq![Event::Started];
    let events = seq![Event::Started, Event::CycleFinished { remote_said_not_found }];
    let none = Seq::<Event>::empty();
    assert(first.drop_last() =~= none);
    assert(events.drop_last() =~= first);
    assert(phase_after(mode, Phase::Initializing, none) == Phase::Initializing);
    assert(cycles_asked(mode, Phase::Initializing, none) == 0);
    assert(phase_after(mode, Phase::Initializing, first) == Phase::OneShot);
    assert(cycles_asked(mode, Phase::Initializing, first) == 1);
}

/// A failed cycle ends the run, in whatever phase it comes.
pub proof fn lemma_failure_stops(mode: RunMode, phase: Phase)
    ensures
        next_step(mode, phase, Event::CycleFailed).action == Action::Stop,
        next_step(mode, phase, Event::CycleFailed).phase == if phase is Done {
            Phase::Done
        } else {
            Phase::Failed
        },
{
}

/// A run that is over stays over, and no cycle is asked for any more.
pub proof fn lemma_over_stays_over(mode: RunMode, phase: Phase, events: Seq<Event>)
    requires
        phase is Done || phase is Failed,
    ensures
        phase_after(mode, phase, events) == phase,
        cycles_asked(mode, phase, events) == 0,
    decreases events.len(),
{
    if events.len() > 0 {
        lemma_over_stays_over(mode, phase, events.drop_last());
    }
}

} // verus!
