//! The sweep over all subscribers.

use crate::subscriber::Instance;
use crate::sweep::SWEEP_INTERVAL_SECS;
use vstd::prelude::*;

verus! {

/// Where the scheduler stands.
#[derive(Clone, Copy, Debug, PartialEq, Eq, Structural)]
pub enum SweepState {
    /// No sweep was begun yet.
    Idle,
    /// The subscribers of the next sweep were asked for.
    Collecting,
    /// The pass of a subscriber is under way.
    Running,
    /// The sweep is over and the wait before the next has not ended.
    Resting,
}

/// What the world reports to the scheduler.
#[derive(Clone, Debug, PartialEq, Eq)]
pub enum SweepEvent {
    /// The process is ready for its first sweep.
    Wake,
    /// These are the subscribers that are active now.
    Collected(Vec<Instance>),
    /// The pass that was asked for has come to its end.
    PassFinished,
    /// The wait after a sweep is over.
    Rested,
}

/// What the scheduler asks the world to do next.
#[derive(Clone, Debug, PartialEq, Eq)]
pub enum SweepAction {
    /// Say which subscribers are active.
    Collect,
    /// Run the pass of this subscriber to its end.
    RunPass(Instance),
    /// The sweep is over: wait for this many seconds.
    Rest(u64),
    /// The event does not belong to the state of the scheduler; nothing
    /// changed.
    Ignore,
}

/// The one scheduler of the process. It lets the subscribers of a sweep have
/// their pass one after another, and lets no sweep begin before the one
/// before it and the wait after it are over.
#[derive(Clone, Debug)]
pub struct Scheduler {
    state: SweepState,
    queue: Vec<Instance>,
}

/// The mathematical content of a [`Scheduler`]: its state and the subscribers
/// that the sweep has yet to visit.
pub struct SchedulerView {
    pub state: SweepState,
    pub queue: Seq<Instance>,
}

impl View for Scheduler {
    type V = SchedulerView;

    closed spec fn view(&self) -> SchedulerView {
        SchedulerView { state: self.state, queue: self.queue@ }
    }
}

/// A scheduler in the given state with no subscriber waiting.
pub open spec fn settled(state: SweepState) -> SchedulerView {
    SchedulerView { state, queue: Seq::empty() }
}

/// The sweep turns to the first subscriber of `queue`, or rests where none
/// is left.
pub open spec fn turned(queue: Seq<Instance>) -> (SchedulerView, SweepAction) {
    if queue.len() == 0 {
        (settled(SweepState::Resting), SweepAction::Rest(SWEEP_INTERVAL_SECS))
    } else {
        (
            SchedulerView { state: SweepState::Running, queue: queue.drop_first() },
            SweepAction::RunPass(queue[0]),
        )
    }
}

/// The state that follows `scheduler` on `event`, and what the world is
/// asked to do.
///
/// A sweep begins by asking for the active subscribers. Each of them has its
/// pass, the next one only when the pass before has finished. After the last
/// the scheduler rests, and only when the rest is over it begins the next
/// sweep. An event that does not belong to the state changes nothing.
pub open spec fn sweep_step(scheduler: SchedulerView, event: SweepEvent) -> (
    SchedulerView,
    SweepAction,
) {
    match (scheduler.state, event) {
        (SweepState::Idle, SweepEvent::Wake) => (
            settled(SweepState::Collecting),
            SweepAction::Collect,
        ),
        (SweepState::Collecting, SweepEvent::Collected(subscribers)) => turned(subscribers@),
        (SweepState::Running, SweepEvent::PassFinished) => turned(scheduler.queue),
        (SweepState::Resting, SweepEvent::Rested) => (
            settled(SweepState::Collecting),
            SweepAction::Collect,
        ),
        _ => (scheduler, SweepAction::Ignore),
    }
}

/// The scheduler after `count` passes of a sweep over `queue` have finished.
pub open spec fn after_passes(queue: Seq<Instance>, count: nat) -> (SchedulerView, SweepAction)
    decreases count,
{
    if count == 0 {
        turned(queue)
    } else {
        sweep_step(after_passes(queue, (count - 1) as nat).0, SweepEvent::PassFinished)
    }
}

impl Scheduler {
    /// A scheduler that has not begun a sweep.
    pub fn new() -> (scheduler: Scheduler)
        ensures
            scheduler@ == settled(SweepState::Idle),
    {
        Scheduler { state: SweepState::Idle, queue: Vec::new() }
    }

    /// Where the scheduler stands.
    pub fn state(&self) -> (state: SweepState)
        ensures
            state == self@.state,
    {
        self.state
    }

    /// Turns to the first subscriber of the queue.
    fn turn(&mut self) -> (action: SweepAction)
        ensures
            (final(self)@, action) == turned(old(self)@.queue),
    {
        if self.queue.len() == 0 {
            self.state = SweepState::Resting;
            assert(self.queue@ =~= Seq::<Instance>::empty());
            SweepAction::Rest(SWEEP_INTERVAL_SECS)
        } else {
            let subscriber = self.queue.remove(0);
            assert(self.queue@ =~= old(self).queue@.drop_first());
            self.state = SweepState::Running;
            SweepAction::RunPass(subscriber)
        }
    }

    /// Takes `event` in and says what is to be done next.
    pub fn step(&mut self, event: SweepEvent) -> (action: SweepAction)
        ensures
            (final(self)@, action) == sweep_step(old(self)@, event),
    {
        match (self.state, event) {
            (SweepState::Idle, SweepEvent::Wake) => {
                self.state = SweepState::Collecting;
                self.queue = Vec::new();
                SweepAction::Collect
            },
            (SweepState::Collecting, SweepEvent::Collected(subscribers)) => {
                self.queue = subscribers;
                self.turn()
            },
            (SweepState::Running, SweepEvent::PassFinished) => self.turn(),
            (SweepState::Resting, SweepEvent::Rested) => {
                self.state = SweepState::Collecting;
                self.queue = Vec::new();
                SweepAction::Collect
            },
            _ => SweepAction::Ignore,
        }
    }
}

/// A sweep visits its subscribers one after another in their order, each
/// once, and rests when all had their turn: once `k` passes of a sweep over
/// `queue` have finished, the pass of subscriber `k` is asked for, and after
/// the last pass the rest.
pub proof fn lemma_sweep_visits_everyone_in_turn(queue: Seq<Instance>, k: nat)
    requires
        k <= queue.len(),
    ensures
        k < queue.len() ==> after_passes(queue, k) == (
            SchedulerView { state: SweepState::Running, queue: queue.skip(k as int + 1) },
            SweepAction::RunPass(queue[k as int]),
        ),
        k == queue.len() ==> after_passes(queue, k) == (
            settled(SweepState::Resting),
            SweepAction::Rest(SWEEP_INTERVAL_SECS),
        ),
    decreases k,
{
    if k == 0 {
        if queue.len() > 0 {
            assert(queue.skip(1) =~= queue.drop_first());
        }
    } else {
        lemma_sweep_visits_everyone_in_turn(queue, (k - 1) as nat);
        let before = queue.skip(k as int);
        assert(queue.skip(k as int).len() == queue.len() - k);
        if k < queue.len() {
            assert(before.drop_first() =~= queue.skip(k as int + 1));
            assert(before[0] == queue[k as int]);
        }
    }
}

/// Sweeps never overlap, and passes never run side by side: the subscribers
/// of a sweep are asked for only before the first sweep or after a rest, a
/// pass is asked for only when the subscribers were told or the pass before
/// has finished, and whatever is reported out of turn changes nothing.
pub proof fn lemma_sweeps_never_overlap(scheduler: SchedulerView, event: SweepEvent)
    ensures
        sweep_step(scheduler, event).1 is Collect ==> (scheduler.state == SweepState::Idle
            && event is Wake) || (scheduler.state == SweepState::Resting && event is Rested),
        sweep_step(scheduler, event).1 is RunPass ==> (scheduler.state == SweepState::Collecting
            && event is Collected) || (scheduler.state == SweepState::Running
            && event is PassFinished),
        sweep_step(scheduler, event).1 is Rest ==> sweep_step(scheduler, event).0.state
            == SweepState::Resting,
        sweep_step(scheduler, event).1 is Ignore ==> sweep_step(scheduler, event).0 == scheduler,
{
}

} // verus!
