use vstd::prelude::*;
use crate::partition::ReduceError;

verus! {

/// Where a worker stands in its one run.
#[derive(Clone, Copy, Debug, PartialEq, Eq, Structural)]
pub enum WorkerState {
    /// Created, not yet at work.
    Spawned,
    /// At work on its own share, outside the lock.
    Running,
    /// Inside its critical section, merging or incrementing.
    Merging,
    /// Done and joined by the orchestrator.
    Joined,
    /// Ended abnormally. There is no way back.
    Failed,
}

/// What a worker, or the orchestrator on its behalf, reports.
#[derive(Clone, Copy, Debug, PartialEq, Eq, Structural)]
pub enum WorkerEvent {
    /// The worker has begun its share.
    Start,
    /// The worker has taken the lock.
    Enter,
    /// The worker has ended and was joined.
    Join,
    /// The worker ended abnormally.
    Fail,
}

/// The state that follows `state` on `event`, if the event may come in that
/// state. A worker goes from spawned to running to merging to joined, and
/// from running or merging it may fail. Nothing is ever retried.
pub open spec fn next_state(state: WorkerState, event: WorkerEvent) -> Option<WorkerState> {
    match (state, event) {
        (WorkerState::Spawned, WorkerEvent::Start) => Some(WorkerState::Running),
        (WorkerState::Running, WorkerEvent::Enter) => Some(WorkerState::Merging),
        (WorkerState::Merging, WorkerEvent::Join) => Some(WorkerState::Joined),
        (WorkerState::Running, WorkerEvent::Fail) => Some(WorkerState::Failed),
        (WorkerState::Merging, WorkerEvent::Fail) => Some(WorkerState::Failed),
        _ => None,
    }
}

/// Computes `next_state`.
pub fn advance(state: WorkerState, event: WorkerEvent) -> (r: Option<WorkerState>)
    ensures
        r == next_state(state, event),
{
    match (state, event) {
        (WorkerState::Spawned, WorkerEvent::Start) => Some(WorkerState::Running),
        (WorkerState::Running, WorkerEvent::Enter) => Some(WorkerState::Merging),
        (WorkerState::Merging, WorkerEvent::Join) => Some(WorkerState::Joined),
        (WorkerState::Running, WorkerEvent::Fail) => Some(WorkerState::Failed),
        (WorkerState::Merging, WorkerEvent::Fail) => Some(WorkerState::Failed),
        _ => None,
    }
}

/// Whether some worker has failed.
pub open spec fn any_failed(states: Seq<WorkerState>) -> bool {
    exists|i: int| 0 <= i < states.len() && #[trigger] states[i] == WorkerState::Failed
}

/// Whether every worker has been joined.
pub open spec fn all_joined(states: Seq<WorkerState>) -> bool {
    forall|i: int| 0 <= i < states.len() ==> #[trigger] states[i] == WorkerState::Joined
}

/// Whether the shared value may be read: only once every worker has been
/// joined. A failed worker is fatal, whatever the others did.
pub open spec fn settled(states: Seq<WorkerState>) -> Result<(), ReduceError> {
    if any_failed(states) {
        Err(ReduceError::WorkerFailed)
    } else if all_joined(states) {
        Ok(())
    } else {
        Err(ReduceError::Unfinished)
    }
}

/// The orchestrator's record of its workers: one state for each, and never
/// fewer than one worker.
#[derive(Debug)]
pub struct Roster {
    states: Vec<WorkerState>,
}

impl View for Roster {
    type V = Seq<WorkerState>;

    closed spec fn view(&self) -> Seq<WorkerState> {
        self.states@
    }
}

impl Roster {
    /// A roster of `workers` workers, all just spawned. With no workers
    /// there is no roster.
    pub fn new(workers: usize) -> (r: Result<Roster, ReduceError>)
        ensures
            workers == 0 ==> r == Err::<Roster, ReduceError>(ReduceError::ZeroWorkers),
            workers >= 1 ==> r is Ok && r->Ok_0@ == Seq::new(
                workers as nat,
                |i: int| WorkerState::Spawned,
            ),
    {
        if workers == 0 {
            return Err(ReduceError::ZeroWorkers);
        }
        let mut states: Vec<WorkerState> = Vec::new();
        let mut i: usize = 0;
        while i < workers
            invariant
                i <= workers,
                states@.len() == i,
                forall|j: int| 0 <= j < i ==> states@[j] == WorkerState::Spawned,
            decreases workers - i,
        {
            states.push(WorkerState::Spawned);
            i += 1;
        }
        assert(states@ =~= Seq::new(workers as nat, |i: int| WorkerState::Spawned));
        Ok(Roster { states })
    }

    /// The number of workers.
    pub fn len(&self) -> (n: usize)
        ensures
            n == self@.len(),
    {
        self.states.len()
    }

    /// The state of one worker, if there is such a worker.
    pub fn state(&self, worker: usize) -> (s: Option<WorkerState>)
        ensures
            s == if worker < self@.len() {
                Some(self@[worker as int])
            } else {
                None
            },
    {
        if worker < self.states.len() {
            Some(self.states[worker])
        } else {
            None
        }
    }

    /// Records an event of one worker. Where the event may follow the
    /// worker's state, that worker moves on and no other does; where it may
    /// not, or there is no such worker, nothing changes and the event is
    /// refused.
    pub fn record(&mut self, worker: usize, event: WorkerEvent) -> (r: Result<(), ReduceError>)
        ensures
            r is Ok <==> worker < old(self)@.len() && next_state(old(self)@[worker as int], event)
                is Some,
            r is Ok ==> final(self)@ == old(self)@.update(
                worker as int,
                next_state(old(self)@[worker as int], event)->Some_0,
            ),
            r is Err ==> r == Err::<(), ReduceError>(ReduceError::OutOfTurn) && final(self)@ == old(
                self,
            )@,
    {
        if worker >= self.states.len() {
            return Err(ReduceError::OutOfTurn);
        }
        match advance(self.states[worker], event) {
            Some(next) => {
                self.states.set(worker, next);
                Ok(())
            },
            None => Err(ReduceError::OutOfTurn),
        }
    }

    /// Says whether the shared value may be read now.
    pub fn settle(&self) -> (r: Result<(), ReduceError>)
        ensures
            r == settled(self@),
    {
        let mut joined: bool = true;
        let mut i: usize = 0;
        while i < self.states.len()
            invariant
                i <= self.states@.len(),
                forall|j: int| 0 <= j < i ==> self.states@[j] != WorkerState::Failed,
                joined == (forall|j: int| 0 <= j < i ==> self.states@[j] == WorkerState::Joined),
            decreases self.states@.len() - i,
        {
            let s: WorkerState = self.states[i];
            if s == WorkerState::Failed {
                return Err(ReduceError::WorkerFailed);
            }
            if s != WorkerState::Joined {
                joined = false;
            }
            i += 1;
        }
        if joined {
            Ok(())
        } else {
            Err(ReduceError::Unfinished)
        }
    }
}

/// A worker that has been joined or has failed stays as it is: no event
/// moves it again.
pub proof fn lemma_final_states(event: WorkerEvent)
    ensures
        next_state(WorkerState::Joined, event) is None,
        next_state(WorkerState::Failed, event) is None,
{
}

/// The only step into the joined state is a join of a worker that is in its
/// critical section.
pub proof fn lemma_joined_only_after_merging(state: WorkerState, event: WorkerEvent)
    requires
        next_state(state, event) == Some(WorkerState::Joined),
    ensures
        state == WorkerState::Merging,
        event == WorkerEvent::Join,
{
}

} // verus!
