use vstd::prelude::*;
use crate::partition::ReduceError;
use crate::worker::{Roster, WorkerEvent, WorkerState};

verus! {

/// A counter that several workers share. Each increment is one critical
/// section: it adds exactly one.
#[derive(Clone, Copy, Debug)]
pub struct Counter {
    value: u64,
}

impl View for Counter {
    type V = nat;

    closed spec fn view(&self) -> nat {
        self.value as nat
    }
}

impl Counter {
    /// A counter at zero.
    pub fn new() -> (c: Counter)
        ensures
            c@ == 0,
    {
        Counter { value: 0 }
    }

    /// The counter never leaves the 64-bit range.
    pub proof fn lemma_bounded(&self)
        ensures
            self@ <= u64::MAX,
    {
    }

    /// Adds one to the counter.
    pub fn increment(&mut self)
        requires
            old(self)@ < u64::MAX,
        ensures
            final(self)@ == old(self)@ + 1,
    {
        self.value = self.value + 1;
    }

    /// The counter's present value.
    pub fn value(&self) -> (v: u64)
        ensures
            v == self@,
    {
        self.value
    }
}

/// The counter's value after `workers` workers have each made `increments`
/// increments: their product, or an overflow where it leaves 64 bits.
pub open spec fn counter_outcome(workers: usize, increments: u64) -> Result<u64, ReduceError> {
    if workers == 0 {
        Err(ReduceError::ZeroWorkers)
    } else if workers * increments <= u64::MAX {
        Ok((workers * increments) as u64)
    } else {
        Err(ReduceError::Overflow)
    }
}

/// One worker's whole run: `increments` increments of the shared counter,
/// one after the other.
pub fn run_increments(counter: &mut Counter, increments: u64)
    requires
        old(counter)@ + increments <= u64::MAX,
    ensures
        final(counter)@ == old(counter)@ + increments,
{
    let mut done: u64 = 0;
    while done < increments
        invariant
            done <= increments,
            old(counter)@ + increments <= u64::MAX,
            counter@ == old(counter)@ + done,
        decreases increments - done,
    {
        counter.increment();
        done += 1;
    }
}

/// Checks a run's configuration before any worker starts: there must be a
/// worker, and the final count must fit in 64 bits.
pub fn validate_counter_run(workers: usize, increments: u64) -> (r: Result<u64, ReduceError>)
    ensures
        r == counter_outcome(workers, increments),
{
    if workers == 0 {
        return Err(ReduceError::ZeroWorkers);
    }
    if increments == 0 {
        assert(workers * 0 == 0);
        return Ok(0);
    }
    let limit: u64 = u64::MAX / increments;
    proof {
        let w = workers as int;
        let k = increments as int;
        let l = limit as int;
        let m = u64::MAX as int;
        assert(l * k <= m && m < (l + 1) * k) by (nonlinear_arith)
            requires
                l == m / k,
                k > 0,
                m >= 0,
        ;
        if w <= l {
            assert(w * k <= l * k) by (nonlinear_arith)
                requires
                    0 <= w <= l,
                    k > 0,
            ;
        } else {
            assert(w * k >= (l + 1) * k) by (nonlinear_arith)
                requires
                    w >= l + 1,
                    k > 0,
            ;
        }
    }
    if workers as u64 > limit {
        return Err(ReduceError::Overflow);
    }
    Ok(workers as u64 * increments)
}

/// Runs `workers` workers, each of which increments one shared counter
/// `increments` times, and returns the counter's final value: exactly
/// `workers * increments`. No increment is ever lost.
///
/// The workers take their turns one after the other on the calling thread.
pub fn shared_counter_demo(workers: usize, increments: u64) -> (r: Result<u64, ReduceError>)
    ensures
        r == counter_outcome(workers, increments),
        workers >= 1 && workers * increments <= u64::MAX ==> r == Ok::<u64, ReduceError>(
            (workers * increments) as u64,
        ),
{
    match validate_counter_run(workers, increments) {
        Err(e) => {
            return Err(e);
        },
        Ok(_) => {},
    }
    let mut roster: Roster = match Roster::new(workers) {
        Ok(roster) => roster,
        Err(e) => {
            return Err(e);
        },
    };
    let mut counter = Counter::new();
    let mut w: usize = 0;
    while w < workers
        invariant
            w <= workers,
            workers * increments <= u64::MAX,
            counter@ == w * increments,
            roster@.len() == workers,
            forall|j: int| 0 <= j < w ==> roster@[j] == WorkerState::Joined,
            forall|j: int| w <= j < workers ==> roster@[j] == WorkerState::Spawned,
        decreases workers - w,
    {
        proof {
            assert((w + 1) * increments == w * increments + increments) by (nonlinear_arith);
            assert((w + 1) * increments <= workers * increments) by (nonlinear_arith)
                requires
                    w + 1 <= workers,
                    increments >= 0,
            ;
        }
        let started = roster.record(w, WorkerEvent::Start);
        let entered = roster.record(w, WorkerEvent::Enter);
        run_increments(&mut counter, increments);
        let joined = roster.record(w, WorkerEvent::Join);
        assert(started is Ok && entered is Ok && joined is Ok);
        w += 1;
    }
    match roster.settle() {
        Ok(()) => Ok(counter.value()),
        Err(e) => Err(e),
    }
}

} // verus!
