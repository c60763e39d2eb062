use vstd::prelude::*;
use vstd::seq_lib::{commutative_foldl, lemma_fold_left_permutation};
use crate::worker::{Roster, WorkerEvent, WorkerState};
use crate::partition::{Partition, ReduceError, chunk_size, partition_of, partitions, lemma_partition_bounds, lemma_partitions_contiguous};

verus! {

/// The square of one element, as a mathematical integer.
pub open spec fn square(x: u64) -> nat {
    (x * x) as nat
}

/// The sum of the squares of the elements of `s` at the indices `lo <= i < hi`.
/// It is zero where `hi <= lo`.
pub open spec fn range_sum(s: Seq<u64>, lo: int, hi: int) -> nat
    decreases hi - lo,
{
    if hi <= lo {
        0
    } else {
        range_sum(s, lo, hi - 1) + square(s[hi - 1])
    }
}

/// The sum of the squares of all elements of `s`.
pub open spec fn sum_of_squares(s: Seq<u64>) -> nat {
    range_sum(s, 0, s.len() as int)
}

/// The sum of the squares of the elements that partition `p` covers.
pub open spec fn partition_sum(s: Seq<u64>, p: Partition) -> nat {
    range_sum(s, p.start as int, p.end as int)
}

/// How an exact total is reported: as itself where it fits in 64 bits, as an
/// overflow where it does not. Nothing ever wraps.
pub open spec fn outcome(total: nat) -> Result<u64, ReduceError> {
    if total <= u64::MAX {
        Ok(total as u64)
    } else {
        Err(ReduceError::Overflow)
    }
}

/// A range's sum is the sum of its two halves, wherever it is cut.
pub proof fn lemma_range_sum_split(s: Seq<u64>, lo: int, mid: int, hi: int)
    requires
        lo <= mid <= hi,
    ensures
        range_sum(s, lo, hi) == range_sum(s, lo, mid) + range_sum(s, mid, hi),
    decreases hi - mid,
{
    if mid < hi {
        lemma_range_sum_split(s, lo, mid, hi - 1);
    }
}

/// A range's sum does not shrink when the range grows to the right.
pub proof fn lemma_range_sum_grows(s: Seq<u64>, lo: int, mid: int, hi: int)
    requires
        mid <= hi,
    ensures
        range_sum(s, lo, mid) <= range_sum(s, lo, hi),
    decreases hi - mid,
{
    if mid < hi {
        lemma_range_sum_grows(s, lo, mid, hi - 1);
    }
}

/// A dataset of `len` elements, each of them `value`.
pub fn uniform_dataset(len: usize, value: u64) -> (dataset: Vec<u64>)
    ensures
        dataset@ == Seq::new(len as nat, |i: int| value),
{
    let dataset: Vec<u64> = vec![value; len];
    assert(dataset@ =~= Seq::new(len as nat, |i: int| value));
    dataset
}

/// Over a stretch of equal elements the sum of squares is the number of
/// elements times the square of one.
pub proof fn lemma_uniform_range_sum(s: Seq<u64>, value: u64, lo: int, hi: int)
    requires
        0 <= lo <= hi <= s.len(),
        forall|i: int| lo <= i < hi ==> s[i] == value,
    ensures
        range_sum(s, lo, hi) == (hi - lo) * square(value),
    decreases hi - lo,
{
    if lo < hi {
        lemma_uniform_range_sum(s, value, lo, hi - 1);
        assert((hi - 1 - lo) * square(value) + square(value) == (hi - lo) * square(value))
            by (nonlinear_arith);
    } else {
        assert(0 * square(value) == 0);
    }
}

/// Reduces the elements of `dataset` that `p` covers to the sum of their
/// squares, touching no element outside `p`. An empty partition gives zero.
pub fn reduce_partition(dataset: &Vec<u64>, p: Partition) -> (r: Result<u64, ReduceError>)
    requires
        p.end <= dataset@.len(),
    ensures
        r == outcome(partition_sum(dataset@, p)),
{
    let mut sum: u64 = 0;
    let mut i: usize = p.start;
    while i < p.end
        invariant
            p.end <= dataset@.len(),
            p.start <= i,
            i == p.start || i <= p.end,
            sum == range_sum(dataset@, p.start as int, i as int),
        decreases p.end - i,
    {
        let x: u64 = dataset[i];
        proof {
            lemma_range_sum_grows(dataset@, p.start as int, i + 1, p.end as int);
        }
        let sq: u64 = match x.checked_mul(x) {
            Some(v) => v,
            None => {
                return Err(ReduceError::Overflow);
            },
        };
        sum = match sum.checked_add(sq) {
            Some(v) => v,
            None => {
                return Err(ReduceError::Overflow);
            },
        };
        i += 1;
    }
    Ok(sum)
}

/// Reduces the whole dataset on the calling thread: the sum of the squares
/// of its elements, or an overflow where that sum does not fit in 64 bits.
/// The dataset is only read, so the same dataset gives the same result on
/// every call.
pub fn sequential_reduce(dataset: &Vec<u64>) -> (r: Result<u64, ReduceError>)
    ensures
        r == outcome(sum_of_squares(dataset@)),
        dataset@.len() == 0 ==> r == Ok::<u64, ReduceError>(0),
{
    reduce_partition(dataset, Partition { start: 0, end: dataset.len() })
}

/// What the accumulator reports after a partial result has been merged into
/// it: the sum of the two where both are values and the sum fits in 64 bits,
/// an overflow in every other case.
pub open spec fn merged(acc: Result<u64, ReduceError>, partial: Result<u64, ReduceError>) -> Result<
    u64,
    ReduceError,
> {
    match (acc, partial) {
        (Ok(a), Ok(b)) => outcome((a + b) as nat),
        _ => Err(ReduceError::Overflow),
    }
}

/// Merging the reports of two exact totals gives the report of their sum.
pub proof fn lemma_merged_outcome(a: nat, b: nat)
    ensures
        merged(outcome(a), outcome(b)) == outcome(a + b),
{
}

/// The accumulator's report after all of `partials` have been merged into an
/// empty accumulator, one after the other.
pub open spec fn merge_all(partials: Seq<Result<u64, ReduceError>>) -> Result<u64, ReduceError> {
    partials.fold_left(
        Ok(0u64),
        |acc: Result<u64, ReduceError>, partial: Result<u64, ReduceError>| merged(acc, partial),
    )
}

/// The partial results of a run with `workers` workers over `s`, in worker
/// order: for each worker the report of the sum over its partition.
pub open spec fn partial_results(s: Seq<u64>, workers: usize) -> Seq<Result<u64, ReduceError>> {
    Seq::new(
        workers as nat,
        |i: int| outcome(partition_sum(s, partition_of(s.len() as usize, workers, i as usize))),
    )
}

/// Merging is insensitive to the order of two partial results.
pub proof fn lemma_merged_commutes(
    acc: Result<u64, ReduceError>,
    first: Result<u64, ReduceError>,
    second: Result<u64, ReduceError>,
)
    ensures
        merged(merged(acc, first), second) == merged(merged(acc, second), first),
        merged(first, second) == merged(second, first),
{
}

/// The accumulator's final report does not depend on the order in which the
/// workers reach it: two sequences that hold the same partial results, each
/// as often as the other, merge to the same report.
pub proof fn lemma_merge_order(a: Seq<Result<u64, ReduceError>>, b: Seq<Result<u64, ReduceError>>)
    requires
        a.to_multiset() == b.to_multiset(),
    ensures
        merge_all(a) == merge_all(b),
{
    let f = |acc: Result<u64, ReduceError>, partial: Result<u64, ReduceError>| merged(acc, partial);
    assert(commutative_foldl(f)) by {
        assert forall|x: Result<u64, ReduceError>, y: Result<u64, ReduceError>, v: Result<u64, ReduceError>|
            #[trigger] f(f(v, x), y) == f(f(v, y), x) by {
            lemma_merged_commutes(v, x, y);
        }
    }
    lemma_fold_left_permutation(a, b, f, Ok(0u64));
}

/// Merging the partial results of the first `count` workers gives the report
/// of the sum over all indices before the next worker's partition.
proof fn lemma_merge_prefix(s: Seq<u64>, workers: usize, count: nat)
    requires
        workers >= 1,
        s.len() <= usize::MAX,
        count <= workers,
    ensures
        count < workers ==> merge_all(partial_results(s, workers).take(count as int)) == outcome(
            range_sum(s, 0, partition_of(s.len() as usize, workers, count as usize).start as int),
        ),
        count == workers ==> merge_all(partial_results(s, workers).take(count as int)) == outcome(
            sum_of_squares(s),
        ),
    decreases count,
{
    let len = s.len() as usize;
    let all = partial_results(s, workers);
    let taken = all.take(count as int);
    if count == 0 {
        lemma_partitions_contiguous(len, workers, 0);
    } else {
        let last = (count - 1) as usize;
        let p = partition_of(len, workers, last);
        lemma_merge_prefix(s, workers, (count - 1) as nat);
        lemma_partition_bounds(len, workers, last);
        lemma_partitions_contiguous(len, workers, last);
        lemma_range_sum_split(s, 0, p.start as int, p.end as int);
        lemma_merged_outcome(range_sum(s, 0, p.start as int), partition_sum(s, p));
        assert(taken.drop_last() =~= all.take(count - 1));
        assert(taken.last() == outcome(partition_sum(s, p)));
    }
}

/// With at least one worker, merging the partial results of all partitions
/// gives exactly what one pass over the whole dataset gives, however many
/// workers there are and in whatever order their results arrive.
pub proof fn lemma_parallel_equals_sequential(
    s: Seq<u64>,
    workers: usize,
    arrival: Seq<Result<u64, ReduceError>>,
)
    requires
        workers >= 1,
        s.len() <= usize::MAX,
        arrival.to_multiset() == partial_results(s, workers).to_multiset(),
    ensures
        merge_all(arrival) == outcome(sum_of_squares(s)),
{
    let all = partial_results(s, workers);
    lemma_merge_prefix(s, workers, workers as nat);
    assert(all.take(workers as int) =~= all);
    lemma_merge_order(arrival, all);
}

/// With more workers than elements every worker but the last has an empty
/// partition and contributes zero; the last one covers the whole dataset.
pub proof fn lemma_surplus_workers_idle(s: Seq<u64>, workers: usize, index: usize)
    requires
        s.len() <= usize::MAX,
        workers > s.len(),
        index < workers,
    ensures
        index + 1 < workers ==> partition_of(s.len() as usize, workers, index).spec_len() == 0
            && partition_sum(s, partition_of(s.len() as usize, workers, index)) == 0,
        index + 1 == workers ==> partition_sum(s, partition_of(s.len() as usize, workers, index))
            == sum_of_squares(s),
{
    let len = s.len() as usize;
    lemma_partition_bounds(len, workers, index);
    assert(chunk_size(len as nat, workers as nat) == 0) by (nonlinear_arith)
        requires
            0 <= len < workers,
            chunk_size(len as nat, workers as nat) == (len as nat) / (workers as nat),
    ;
    assert(index * 0 == 0);
    assert((index + 1) * 0 == 0);
}

/// A dataset without elements reduces to zero.
pub proof fn lemma_empty_dataset(s: Seq<u64>)
    requires
        s.len() == 0,
    ensures
        sum_of_squares(s) == 0,
        outcome(sum_of_squares(s)) == Ok::<u64, ReduceError>(0),
{
}

/// The one value that all workers of a run add their partial results to.
/// It holds either the sum merged so far or the fact that this sum has left
/// the 64-bit range; once that has happened it stays so.
#[derive(Clone, Copy, Debug)]
pub struct Accumulator {
    total: u64,
    overflowed: bool,
}

impl View for Accumulator {
    type V = Result<u64, ReduceError>;

    closed spec fn view(&self) -> Result<u64, ReduceError> {
        if self.overflowed {
            Err(ReduceError::Overflow)
        } else {
            Ok(self.total)
        }
    }
}

impl Accumulator {
    /// An accumulator that nothing has been merged into: it reports zero.
    pub fn new() -> (acc: Accumulator)
        ensures
            acc@ == Ok::<u64, ReduceError>(0),
    {
        Accumulator { total: 0, overflowed: false }
    }

    /// Adds one worker's partial result. This is the whole critical section
    /// of a worker: one checked addition.
    pub fn merge(&mut self, partial: Result<u64, ReduceError>)
        ensures
            final(self)@ == merged(old(self)@, partial),
    {
        if self.overflowed {
            return ;
        }
        match partial {
            Ok(v) => match self.total.checked_add(v) {
                Some(t) => {
                    self.total = t;
                },
                None => {
                    self.overflowed = true;
                },
            },
            Err(_) => {
                self.overflowed = true;
            },
        }
    }

    /// What the accumulator reports: the merged sum, or the overflow.
    pub fn value(&self) -> (r: Result<u64, ReduceError>)
        ensures
            r == self@,
    {
        if self.overflowed {
            Err(ReduceError::Overflow)
        } else {
            Ok(self.total)
        }
    }
}

/// Reduces the dataset as a pool of `workers` workers does: the index range
/// is cut into `workers` partitions, each partition is reduced on its own by
/// `reduce_partition`, and each partial result is merged into one
/// accumulator, which is read when every partition has been merged. The
/// result is that of `sequential_reduce`, whatever the worker count; with no
/// workers nothing is reduced and the error says so.
///
/// The partitions are taken in worker order on the calling thread. A caller
/// that hands them to threads performs the same two steps per worker.
pub fn parallel_reduce(dataset: &Vec<u64>, workers: usize) -> (r: Result<u64, ReduceError>)
    ensures
        workers == 0 ==> r == Err::<u64, ReduceError>(ReduceError::ZeroWorkers),
        workers >= 1 ==> r == outcome(sum_of_squares(dataset@)),
        workers >= 1 ==> r == merge_all(partial_results(dataset@, workers)),
        workers >= 1 && dataset@.len() == 0 ==> r == Ok::<u64, ReduceError>(0),
{
    let len: usize = dataset.len();
    let parts: Vec<Partition> = match partitions(len, workers) {
        Ok(parts) => parts,
        Err(e) => {
            return Err(e);
        },
    };
    let mut roster: Roster = match Roster::new(workers) {
        Ok(roster) => roster,
        Err(e) => {
            return Err(e);
        },
    };
    let mut acc = Accumulator::new();
    let ghost mut done: int = 0;
    let mut i: usize = 0;
    proof {
        lemma_partitions_contiguous(len, workers, 0);
    }
    while i < workers
        invariant
            workers >= 1,
            len == dataset@.len(),
            i <= workers,
            parts@.len() == workers,
            forall|j: int| 0 <= j < workers ==> #[trigger] parts@[j] == partition_of(len, workers, j as usize),
            roster@.len() == workers,
            forall|j: int| 0 <= j < i ==> roster@[j] == WorkerState::Joined,
            forall|j: int| i <= j < workers ==> roster@[j] == WorkerState::Spawned,
            0 <= done <= len,
            i < workers ==> done == partition_of(len, workers, i).start,
            i == workers ==> done == len,
            acc@ == outcome(range_sum(dataset@, 0, done)),
        decreases workers - i,
    {
        let p: Partition = parts[i];
        proof {
            lemma_partition_bounds(len, workers, i);
            lemma_partitions_contiguous(len, workers, i);
            lemma_range_sum_split(dataset@, 0, p.start as int, p.end as int);
            lemma_merged_outcome(range_sum(dataset@, 0, done), partition_sum(dataset@, p));
        }
        let started = roster.record(i, WorkerEvent::Start);
        let partial = reduce_partition(dataset, p);
        let entered = roster.record(i, WorkerEvent::Enter);
        acc.merge(partial);
        let joined = roster.record(i, WorkerEvent::Join);
        assert(started is Ok && entered is Ok && joined is Ok);
        proof {
            done = p.end as int;
        }
        i += 1;
    }
    proof {
        lemma_parallel_equals_sequential(dataset@, workers, partial_results(dataset@, workers));
    }
    match roster.settle() {
        Ok(()) => acc.value(),
        Err(e) => Err(e),
    }
}

} // verus!
