use vstd::prelude::*;

verus! {

/// Why a reduction or a demonstration run did not produce a value.
#[derive(Clone, Copy, Debug, PartialEq, Eq, Structural)]
pub enum ReduceError {
    /// The worker count was zero: there is nobody to hand the work to.
    ZeroWorkers,
    /// The exact result does not fit in 64 bits.
    Overflow,
    /// A worker ended abnormally; its contribution is missing, so there is
    /// no result.
    WorkerFailed,
    /// The result was asked for before every worker had been joined.
    Unfinished,
    /// A worker reported a step that cannot follow its present state, or
    /// the worker does not exist.
    OutOfTurn,
}

/// A half-open range `[start, end)` of dataset indices, the share of one worker.
/// A range with `start >= end` is empty.
#[derive(Clone, Copy, Debug, PartialEq, Eq, Structural)]
pub struct Partition {
    pub start: usize,
    pub end: usize,
}

impl Partition {
    /// The indices that belong to this partition.
    pub open spec fn contains(&self, k: int) -> bool {
        self.start <= k < self.end
    }

    /// The number of indices in this partition.
    pub open spec fn spec_len(&self) -> nat {
        if self.start <= self.end {
            (self.end - self.start) as nat
        } else {
            0
        }
    }

    /// The number of indices in this partition; zero where `start >= end`.
    pub fn len(&self) -> (n: usize)
        ensures
            n == self.spec_len(),
    {
        if self.start <= self.end {
            self.end - self.start
        } else {
            0
        }
    }

    /// Whether the partition holds no index at all.
    pub fn is_empty(&self) -> (b: bool)
        ensures
            b == (self.spec_len() == 0),
            b == (forall|k: int| !self.contains(k)),
    {
        proof {
            if self.start < self.end {
                assert(self.contains(self.start as int));
            }
        }
        self.start >= self.end
    }
}

/// The number of elements that every partition but the last one holds.
pub open spec fn chunk_size(len: nat, workers: nat) -> nat
    recommends
        workers >= 1,
{
    len / workers
}

/// The partition of worker `index` among `workers` workers over a dataset of
/// `len` elements: each spans `chunk_size` elements from `index * chunk_size`
/// on, but the last one, which runs to `len`.
pub open spec fn partition_of(len: usize, workers: usize, index: usize) -> Partition
    recommends
        workers >= 1,
        index < workers,
{
    let chunk = chunk_size(len as nat, workers as nat);
    Partition {
        start: (index * chunk) as usize,
        end: if index == workers - 1 {
            len
        } else {
            (index * chunk + chunk) as usize
        },
    }
}

/// The bounds of `partition_of` are ordered and stay inside the dataset, so
/// the products in its definition fit in `usize`.
pub proof fn lemma_partition_bounds(len: usize, workers: usize, index: usize)
    requires
        workers >= 1,
        index < workers,
    ensures
        partition_of(len, workers, index).start == index * chunk_size(len as nat, workers as nat),
        index < workers - 1 ==> partition_of(len, workers, index).end == (index + 1) * chunk_size(
            len as nat,
            workers as nat,
        ),
        index == workers - 1 ==> partition_of(len, workers, index).end == len,
        partition_of(len, workers, index).start <= partition_of(len, workers, index).end <= len,
        index * chunk_size(len as nat, workers as nat) <= len,
        index < workers - 1 ==> (index + 1) * chunk_size(len as nat, workers as nat) <= len,
{
    let chunk = chunk_size(len as nat, workers as nat);
    let l = len as int;
    let w = workers as int;
    let i = index as int;
    let c = chunk as int;
    assert(c * w <= l) by (nonlinear_arith)
        requires
            c == l / w,
            w >= 1,
            l >= 0,
    ;
    assert(i * c <= (w - 1) * c) by (nonlinear_arith)
        requires
            0 <= i <= w - 1,
            c >= 0,
    ;
    assert((w - 1) * c + c == c * w) by (nonlinear_arith);
    assert(0 <= i * c) by (nonlinear_arith)
        requires
            0 <= i,
            0 <= c,
    ;
    if i < w - 1 {
        assert(i * c + c <= (w - 1) * c) by (nonlinear_arith)
            requires
                0 <= i < w - 1,
                c >= 0,
        ;
        assert((i + 1) * c == i * c + c) by (nonlinear_arith);
    }
}

/// The partitions lie end to end: the first starts at index 0, each one ends
/// where the next one starts, and the last one ends at `len`.
pub proof fn lemma_partitions_contiguous(len: usize, workers: usize, index: usize)
    requires
        workers >= 1,
        index < workers,
    ensures
        index == 0 ==> partition_of(len, workers, index).start == 0,
        index + 1 < workers ==> partition_of(len, workers, index).end == partition_of(
            len,
            workers,
            (index + 1) as usize,
        ).start,
        index + 1 == workers ==> partition_of(len, workers, index).end == len,
{
    lemma_partition_bounds(len, workers, index);
    if index + 1 < workers {
        lemma_partition_bounds(len, workers, (index + 1) as usize);
    }
    assert(0 * chunk_size(len as nat, workers as nat) == 0);
}

/// The partitions of two different workers share no index.
pub proof fn lemma_partitions_disjoint(len: usize, workers: usize, first: usize, second: usize, k: int)
    requires
        workers >= 1,
        first < workers,
        second < workers,
        first != second,
    ensures
        !(partition_of(len, workers, first).contains(k) && partition_of(len, workers, second).contains(k)),
{
    lemma_partition_bounds(len, workers, first);
    lemma_partition_bounds(len, workers, second);
    let c = chunk_size(len as nat, workers as nat) as int;
    let lo = if first < second { first as int } else { second as int };
    let hi = if first < second { second as int } else { first as int };
    assert((lo + 1) * c <= hi * c) by (nonlinear_arith)
        requires
            lo + 1 <= hi,
            c >= 0,
    ;
}

/// The worker whose partition holds index `k` of a dataset of `len` elements.
pub open spec fn owner_of(len: usize, workers: usize, k: int) -> int
    recommends
        workers >= 1,
        0 <= k < len,
{
    let chunk = chunk_size(len as nat, workers as nat) as int;
    if chunk == 0 || k / chunk >= workers - 1 {
        workers - 1
    } else {
        k / chunk
    }
}

/// The partitions cover the dataset and nothing else: an index lies in some
/// worker's partition exactly when it lies in `[0, len)`, and then
/// `owner_of` names that worker.
pub proof fn lemma_partitions_cover(len: usize, workers: usize, k: int)
    requires
        workers >= 1,
    ensures
        (0 <= k < len) <==> (exists|i: int|
            0 <= i < workers && #[trigger] partition_of(len, workers, i as usize).contains(k)),
        0 <= k < len ==> 0 <= owner_of(len, workers, k) < workers && partition_of(
            len,
            workers,
            owner_of(len, workers, k) as usize,
        ).contains(k),
{
    let c = chunk_size(len as nat, workers as nat) as int;
    let w = workers as int;
    if 0 <= k < len {
        let i = owner_of(len, workers, k);
        if c == 0 || k / c >= w - 1 {
            lemma_partition_bounds(len, workers, (w - 1) as usize);
            if c > 0 {
                assert((w - 1) * c <= k) by (nonlinear_arith)
                    requires
                        k / c >= w - 1,
                        c > 0,
                        k >= 0,
                        w >= 1,
                ;
            } else {
                assert((w - 1) * c == 0) by (nonlinear_arith)
                    requires
                        c == 0,
                ;
            }
        } else {
            assert(0 <= k / c) by (nonlinear_arith)
                requires
                    k >= 0,
                    c > 0,
            ;
            lemma_partition_bounds(len, workers, i as usize);
            assert(i * c <= k < (i + 1) * c) by (nonlinear_arith)
                requires
                    i == k / c,
                    c > 0,
                    k >= 0,
            ;
        }
        assert(partition_of(len, workers, i as usize).contains(k));
    }
    if exists|i: int| 0 <= i < workers && #[trigger] partition_of(len, workers, i as usize).contains(k) {
        let i = choose|i: int|
            0 <= i < workers && #[trigger] partition_of(len, workers, i as usize).contains(k);
        lemma_partition_bounds(len, workers, i as usize);
    }
}

/// The partition that worker `index` of `workers` gets over `len` elements.
pub fn partition_at(len: usize, workers: usize, index: usize) -> (p: Partition)
    requires
        workers >= 1,
        index < workers,
    ensures
        p == partition_of(len, workers, index),
{
    proof {
        lemma_partition_bounds(len, workers, index);
    }
    let chunk: usize = len / workers;
    assert(chunk == chunk_size(len as nat, workers as nat));
    assert((index + 1) * chunk == index * chunk + chunk) by (nonlinear_arith);
    let start: usize = index * chunk;
    let end: usize = if index == workers - 1 {
        len
    } else {
        start + chunk
    };
    Partition { start, end }
}

/// What `partitions` returns: the error for no workers, else the `workers`
/// partitions in worker order.
pub open spec fn partitions_spec(len: usize, workers: usize, r: Result<Vec<Partition>, ReduceError>) -> bool {
    match r {
        Err(e) => workers == 0 && e == ReduceError::ZeroWorkers,
        Ok(parts) => {
            &&& workers >= 1
            &&& parts@.len() == workers
            &&& forall|i: int|
                0 <= i < workers ==> #[trigger] parts@[i] == partition_of(len, workers, i as usize)
        },
    }
}

/// Cuts the index range `[0, len)` into `workers` contiguous partitions.
/// With no workers nothing is cut, and the error says so.
pub fn partitions(len: usize, workers: usize) -> (r: Result<Vec<Partition>, ReduceError>)
    ensures
        partitions_spec(len, workers, r),
{
    if workers == 0 {
        return Err(ReduceError::ZeroWorkers);
    }
    let mut parts: Vec<Partition> = Vec::new();
    let mut i: usize = 0;
    while i < workers
        invariant
            workers >= 1,
            i <= workers,
            parts@.len() == i,
            forall|j: int| 0 <= j < i ==> #[trigger] parts@[j] == partition_of(len, workers, j as usize),
        decreases workers - i,
    {
        parts.push(partition_at(len, workers, i));
        i += 1;
    }
    Ok(parts)
}

} // verus!
