use data_reduction::partition::{partition_at, partitions, Partition, ReduceError};
use data_reduction::reduce::{
    parallel_reduce, reduce_partition, sequential_reduce, uniform_dataset, Accumulator,
};

fn assert_tiles(len: usize, workers: usize) {
    let parts = partitions(len, workers).unwrap();
    assert_eq!(parts.len(), workers);
    let mut owners = vec![0usize; len];
    for p in parts.iter() {
        assert!(p.start <= p.end);
        assert!(p.end <= len);
        for k in p.start..p.end {
            owners[k] += 1;
        }
    }
    for k in 0..len {
        assert_eq!(owners[k], 1);
    }
    assert_eq!(parts[0].start, 0);
    assert_eq!(parts[workers - 1].end, len);
    for i in 1..workers {
        assert_eq!(parts[i - 1].end, parts[i].start);
    }
}

#[test]
fn partitions_of_ten_among_three() {
    let parts = partitions(10, 3).unwrap();
    assert_eq!(
        parts,
        vec![
            Partition { start: 0, end: 3 },
            Partition { start: 3, end: 6 },
            Partition { start: 6, end: 10 },
        ]
    );
    assert_eq!(parts[2].len(), 4);
}

#[test]
fn partitions_of_twelve_among_four_are_equal() {
    let parts = partitions(12, 4).unwrap();
    assert_eq!(parts.len(), 4);
    for (i, p) in parts.iter().enumerate() {
        assert_eq!(p.len(), 3);
        assert_eq!(p.start, 3 * i);
    }
}

#[test]
fn partitions_tile_the_index_range() {
    for len in 0..40 {
        for workers in 1..12 {
            assert_tiles(len, workers);
        }
    }
}

#[test]
fn partitions_with_more_workers_than_elements() {
    let parts = partitions(3, 5).unwrap();
    assert_eq!(parts.len(), 5);
    for p in parts.iter().take(4) {
        assert!(p.is_empty());
        assert_eq!(p.len(), 0);
    }
    assert_eq!(parts[4], Partition { start: 0, end: 3 });
    assert!(!parts[4].is_empty());
}

#[test]
fn partitions_without_workers_is_an_error() {
    assert_eq!(partitions(10, 0), Err(ReduceError::ZeroWorkers));
    assert_eq!(partitions(0, 0), Err(ReduceError::ZeroWorkers));
}

#[test]
fn partition_at_matches_partitions() {
    let parts = partitions(100, 7).unwrap();
    for i in 0..7 {
        assert_eq!(partition_at(100, 7, i), parts[i]);
    }
    assert_eq!(partition_at(100, 7, 6), Partition { start: 84, end: 100 });
}

#[test]
fn partition_with_start_past_end_is_empty() {
    let p = Partition { start: 5, end: 2 };
    assert!(p.is_empty());
    assert_eq!(p.len(), 0);
    let data = vec![1u64, 2, 3, 4, 5, 6];
    assert_eq!(reduce_partition(&data, p), Ok(0));
}

#[test]
fn sequential_reduce_sums_squares() {
    assert_eq!(sequential_reduce(&vec![1, 2, 3, 4]), Ok(30));
    assert_eq!(sequential_reduce(&vec![7]), Ok(49));
}

#[test]
fn twelve_twos_reduce_to_forty_eight() {
    let data = uniform_dataset(12, 2);
    assert_eq!(data, vec![2u64; 12]);
    assert_eq!(sequential_reduce(&data), Ok(48));
    assert_eq!(parallel_reduce(&data, 4), Ok(48));
}

#[test]
fn parallel_equals_sequential() {
    for len in 0..30usize {
        let data: Vec<u64> = (0..len).map(|i| (i * 7 + 3) as u64).collect();
        let expected = sequential_reduce(&data);
        for workers in 1..10 {
            assert_eq!(parallel_reduce(&data, workers), expected);
        }
    }
}

#[test]
fn sequential_reduce_twice_gives_the_same() {
    let data: Vec<u64> = vec![5, 9, 0, 12, 3];
    let first = sequential_reduce(&data);
    let second = sequential_reduce(&data);
    assert_eq!(first, second);
    assert_eq!(first, Ok(259));
}

#[test]
fn parallel_reduce_with_surplus_workers() {
    let data: Vec<u64> = vec![1, 2, 3];
    assert_eq!(parallel_reduce(&data, 8), Ok(14));
    assert_eq!(parallel_reduce(&data, 4), Ok(14));
}

#[test]
fn empty_dataset_reduces_to_zero() {
    let data: Vec<u64> = Vec::new();
    assert_eq!(sequential_reduce(&data), Ok(0));
    assert_eq!(parallel_reduce(&data, 1), Ok(0));
    assert_eq!(parallel_reduce(&data, 6), Ok(0));
}

#[test]
fn parallel_reduce_without_workers_is_an_error() {
    assert_eq!(parallel_reduce(&vec![1, 2, 3], 0), Err(ReduceError::ZeroWorkers));
    assert_eq!(parallel_reduce(&Vec::new(), 0), Err(ReduceError::ZeroWorkers));
}

#[test]
fn a_square_that_does_not_fit_is_an_overflow() {
    let data: Vec<u64> = vec![1, 1u64 << 32, 1];
    assert_eq!(sequential_reduce(&data), Err(ReduceError::Overflow));
    assert_eq!(parallel_reduce(&data, 3), Err(ReduceError::Overflow));
}

#[test]
fn a_sum_that_does_not_fit_is_an_overflow() {
    let fits: Vec<u64> = vec![1u64 << 31; 3];
    assert_eq!(sequential_reduce(&fits), Ok(3u64 << 62));
    assert_eq!(parallel_reduce(&fits, 3), Ok(3u64 << 62));
    let data: Vec<u64> = vec![1u64 << 31; 4];
    assert_eq!(sequential_reduce(&data), Err(ReduceError::Overflow));
    assert_eq!(parallel_reduce(&data, 4), Err(ReduceError::Overflow));
    assert_eq!(parallel_reduce(&data, 2), Err(ReduceError::Overflow));
}

#[test]
fn largest_total_that_fits() {
    let data: Vec<u64> = vec![u32::MAX as u64, 1, 1];
    let expected = (u32::MAX as u64) * (u32::MAX as u64) + 2;
    assert_eq!(sequential_reduce(&data), Ok(expected));
    assert_eq!(parallel_reduce(&data, 2), Ok(expected));
}

#[test]
fn reduce_partition_touches_only_its_range() {
    let data: Vec<u64> = vec![1u64 << 40, 2, 3, 1u64 << 40];
    assert_eq!(reduce_partition(&data, Partition { start: 1, end: 3 }), Ok(13));
    assert_eq!(reduce_partition(&data, Partition { start: 2, end: 2 }), Ok(0));
    assert_eq!(
        reduce_partition(&data, Partition { start: 0, end: 2 }),
        Err(ReduceError::Overflow)
    );
}

#[test]
fn accumulator_merges_in_any_order() {
    let partials: [Result<u64, ReduceError>; 4] = [Ok(9), Ok(0), Ok(27), Ok(12)];
    let orders: [[usize; 4]; 4] = [[0, 1, 2, 3], [3, 2, 1, 0], [2, 0, 3, 1], [1, 3, 0, 2]];
    for order in orders.iter() {
        let mut acc = Accumulator::new();
        for &i in order.iter() {
            acc.merge(partials[i]);
        }
        assert_eq!(acc.value(), Ok(48));
    }
}

#[test]
fn accumulator_starts_at_zero_and_keeps_an_overflow() {
    let mut acc = Accumulator::new();
    assert_eq!(acc.value(), Ok(0));
    acc.merge(Ok(u64::MAX));
    assert_eq!(acc.value(), Ok(u64::MAX));
    acc.merge(Ok(1));
    assert_eq!(acc.value(), Err(ReduceError::Overflow));
    acc.merge(Ok(0));
    assert_eq!(acc.value(), Err(ReduceError::Overflow));

    let mut other = Accumulator::new();
    other.merge(Ok(5));
    other.merge(Err(ReduceError::Overflow));
    assert_eq!(other.value(), Err(ReduceError::Overflow));
}

#[test]
fn uniform_dataset_holds_equal_elements() {
    assert_eq!(uniform_dataset(0, 9), Vec::<u64>::new());
    assert_eq!(uniform_dataset(4, 3), vec![3, 3, 3, 3]);
    assert_eq!(sequential_reduce(&uniform_dataset(1000, 1)), Ok(1000));
    assert_eq!(parallel_reduce(&uniform_dataset(1000, 1), 12), Ok(1000));
    assert_eq!(sequential_reduce(&uniform_dataset(5, 4)), Ok(80));
}
