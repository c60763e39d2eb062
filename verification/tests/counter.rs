use data_reduction::counter::{validate_counter_run, run_increments, shared_counter_demo, Counter};
use data_reduction::partition::ReduceError;

#[test]
fn five_workers_ten_increments_give_fifty() {
    for _ in 0..20 {
        assert_eq!(shared_counter_demo(5, 10), Ok(50));
    }
}

#[test]
fn counter_demo_is_the_product() {
    for workers in 1..9usize {
        for increments in 0..9u64 {
            assert_eq!(
                shared_counter_demo(workers, increments),
                Ok(workers as u64 * increments)
            );
        }
    }
}

#[test]
fn counter_demo_without_workers_is_an_error() {
    assert_eq!(shared_counter_demo(0, 10), Err(ReduceError::ZeroWorkers));
    assert_eq!(shared_counter_demo(0, 0), Err(ReduceError::ZeroWorkers));
}

#[test]
fn counter_demo_past_64_bits_is_an_overflow() {
    assert_eq!(shared_counter_demo(2, u64::MAX), Err(ReduceError::Overflow));
    assert_eq!(shared_counter_demo(3, u64::MAX / 2), Err(ReduceError::Overflow));
}

#[test]
fn validate_counter_run_at_the_limit() {
    assert_eq!(validate_counter_run(1, u64::MAX), Ok(u64::MAX));
    assert_eq!(validate_counter_run(2, u64::MAX / 2), Ok(u64::MAX - 1));
    assert_eq!(validate_counter_run(2, u64::MAX / 2 + 1), Err(ReduceError::Overflow));
    assert_eq!(validate_counter_run(7, 0), Ok(0));
    assert_eq!(validate_counter_run(0, 7), Err(ReduceError::ZeroWorkers));
}

#[test]
fn counter_counts_each_increment() {
    let mut c = Counter::new();
    assert_eq!(c.value(), 0);
    c.increment();
    c.increment();
    assert_eq!(c.value(), 2);
    run_increments(&mut c, 40);
    assert_eq!(c.value(), 42);
    run_increments(&mut c, 0);
    assert_eq!(c.value(), 42);
}
