//! A data-reduction core: a dataset of unsigned integers is cut into
//! contiguous partitions, each partition is reduced to the sum of the squares
//! of its elements, and the partial sums are merged into one accumulator.
//! The result is the same as that of a single pass over the whole dataset.

pub mod partition;
pub mod worker;
pub mod reduce;
pub mod counter;
pub mod strings;
pub mod errors;
pub mod generics;
