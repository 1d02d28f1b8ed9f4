//! The source of randomness: rand's thread-local generator.
use vstd::prelude::*;

verus! {

/// Relies on rand::random, which draws from the calling thread's own generator
/// (`thread_rng`), so that workers never share one. Nothing is promised of the value.
pub assume_specification<T>[ rand::random::<T> ]() -> (r: T)
    where
        rand::distributions::Standard: rand::distributions::Distribution<T>,
;

} // verus!
