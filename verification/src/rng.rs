//! Sources of raw randomness.
//!
//! The optimizer draws every random bit through [`RandomSource`], so that a
//! deterministic source can be injected for reproducible runs and tests; its
//! contracts state only what holds of every possible draw.

use vstd::prelude::*;

verus! {

/// A supplier of raw 64-bit randomness.
pub trait RandomSource {
    /// The next raw 64-bit value. No distribution is assumed of it.
    fn next_u64(&mut self) -> u64;
}

/// The process-wide source, backed by the rand crate's thread-local
/// generator.
pub struct ThreadRandom {}

impl ThreadRandom {
    /// A handle on the process-wide source.
    pub fn new() -> (r: ThreadRandom) {
        ThreadRandom {  }
    }
}

/// Relies on rand::random::<u64>: one draw from the thread-local generator.
/// Nothing is assumed about the value drawn.
#[verifier::external_body]
fn thread_random_u64() -> u64 {
    rand::random::<u64>()
}

impl RandomSource for ThreadRandom {
    fn next_u64(&mut self) -> u64 {
        thread_random_u64()
    }
}

/// A deterministic source: hands out a fixed list of values, over and over.
/// An empty list yields zeroes.
pub struct CycleRandom {
    values: Vec<u64>,
    at: usize,
}

impl CycleRandom {
    /// A source that cycles through `values`.
    pub fn new(values: Vec<u64>) -> (r: CycleRandom) {
        CycleRandom { values, at: 0 }
    }
}

impl RandomSource for CycleRandom {
    fn next_u64(&mut self) -> u64 {
        if self.values.len() == 0 {
            return 0;
        }
        let i = self.at % self.values.len();
        let v = self.values[i];
        self.at = i + 1;
        v
    }
}

} // verus!
