//! A generic evolutionary optimizer: it keeps a population of candidate
//! solutions, breeds and mutates them, scores them, and culls the weakest,
//! driving the population toward higher fitness.
//!
//! Scores are carried as the raw bit pattern of an IEEE 754 double so that
//! the ordering rules (including the placement of NaN) can be stated and
//! verified exactly; all arithmetic on scores is supplied by the candidate
//! type itself.

pub mod engine;
pub mod rng;
pub mod sampling;
pub mod score;

pub use engine::ConfigError;
pub use engine::Optimizer;
pub use engine::Record;
pub use engine::GEF;
pub use rng::CycleRandom;
pub use rng::RandomSource;
pub use rng::ThreadRandom;
pub use score::Score;
